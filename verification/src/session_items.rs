//! The canonical history of a session: the item records it is made of, the
//! checks an append makes, the projection of legacy journal events into
//! items, and the projection of items into the messages a model is shown.

use vstd::prelude::*;
use vstd::string::StringExecFns;
use crate::compaction::{
    call_id_of, is_orphan, law_no_orphan_after_normalize, normalize_tool_pairs, pairs_normalized,
    tool_call_ids, ItemPayload,
};
use crate::context::{decimal, decimal_text};
use crate::ids::{name_based_uuid, uuid_string, uuid_text, uuid_v5};
use vstd::string::StrSliceExecFns;
use vstd::utf8::encode_utf8;
use crate::history::{ContentBlock, Message, MessageRole};

verus! {

/// One stored item of a session's history.
#[derive(Debug, Clone)]
pub struct ItemRecord {
    pub schema_version: u32,
    pub id: String,
    pub session_id: String,
    pub turn_id: String,
    pub sequence: u64,
    pub created_at_ms: u64,
    pub payload: ItemPayload,
}

/// Why a session or an item record was refused.
#[derive(Debug, Clone, Copy, PartialEq, Eq, Structural)]
pub enum SessionItemError {
    UnsupportedSessionSchema { version: u32 },
    UnsupportedItemSchema { version: u32 },
    SessionMismatch,
    SequenceMismatch { sequence: u64, expected: u64 },
    OutOfOrder { sequence: u64 },
    ForkMissingParent,
    ForkMismatch,
    MissingParentSequence { sequence: u64 },
}

/// The error as the store reports it.
pub open spec fn error_text(error: SessionItemError) -> Seq<char> {
    match error {
        SessionItemError::UnsupportedSessionSchema { version } => "unsupported session schema version "@
            + decimal(version as nat),
        SessionItemError::UnsupportedItemSchema { version } => "unsupported item schema version "@
            + decimal(version as nat),
        SessionItemError::SessionMismatch => "item session does not match append target"@,
        SessionItemError::SequenceMismatch { sequence, expected } => "item sequence "@ + decimal(
            sequence as nat,
        ) + " does not match expected "@ + decimal(expected as nat),
        SessionItemError::OutOfOrder { sequence } => "items are duplicate or out of order at sequence "@
            + decimal(sequence as nat),
        SessionItemError::ForkMissingParent => "fork child missing parent metadata"@,
        SessionItemError::ForkMismatch => "fork metadata does not match request"@,
        SessionItemError::MissingParentSequence { sequence } => "parent sequence "@ + decimal(
            sequence as nat,
        ) + " does not exist"@,
    }
}

impl SessionItemError {
    /// The error as the store reports it (see `error_text`).
    pub fn message(&self) -> (text: String)
        ensures
            text@ == error_text(*self),
    {
        match *self {
            SessionItemError::UnsupportedSessionSchema { version } => {
                let mut text = "unsupported session schema version ".to_owned();
                text.append(decimal_text(version as u64).as_str());
                text
            },
            SessionItemError::UnsupportedItemSchema { version } => {
                let mut text = "unsupported item schema version ".to_owned();
                text.append(decimal_text(version as u64).as_str());
                text
            },
            SessionItemError::SessionMismatch => "item session does not match append target".to_owned(),
            SessionItemError::SequenceMismatch { sequence, expected } => {
                let mut text = "item sequence ".to_owned();
                text.append(decimal_text(sequence).as_str());
                text.append(" does not match expected ");
                text.append(decimal_text(expected).as_str());
                text
            },
            SessionItemError::OutOfOrder { sequence } => {
                let mut text = "items are duplicate or out of order at sequence ".to_owned();
                text.append(decimal_text(sequence).as_str());
                text
            },
            SessionItemError::ForkMissingParent => "fork child missing parent metadata".to_owned(),
            SessionItemError::ForkMismatch => "fork metadata does not match request".to_owned(),
            SessionItemError::MissingParentSequence { sequence } => {
                let mut text = "parent sequence ".to_owned();
                text.append(decimal_text(sequence).as_str());
                text.append(" does not exist");
                text
            },
        }
    }
}

/// A session record is accepted only in the schema version the store
/// supports.
pub fn validate_session(schema_version: u32, supported: u32) -> (checked: Result<(), SessionItemError>)
    ensures
        checked == if schema_version == supported {
            Ok(())
        } else {
            Err(SessionItemError::UnsupportedSessionSchema { version: schema_version })
        },
{
    if schema_version != supported {
        return Err(SessionItemError::UnsupportedSessionSchema { version: schema_version });
    }
    Ok(())
}

/// What appending `item` to `session` at sequence `expected` is refused
/// for, checked in this order: its schema version, its session, its
/// sequence.
pub open spec fn item_check(session: Seq<char>, expected: u64, item: ItemRecord, supported: u32) -> Result<
    (),
    SessionItemError,
> {
    if item.schema_version != supported {
        Err(SessionItemError::UnsupportedItemSchema { version: item.schema_version })
    } else if item.session_id@ != session {
        Err(SessionItemError::SessionMismatch)
    } else if item.sequence != expected {
        Err(SessionItemError::SequenceMismatch { sequence: item.sequence, expected })
    } else {
        Ok(())
    }
}

/// Checks an item before it is appended (see `item_check`).
pub fn validate_item(session: &String, expected: u64, item: &ItemRecord, supported: u32) -> (checked:
    Result<(), SessionItemError>)
    ensures
        checked == item_check(session@, expected, *item, supported),
{
    if item.schema_version != supported {
        return Err(SessionItemError::UnsupportedItemSchema { version: item.schema_version });
    }
    if item.session_id != *session {
        return Err(SessionItemError::SessionMismatch);
    }
    if item.sequence != expected {
        return Err(SessionItemError::SequenceMismatch { sequence: item.sequence, expected });
    }
    Ok(())
}

/// Whether an event of the history is shown to the model or only steers
/// the session.
#[derive(Debug, Clone, Copy, PartialEq, Eq, Structural)]
pub enum EventVisibility {
    ModelVisible,
    Control,
}

/// Messages and tool traffic are shown to the model; projections and
/// notices are control events.
pub open spec fn visibility_of(payload: ItemPayload) -> EventVisibility {
    match payload {
        ItemPayload::UserMessage { .. }
        | ItemPayload::AssistantMessage { .. }
        | ItemPayload::ToolCall { .. }
        | ItemPayload::ToolResult { .. } => EventVisibility::ModelVisible,
        ItemPayload::ContextProjection { .. } | ItemPayload::SystemNotice { .. } => EventVisibility::Control,
    }
}

/// The visibility an item's event is stored with (see `visibility_of`).
pub fn item_visibility(payload: &ItemPayload) -> (visibility: EventVisibility)
    ensures
        visibility == visibility_of(*payload),
{
    match payload {
        ItemPayload::UserMessage { .. }
        | ItemPayload::AssistantMessage { .. }
        | ItemPayload::ToolCall { .. }
        | ItemPayload::ToolResult { .. } => EventVisibility::ModelVisible,
        ItemPayload::ContextProjection { .. } | ItemPayload::SystemNotice { .. } => EventVisibility::Control,
    }
}

/// One event of the legacy session journal; a tool input is its JSON text.
#[derive(Debug, Clone)]
pub enum SessionEvent {
    SessionCreated { session_id: String },
    UserMessage { content: String },
    AssistantMessage { content: String },
    ToolUseBlock { tool_use_id: String, tool_name: String, input: String },
    ToolResultBlock { tool_use_id: String, content: String, is_error: bool },
    ToolCallStarted { tool_call_id: String, tool_name: String, input: String },
    ToolCallCompleted { tool_call_id: String, is_error: bool, content: String, elapsed_ms: u64 },
    CheckpointBoundary { iteration: usize },
    Compacted { before_count: usize, after_count: usize },
    Summary { text: String },
    SessionEnded { reason: String },
}

/// The history item a journal event becomes: messages stay messages, tool
/// blocks and tool call events become tool calls and results, and every
/// other event has no place in the history.
pub open spec fn event_payload(event: SessionEvent) -> Option<ItemPayload> {
    match event {
        SessionEvent::UserMessage { content } => Some(ItemPayload::UserMessage { content }),
        SessionEvent::AssistantMessage { content } => Some(ItemPayload::AssistantMessage { content }),
        SessionEvent::ToolUseBlock { tool_use_id, tool_name, input } => Some(
            ItemPayload::ToolCall { call_id: tool_use_id, name: tool_name, input },
        ),
        SessionEvent::ToolCallStarted { tool_call_id, tool_name, input } => Some(
            ItemPayload::ToolCall { call_id: tool_call_id, name: tool_name, input },
        ),
        SessionEvent::ToolResultBlock { tool_use_id, content, is_error } => Some(
            ItemPayload::ToolResult {
                call_id: tool_use_id,
                content,
                is_error,
                permit_id: None,
                audit_id: None,
            },
        ),
        SessionEvent::ToolCallCompleted { tool_call_id, is_error, content, .. } => Some(
            ItemPayload::ToolResult {
                call_id: tool_call_id,
                content,
                is_error,
                permit_id: None,
                audit_id: None,
            },
        ),
        _ => None,
    }
}

/// Projects legacy journal events into canonical history items.
pub struct LegacyJournalProjector;

impl LegacyJournalProjector {
    /// The item that `event` becomes, if any (see `event_payload`), with
    /// the given identity, place and schema version.
    pub fn project(
        event: &SessionEvent,
        id: String,
        session_id: String,
        turn_id: String,
        sequence: u64,
        created_at_ms: u64,
        schema_version: u32,
    ) -> (record: Option<ItemRecord>)
        ensures
            record == match event_payload(*event) {
                Some(payload) => Some(
                    ItemRecord {
                        schema_version,
                        id,
                        session_id,
                        turn_id,
                        sequence,
                        created_at_ms,
                        payload,
                    },
                ),
                None => None,
            },
    {
        let payload = match event {
            SessionEvent::UserMessage { content } => ItemPayload::UserMessage { content: content.clone() },
            SessionEvent::AssistantMessage { content } => ItemPayload::AssistantMessage {
                content: content.clone(),
            },
            SessionEvent::ToolUseBlock { tool_use_id, tool_name, input } => ItemPayload::ToolCall {
                call_id: tool_use_id.clone(),
                name: tool_name.clone(),
                input: input.clone(),
            },
            SessionEvent::ToolCallStarted { tool_call_id, tool_name, input } => ItemPayload::ToolCall {
                call_id: tool_call_id.clone(),
                name: tool_name.clone(),
                input: input.clone(),
            },
            SessionEvent::ToolResultBlock { tool_use_id, content, is_error } => ItemPayload::ToolResult {
                call_id: tool_use_id.clone(),
                content: content.clone(),
                is_error: *is_error,
                permit_id: None,
                audit_id: None,
            },
            SessionEvent::ToolCallCompleted { tool_call_id, is_error, content, .. } => {
                ItemPayload::ToolResult {
                    call_id: tool_call_id.clone(),
                    content: content.clone(),
                    is_error: *is_error,
                    permit_id: None,
                    audit_id: None,
                }
            },
            _ => {
                return None;
            },
        };
        Some(ItemRecord { schema_version, id, session_id, turn_id, sequence, created_at_ms, payload })
    }
}

/// The sequence an item must exceed: that of the item before it, or zero.
pub open spec fn sequence_before(items: Seq<ItemRecord>, k: int) -> int {
    if k == 0 {
        0
    } else {
        items[k - 1].sequence as int
    }
}

/// Whether item `k` comes strictly after the one before it.
pub open spec fn ordered_at(items: Seq<ItemRecord>, k: int) -> bool {
    sequence_before(items, k) < items[k].sequence
}

/// Whether the sequences rise strictly from above zero.
pub open spec fn strictly_ordered(items: Seq<ItemRecord>) -> bool {
    forall|k: int| 0 <= k < items.len() ==> #[trigger] ordered_at(items, k)
}

/// Whether item `k` is the first one out of order.
pub open spec fn first_unordered(items: Seq<ItemRecord>, k: int) -> bool {
    &&& 0 <= k < items.len()
    &&& !ordered_at(items, k)
    &&& forall|j: int| 0 <= j < k ==> #[trigger] ordered_at(items, j)
}

pub open spec fn payloads_of(items: Seq<ItemRecord>) -> Seq<ItemPayload> {
    items.map_values(|item: ItemRecord| item.payload)
}

/// A message as its role and blocks.
pub open spec fn message_parts(message: Message) -> (MessageRole, Seq<ContentBlock>) {
    (message.role, message.content@)
}

pub open spec fn messages_parts(messages: Seq<Message>) -> Seq<(MessageRole, Seq<ContentBlock>)> {
    messages.map_values(|m: Message| message_parts(m))
}

/// The message an item is shown to the model as: a text message for the
/// messages and notices, an assistant tool use for a call, a tool message
/// for a result; a context projection is not shown.
pub open spec fn projected_message(item: ItemPayload) -> Option<(MessageRole, Seq<ContentBlock>)> {
    match item {
        ItemPayload::UserMessage { content } => Some(
            (MessageRole::User, seq![ContentBlock::Text { text: content }]),
        ),
        ItemPayload::AssistantMessage { content } => Some(
            (MessageRole::Assistant, seq![ContentBlock::Text { text: content }]),
        ),
        ItemPayload::SystemNotice { content } => Some(
            (MessageRole::System, seq![ContentBlock::Text { text: content }]),
        ),
        ItemPayload::ToolCall { call_id, name, input } => Some(
            (MessageRole::Assistant, seq![ContentBlock::ToolUse { id: call_id, name, input }]),
        ),
        ItemPayload::ToolResult { call_id, content, is_error, .. } => Some(
            (
                MessageRole::Tool,
                seq![ContentBlock::ToolResult { tool_use_id: call_id, content, is_error }],
            ),
        ),
        ItemPayload::ContextProjection { .. } => None,
    }
}

/// The messages `items` are shown as, in order.
pub open spec fn projected(items: Seq<ItemPayload>) -> Seq<(MessageRole, Seq<ContentBlock>)>
    decreases items.len(),
{
    if items.len() == 0 {
        Seq::empty()
    } else {
        let rest = projected(items.drop_last());
        match projected_message(items.last()) {
            Some(message) => rest.push(message),
            None => rest,
        }
    }
}

/// Moves the payloads out of `items`, in order.
fn take_payloads(items: Vec<ItemRecord>) -> (payloads: Vec<ItemPayload>)
    ensures
        payloads@ == payloads_of(items@),
{
    let ghost original = items@;
    let ghost n = original.len() as int;
    let mut items = items;
    let mut reversed: Vec<ItemPayload> = Vec::new();
    while items.len() > 0
        invariant
            items@.len() + reversed@.len() == n,
            items@ == original.take(items@.len() as int),
            n == original.len(),
            forall|j: int| 0 <= j < reversed@.len() ==> #[trigger] reversed@[j] == original[n - 1 - j].payload,
        decreases items@.len(),
    {
        let ghost before = items@;
        let record = items.pop().unwrap();
        proof {
            assert(record == before.last());
            assert(items@ =~= original.take(items@.len() as int));
        }
        reversed.push(record.payload);
    }
    let mut payloads: Vec<ItemPayload> = Vec::new();
    while reversed.len() > 0
        invariant
            payloads@.len() + reversed@.len() == n,
            n == original.len(),
            forall|j: int| 0 <= j < reversed@.len() ==> #[trigger] reversed@[j] == original[n - 1 - j].payload,
            forall|j: int| 0 <= j < payloads@.len() ==> #[trigger] payloads@[j] == original[j].payload,
        decreases reversed@.len(),
    {
        let ghost before = reversed@;
        let payload = reversed.pop().unwrap();
        proof {
            assert(payload == before[before.len() - 1]);
            assert forall|j: int| 0 <= j < reversed@.len() implies #[trigger] reversed@[j] == original[n - 1 - j].payload by {
                assert(reversed@[j] == before[j]);
            }
        }
        payloads.push(payload);
    }
    assert(payloads@ =~= payloads_of(original));
    payloads
}

/// The messages `items` are shown as (see `projected`).
fn project_payloads(items: &Vec<ItemPayload>) -> (messages: Vec<Message>)
    ensures
        messages_parts(messages@) == projected(items@),
{
    let mut messages: Vec<Message> = Vec::new();
    let mut k: usize = 0;
    while k < items.len()
        invariant
            0 <= k <= items@.len(),
            messages_parts(messages@) == projected(items@.take(k as int)),
        decreases items@.len() - k,
    {
        proof {
            assert(items@.take(k + 1).drop_last() =~= items@.take(k as int));
            assert(items@.take(k + 1).last() == items@[k as int]);
        }
        let ghost before = messages@;
        let message = match &items[k] {
            ItemPayload::UserMessage { content } => Some(Message::user(content.clone())),
            ItemPayload::AssistantMessage { content } => Some(Message::assistant(content.clone())),
            ItemPayload::SystemNotice { content } => Some(Message::system(content.clone())),
            ItemPayload::ToolCall { call_id, name, input } => {
                let mut blocks: Vec<ContentBlock> = Vec::new();
                blocks.push(
                    ContentBlock::ToolUse { id: call_id.clone(), name: name.clone(), input: input.clone() },
                );
                Some(Message { role: MessageRole::Assistant, content: blocks })
            },
            ItemPayload::ToolResult { call_id, content, is_error, .. } => Some(
                Message::tool_result(call_id.clone(), content.clone(), *is_error),
            ),
            ItemPayload::ContextProjection { .. } => None,
        };
        match message {
            Some(m) => {
                proof {
                    assert(m.content@ =~= projected_message(items@[k as int]).unwrap().1);
                }
                messages.push(m);
                proof {
                    assert(messages_parts(messages@) =~= messages_parts(before).push(message_parts(m)));
                }
            },
            None => {},
        }
        k = k + 1;
    }
    proof {
        assert(items@.take(items@.len() as int) =~= items@);
    }
    messages
}

/// The messages a model is shown of a session's stored items: the items
/// must rise strictly in sequence from above zero, else the first one out of
/// order is reported; orphan tool results are replaced by notices first
/// (see `normalize_tool_pairs`), then each item becomes its message (see
/// `projected`). The stored records themselves are not changed.
pub fn project_messages(items: Vec<ItemRecord>) -> (projection: Result<Vec<Message>, SessionItemError>)
    ensures
        projection is Ok <==> strictly_ordered(items@),
        projection matches Err(error) ==> exists|k: int|
            #[trigger] first_unordered(items@, k) && error == (SessionItemError::OutOfOrder {
                sequence: items@[k].sequence,
            }),
        projection matches Ok(messages) ==> exists|out: Seq<ItemPayload>|
            pairs_normalized(payloads_of(items@), out) && #[trigger] projected(out) == messages_parts(
                messages@,
            ),
{
    let mut previous: u64 = 0;
    let mut i: usize = 0;
    while i < items.len()
        invariant
            0 <= i <= items@.len(),
            previous as int == sequence_before(items@, i as int),
            forall|j: int| 0 <= j < i ==> #[trigger] ordered_at(items@, j),
        decreases items@.len() - i,
    {
        if items[i].sequence <= previous {
            proof {
                assert(first_unordered(items@, i as int));
            }
            return Err(SessionItemError::OutOfOrder { sequence: items[i].sequence });
        }
        assert(ordered_at(items@, i as int));
        previous = items[i].sequence;
        i = i + 1;
    }
    let ghost records = items@;
    let payloads = take_payloads(items);
    let normalized = normalize_tool_pairs(payloads);
    let messages = project_payloads(&normalized.items);
    proof {
        assert(pairs_normalized(payloads_of(records), normalized.items@));
        assert(projected(normalized.items@) == messages_parts(messages@));
    }
    Ok(messages)
}

pub open spec fn tool_use_id_of(block: ContentBlock) -> Option<Seq<char>> {
    match block {
        ContentBlock::ToolUse { id, .. } => Some(id@),
        _ => None,
    }
}

pub open spec fn tool_result_id_of(block: ContentBlock) -> Option<Seq<char>> {
    match block {
        ContentBlock::ToolResult { tool_use_id, .. } => Some(tool_use_id@),
        _ => None,
    }
}

/// Whether some message of `messages` uses tool call `id`.
pub open spec fn uses_tool(messages: Seq<(MessageRole, Seq<ContentBlock>)>, id: Seq<char>) -> bool {
    exists|i: int, j: int|
        0 <= i < messages.len() && 0 <= j < messages[i].1.len() && #[trigger] tool_use_id_of(
            messages[i].1[j],
        ) == Some(id)
}

proof fn lemma_projected_from(items: Seq<ItemPayload>, i: int)
    requires
        0 <= i < projected(items).len(),
    ensures
        exists|k: int| 0 <= k < items.len() && #[trigger] projected_message(items[k]) == Some(projected(items)[i]),
    decreases items.len(),
{
    let rest = projected(items.drop_last());
    if i < rest.len() {
        lemma_projected_from(items.drop_last(), i);
        let k = choose|k: int|
            0 <= k < items.drop_last().len() && #[trigger] projected_message(items.drop_last()[k])
                == Some(rest[i]);
        assert(items.drop_last()[k] == items[k]);
        assert(projected(items)[i] == rest[i]);
        assert(projected_message(items[k]) == Some(projected(items)[i]));
    } else {
        assert(projected_message(items[items.len() - 1]) == Some(projected(items)[i]));
    }
}

proof fn lemma_projected_to(items: Seq<ItemPayload>, k: int)
    requires
        0 <= k < items.len(),
        projected_message(items[k]) is Some,
    ensures
        exists|i: int|
            0 <= i < projected(items).len() && #[trigger] projected(items)[i] == projected_message(
                items[k],
            ).unwrap(),
    decreases items.len(),
{
    let rest = projected(items.drop_last());
    if k == items.len() - 1 {
        assert(projected(items)[rest.len() as int] == projected_message(items[k]).unwrap());
    } else {
        assert(items.drop_last()[k] == items[k]);
        lemma_projected_to(items.drop_last(), k);
        let i = choose|i: int|
            0 <= i < rest.len() && #[trigger] rest[i] == projected_message(items.drop_last()[k]).unwrap();
        assert(projected(items)[i] == rest[i]);
    }
}

/// Replaying a session never shows the model a tool result without the
/// tool use it answers: in the messages projected from normalized items,
/// every tool result block names a tool use that is shown too.
pub proof fn law_projection_hides_orphan_results(items: Seq<ItemPayload>, out: Seq<ItemPayload>)
    requires
        pairs_normalized(items, out),
    ensures
        forall|i: int, j: int|
            0 <= i < projected(out).len() && 0 <= j < projected(out)[i].1.len()
                && #[trigger] tool_result_id_of(projected(out)[i].1[j]) is Some ==> uses_tool(
                projected(out),
                tool_result_id_of(projected(out)[i].1[j]).unwrap(),
            ),
{
    law_no_orphan_after_normalize(items, out);
    let shown = projected(out);
    assert forall|i: int, j: int|
        0 <= i < shown.len() && 0 <= j < shown[i].1.len()
            && #[trigger] tool_result_id_of(shown[i].1[j]) is Some implies uses_tool(
        shown,
        tool_result_id_of(shown[i].1[j]).unwrap(),
    ) by {
        lemma_projected_from(out, i);
        let k = choose|k: int| 0 <= k < out.len() && #[trigger] projected_message(out[k]) == Some(shown[i]);
        match out[k] {
            ItemPayload::ToolResult { call_id, .. } => {
                assert(j == 0);
                assert(!is_orphan(out[k], tool_call_ids(out)));
                assert(tool_call_ids(out).contains(call_id@));
                let k2 = choose|k2: int| 0 <= k2 < out.len() && #[trigger] call_id_of(out[k2]) == Some(call_id@);
                match out[k2] {
                    ItemPayload::ToolCall { call_id: used, .. } => {
                        lemma_projected_to(out, k2);
                        let i2 = choose|i2: int|
                            0 <= i2 < shown.len() && #[trigger] shown[i2] == projected_message(out[k2]).unwrap();
                        assert(tool_use_id_of(shown[i2].1[0]) == Some(call_id@));
                    },
                    _ => {},
                }
            },
            _ => {},
        }
    }
}

/// The namespace of the ids of the items a fork inherits.
pub const FORK_ITEM_NAMESPACE: u128 = 0x9722_3947_4cbc_4e93_94fa_a717_98f6_4a30;

/// A fork must name its parent, and the parent and sequence it names must
/// be those of the request; `link` is the child's parent session and the
/// sequence it forks through.
pub fn check_fork_link(parent: &String, through_sequence: u64, link: &Option<(String, u64)>) -> (checked:
    Result<(), SessionItemError>)
    ensures
        checked == match *link {
            None => Err(SessionItemError::ForkMissingParent),
            Some((linked, through)) => if linked@ != parent@ || through != through_sequence {
                Err(SessionItemError::ForkMismatch)
            } else {
                Ok(())
            },
        },
{
    match link {
        None => Err(SessionItemError::ForkMissingParent),
        Some((linked, through)) => {
            if !(*linked == *parent) || *through != through_sequence {
                Err(SessionItemError::ForkMismatch)
            } else {
                Ok(())
            }
        },
    }
}

/// Whether a fork through `through` names a sequence the parent's items do
/// not reach: a fork through zero inherits nothing and is always possible.
pub open spec fn parent_sequence_missing(items: Seq<ItemRecord>, through: u64) -> bool {
    through > 0 && (items.len() == 0 || through > items.last().sequence)
}

/// The items of `items` up to sequence `through`, in order.
pub open spec fn kept_through(items: Seq<ItemRecord>, through: u64) -> Seq<ItemRecord>
    decreases items.len(),
{
    if items.len() == 0 {
        Seq::empty()
    } else {
        let rest = kept_through(items.drop_last(), through);
        if items.last().sequence <= through {
            rest.push(items.last())
        } else {
            rest
        }
    }
}

/// The id an item inherited by `child` gets: the name-based UUID of
/// `<child>:<item id>` in `FORK_ITEM_NAMESPACE`, as text.
pub open spec fn fork_item_id(child: Seq<char>, item_id: Seq<char>) -> Seq<char> {
    uuid_text(name_based_uuid(FORK_ITEM_NAMESPACE, encode_utf8(child + ":"@ + item_id)))
}

/// `forked` is `original` as `child` inherits it: a new id, the child's
/// session, and everything else kept.
pub open spec fn forked_item(original: ItemRecord, child: Seq<char>, forked: ItemRecord) -> bool {
    &&& forked.id@ == fork_item_id(child, original.id@)
    &&& forked.session_id@ == child
    &&& forked.schema_version == original.schema_version
    &&& forked.turn_id == original.turn_id
    &&& forked.sequence == original.sequence
    &&& forked.created_at_ms == original.created_at_ms
    &&& forked.payload == original.payload
}

/// `out` is what `child` inherits of `items` through sequence `through`.
pub open spec fn inherits(items: Seq<ItemRecord>, through: u64, child: Seq<char>, out: Seq<ItemRecord>) -> bool {
    let kept = kept_through(items, through);
    &&& out.len() == kept.len()
    &&& forall|i: int| 0 <= i < out.len() ==> #[trigger] forked_item(kept[i], child, out[i])
}

/// The items a session forked from `parent_items` through sequence
/// `through_sequence` inherits, for the child session `child` (see
/// `inherits`); refused when the parent does not reach that sequence.
pub fn inherit_items(parent_items: Vec<ItemRecord>, through_sequence: u64, child: &String) -> (inherited:
    Result<Vec<ItemRecord>, SessionItemError>)
    ensures
        inherited is Err <==> parent_sequence_missing(parent_items@, through_sequence),
        inherited matches Err(error) ==> error == (SessionItemError::MissingParentSequence {
            sequence: through_sequence,
        }),
        inherited matches Ok(items) ==> inherits(parent_items@, through_sequence, child@, items@),
{
    let n = parent_items.len();
    if through_sequence > 0 && (n == 0 || through_sequence > parent_items[n - 1].sequence) {
        return Err(SessionItemError::MissingParentSequence { sequence: through_sequence });
    }
    let ghost original = parent_items@;
    let mut items = parent_items;
    let mut reversed: Vec<ItemRecord> = Vec::new();
    while items.len() > 0
        invariant
            items@.len() + reversed@.len() == n,
            n == original.len(),
            items@ == original.take(items@.len() as int),
            forall|j: int| 0 <= j < reversed@.len() ==> #[trigger] reversed@[j] == original[n - 1 - j],
        decreases items@.len(),
    {
        let ghost before = items@;
        let record = items.pop().unwrap();
        proof {
            assert(record == before.last());
            assert(items@ =~= original.take(items@.len() as int));
        }
        reversed.push(record);
    }
    let mut out: Vec<ItemRecord> = Vec::new();
    while reversed.len() > 0
        invariant
            reversed@.len() <= n,
            n == original.len(),
            forall|j: int| 0 <= j < reversed@.len() ==> #[trigger] reversed@[j] == original[n - 1 - j],
            inherits(original.take(n - reversed@.len()), through_sequence, child@, out@),
        decreases reversed@.len(),
    {
        let ghost before = reversed@;
        let ghost done = n - before.len();
        let mut item = reversed.pop().unwrap();
        proof {
            assert(item == original[done]);
            assert forall|j: int| 0 <= j < reversed@.len() implies #[trigger] reversed@[j] == original[n - 1 - j] by {
                assert(reversed@[j] == before[j]);
            }
            assert(original.take(done + 1).drop_last() =~= original.take(done));
            assert(original.take(done + 1).last() == original[done]);
        }
        if item.sequence <= through_sequence {
            let ghost kept_before = out@;
            let ghost first = item;
            let mut material = child.clone();
            material.append(":");
            material.append(item.id.as_str());
            item.id = uuid_string(uuid_v5(FORK_ITEM_NAMESPACE, material.as_str().as_bytes()));
            item.session_id = child.clone();
            out.push(item);
            proof {
                let kept = kept_through(original.take(done + 1), through_sequence);
                assert(kept == kept_through(original.take(done), through_sequence).push(first));
                assert(forked_item(first, child@, out@[out@.len() - 1]));
                assert forall|i: int| 0 <= i < out@.len() implies #[trigger] forked_item(
                    kept[i],
                    child@,
                    out@[i],
                ) by {
                    if i < out@.len() - 1 {
                        assert(out@[i] == kept_before[i]);
                    }
                }
            }
        }
    }
    proof {
        assert(original.take(n as int) =~= original);
    }
    Ok(out)
}

} // verus!
