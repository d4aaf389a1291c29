//! Conversation history replayed to the model: bounded in the number of
//! messages and of characters, text blocks only.

use vstd::prelude::*;
use vstd::string::{StrSliceExecFns, StringExecFns};
use crate::text::{spec_truncate_chars, truncate_chars};

verus! {

broadcast use vstd::string::group_string_axioms;

/// Characters kept of one replayed text block at most.
pub const MAX_HISTORY_MESSAGE_CHARS: usize = 16 * 1024;

/// Characters replayed over the whole history at most.
pub const MAX_HISTORY_TOTAL_CHARS: usize = 64 * 1024;

/// Messages replayed at most (the most recent ones).
pub const MAX_HISTORY_MESSAGES: usize = 6;

/// Who wrote a message.
#[derive(Debug, Clone, Copy, PartialEq, Eq, Structural)]
pub enum MessageRole {
    System,
    User,
    Assistant,
    Tool,
}

/// One block of a message.
#[derive(Debug, Clone)]
pub enum ContentBlock {
    Text { text: String },
    ToolUse { id: String, name: String, input: String },
    ToolResult { tool_use_id: String, content: String, is_error: bool },
}

/// A conversation message.
#[derive(Debug, Clone)]
pub struct Message {
    pub role: MessageRole,
    pub content: Vec<ContentBlock>,
}

/// Abstract block: the text of a text block, nothing for the others.
pub open spec fn block_text(block: ContentBlock) -> Option<Seq<char>> {
    match block {
        ContentBlock::Text { text } => Some(text@),
        _ => None,
    }
}

/// Abstract message: its role and the texts of its blocks.
pub open spec fn message_view(message: Message) -> (MessageRole, Seq<Option<Seq<char>>>) {
    (message.role, message.content@.map_values(|b: ContentBlock| block_text(b)))
}

pub open spec fn messages_view(messages: Seq<Message>) -> Seq<(MessageRole, Seq<Option<Seq<char>>>)> {
    messages.map_values(|m: Message| message_view(m))
}

pub open spec fn min_int(a: int, b: int) -> int {
    if a <= b {
        a
    } else {
        b
    }
}

/// The text blocks of `blocks`, each cut to the per-message bound and to
/// what is left of `remaining`, and what is left after them.
pub open spec fn bound_blocks(blocks: Seq<Option<Seq<char>>>, remaining: int) -> (
    Seq<Option<Seq<char>>>,
    int,
)
    decreases blocks.len(),
{
    if blocks.len() == 0 {
        (Seq::empty(), remaining)
    } else {
        let (out, left) = bound_blocks(blocks.drop_last(), remaining);
        match blocks.last() {
            Some(text) => {
                let kept = spec_truncate_chars(
                    text,
                    min_int(MAX_HISTORY_MESSAGE_CHARS as int, left),
                );
                (out.push(Some(kept)), left - kept.len())
            },
            None => (out, left),
        }
    }
}

/// The bounded messages (newest first) after the first `n` messages of
/// `newest_first`, and the characters still allowed. Once nothing is
/// allowed, later messages are left out; a message without text is left
/// out.
pub open spec fn bound_messages(
    newest_first: Seq<(MessageRole, Seq<Option<Seq<char>>>)>,
    n: int,
) -> (Seq<(MessageRole, Seq<Option<Seq<char>>>)>, int)
    decreases n,
{
    if n <= 0 {
        (Seq::empty(), MAX_HISTORY_TOTAL_CHARS as int)
    } else {
        let (out, left) = bound_messages(newest_first, n - 1);
        if left == 0 {
            (out, left)
        } else {
            let (blocks, after) = bound_blocks(newest_first[n - 1].1, left);
            if blocks.len() > 0 {
                (out.push((newest_first[n - 1].0, blocks)), after)
            } else {
                (out, after)
            }
        }
    }
}

/// The replayed history: the text of at most the `MAX_HISTORY_MESSAGES`
/// most recent messages, bounded per block and in total, oldest first.
pub open spec fn bounded_history(history: Seq<(MessageRole, Seq<Option<Seq<char>>>)>) -> Seq<
    (MessageRole, Seq<Option<Seq<char>>>),
> {
    let newest_first = history.reverse();
    let n = min_int(MAX_HISTORY_MESSAGES as int, history.len() as int);
    bound_messages(newest_first, n).0.reverse()
}

proof fn lemma_truncate_len(value: Seq<char>, max: int)
    requires
        max >= 0,
    ensures
        spec_truncate_chars(value, max).len() <= max,
        spec_truncate_chars(value, max).len() <= value.len(),
{
}

proof fn lemma_bound_blocks_left(blocks: Seq<Option<Seq<char>>>, remaining: int)
    requires
        remaining >= 0,
    ensures
        0 <= bound_blocks(blocks, remaining).1 <= remaining,
    decreases blocks.len(),
{
    if blocks.len() > 0 {
        lemma_bound_blocks_left(blocks.drop_last(), remaining);
        let left = bound_blocks(blocks.drop_last(), remaining).1;
        match blocks.last() {
            Some(text) => {
                lemma_truncate_len(text, min_int(MAX_HISTORY_MESSAGE_CHARS as int, left));
            },
            None => {},
        }
    }
}

proof fn lemma_bound_messages_left(newest_first: Seq<(MessageRole, Seq<Option<Seq<char>>>)>, n: int)
    ensures
        0 <= bound_messages(newest_first, n).1 <= MAX_HISTORY_TOTAL_CHARS,
    decreases n,
{
    if n > 0 {
        lemma_bound_messages_left(newest_first, n - 1);
        let left = bound_messages(newest_first, n - 1).1;
        if left != 0 {
            lemma_bound_blocks_left(newest_first[n - 1].1, left);
        }
    }
}

/// A text block holding `text`.
fn text_block(text: String) -> (block: ContentBlock)
    ensures
        block == (ContentBlock::Text { text }),
        block_text(block) == Some(text@),
{
    ContentBlock::Text { text }
}

/// The text blocks of one message, bounded; `remaining` goes down by the
/// characters kept.
fn bound_message_blocks(blocks: &Vec<ContentBlock>, remaining: &mut usize) -> (kept: Vec<
    ContentBlock,
>)
    ensures
        ({
            let (out, left) = bound_blocks(
                blocks@.map_values(|b: ContentBlock| block_text(b)),
                *old(remaining) as int,
            );
            &&& kept@.map_values(|b: ContentBlock| block_text(b)) == out
            &&& *final(remaining) == left
        }),
{
    let ghost views = blocks@.map_values(|b: ContentBlock| block_text(b));
    let ghost start = *remaining as int;
    let mut kept: Vec<ContentBlock> = Vec::new();
    let mut i: usize = 0;
    while i < blocks.len()
        invariant
            0 <= i <= blocks@.len(),
            views == blocks@.map_values(|b: ContentBlock| block_text(b)),
            ({
                let (out, left) = bound_blocks(views.take(i as int), start);
                &&& kept@.map_values(|b: ContentBlock| block_text(b)) == out
                &&& *remaining == left
            }),
        decreases blocks@.len() - i,
    {
        proof {
            assert(views.take(i + 1).drop_last() =~= views.take(i as int));
            assert(views.take(i + 1).last() == block_text(blocks@[i as int]));
        }
        match &blocks[i] {
            ContentBlock::Text { text } => {
                let limit = if MAX_HISTORY_MESSAGE_CHARS < *remaining {
                    MAX_HISTORY_MESSAGE_CHARS
                } else {
                    *remaining
                };
                let bounded = truncate_chars(text.as_str(), limit);
                let used = bounded.as_str().unicode_len();
                proof {
                    lemma_truncate_len(text@, limit as int);
                }
                *remaining = *remaining - used;
                let ghost before = kept@;
                kept.push(text_block(bounded));
                proof {
                    assert(kept@.map_values(|b: ContentBlock| block_text(b)) =~= before.map_values(
                        |b: ContentBlock| block_text(b),
                    ).push(block_text(kept@.last())));
                }
            },
            _ => {},
        }
        i = i + 1;
    }
    proof {
        assert(views.take(blocks@.len() as int) =~= views);
    }
    kept
}

/// The history replayed to the model: at most the `MAX_HISTORY_MESSAGES`
/// most recent messages and `MAX_HISTORY_TOTAL_CHARS` characters, each text
/// block cut to `MAX_HISTORY_MESSAGE_CHARS`; tool blocks are left out (the
/// harness replays them), and so is a message left without text.
pub fn bounded_text_history(history: &[Message]) -> (bounded: Vec<Message>)
    ensures
        messages_view(bounded@) == bounded_history(messages_view(history@)),
{
    let ghost all = messages_view(history@);
    let ghost newest_first = all.reverse();
    let len = history.len();
    let count = if MAX_HISTORY_MESSAGES < len {
        MAX_HISTORY_MESSAGES
    } else {
        len
    };
    let mut newest: Vec<Message> = Vec::new();
    let mut remaining: usize = MAX_HISTORY_TOTAL_CHARS;
    let mut i: usize = 0;
    while i < count
        invariant
            0 <= i <= count <= len,
            len == history@.len(),
            all == messages_view(history@),
            newest_first == all.reverse(),
            ({
                let (out, left) = bound_messages(newest_first, i as int);
                &&& messages_view(newest@) == out
                &&& remaining == left
            }),
        ensures
            messages_view(newest@) == bound_messages(newest_first, count as int).0,
        decreases count - i,
    {
        proof {
            lemma_bound_messages_left(newest_first, i as int);
        }
        if remaining == 0 {
            proof {
                assert forall|k: int| i <= k <= count implies bound_messages(newest_first, k)
                    == bound_messages(newest_first, i as int) by {
                    lemma_stays_exhausted(newest_first, i as int, k);
                }
                assert(bound_messages(newest_first, count as int) == bound_messages(
                    newest_first,
                    i as int,
                ));
            }
            break;
        }
        let message = &history[len - 1 - i];
        proof {
            assert(newest_first[i as int] == all[len - 1 - i]);
            assert(all[len - 1 - i] == message_view(*message));
        }
        let blocks = bound_message_blocks(&message.content, &mut remaining);
        if blocks.len() > 0 {
            let ghost before = newest@;
            newest.push(Message { role: message.role, content: blocks });
            proof {
                assert(messages_view(newest@) =~= messages_view(before).push(
                    message_view(newest@.last()),
                ));
            }
        } else {
            proof {
                assert(blocks@.map_values(|b: ContentBlock| block_text(b)).len() == 0);
            }
        }
        i = i + 1;
    }
    let ghost result = bound_messages(newest_first, count as int);
    proof {
        assert(messages_view(newest@) == result.0);
    }
    let ghost newest_all = newest@;
    let mut bounded: Vec<Message> = Vec::new();
    while newest.len() > 0
        invariant
            newest@.len() <= newest_all.len(),
            newest@ == newest_all.take(newest@.len() as int),
            messages_view(bounded@) == messages_view(newest_all).subrange(
                newest@.len() as int,
                newest_all.len() as int,
            ).reverse(),
        decreases newest@.len(),
    {
        let ghost n = newest@.len() as int;
        let ghost before = bounded@;
        let m = newest.pop().unwrap();
        proof {
            assert(m == newest_all[n - 1]);
            assert(newest@ =~= newest_all.take(n - 1));
        }
        bounded.push(m);
        proof {
            let s = messages_view(newest_all);
            assert(messages_view(bounded@) =~= messages_view(before).push(message_view(m)));
            assert(s.subrange(n - 1, s.len() as int).reverse() =~= s.subrange(
                n,
                s.len() as int,
            ).reverse().push(s[n - 1]));
        }
    }
    proof {
        let s = messages_view(newest_all);
        assert(s.subrange(0, s.len() as int) =~= s);
        assert(all.reverse() =~= newest_first);
    }
    bounded
}

proof fn lemma_stays_exhausted(
    newest_first: Seq<(MessageRole, Seq<Option<Seq<char>>>)>,
    i: int,
    k: int,
)
    requires
        0 <= i <= k,
        bound_messages(newest_first, i).1 == 0,
    ensures
        bound_messages(newest_first, k) == bound_messages(newest_first, i),
    decreases k - i,
{
    if k > i {
        lemma_stays_exhausted(newest_first, i, k - 1);
    }
}

impl Message {
    /// A system message with one text block.
    pub fn system(text: String) -> (message: Self)
        ensures
            message_view(message) == (MessageRole::System, seq![Some(text@)]),
            message.role == MessageRole::System,
            message.content@ == seq![ContentBlock::Text { text }],
    {
        Message::with_text(MessageRole::System, text)
    }

    /// A user message with one text block.
    pub fn user(text: String) -> (message: Self)
        ensures
            message_view(message) == (MessageRole::User, seq![Some(text@)]),
            message.role == MessageRole::User,
            message.content@ == seq![ContentBlock::Text { text }],
    {
        Message::with_text(MessageRole::User, text)
    }

    /// An assistant message with one text block.
    pub fn assistant(text: String) -> (message: Self)
        ensures
            message_view(message) == (MessageRole::Assistant, seq![Some(text@)]),
            message.role == MessageRole::Assistant,
            message.content@ == seq![ContentBlock::Text { text }],
    {
        Message::with_text(MessageRole::Assistant, text)
    }

    /// A tool message carrying the result of call `tool_use_id`.
    pub fn tool_result(tool_use_id: String, content: String, is_error: bool) -> (message: Self)
        ensures
            message.role == MessageRole::Tool,
            message.content@.len() == 1,
            message.content@[0] == (ContentBlock::ToolResult { tool_use_id, content, is_error }),
    {
        let mut blocks: Vec<ContentBlock> = Vec::new();
        blocks.push(ContentBlock::ToolResult { tool_use_id, content, is_error });
        Message { role: MessageRole::Tool, content: blocks }
    }

    fn with_text(role: MessageRole, text: String) -> (message: Self)
        ensures
            message_view(message) == (role, seq![Some(text@)]),
            message.role == role,
            message.content@ == seq![ContentBlock::Text { text }],
    {
        let ghost original = text;
        let mut blocks: Vec<ContentBlock> = Vec::new();
        blocks.push(text_block(text));
        let message = Message { role, content: blocks };
        proof {
            assert(message.content@ =~= seq![ContentBlock::Text { text: original }]);
            assert(message.content@.map_values(|b: ContentBlock| block_text(b)) =~= seq![
                Some(text@),
            ]);
        }
        message
    }
}

/// A copy of `block` with the same view.
fn copy_block(block: &ContentBlock) -> (copy: ContentBlock)
    ensures
        block_text(copy) == block_text(*block),
{
    match block {
        ContentBlock::Text { text } => ContentBlock::Text { text: text.clone() },
        ContentBlock::ToolUse { id, name, input } => ContentBlock::ToolUse {
            id: id.clone(),
            name: name.clone(),
            input: input.clone(),
        },
        ContentBlock::ToolResult { tool_use_id, content, is_error } => ContentBlock::ToolResult {
            tool_use_id: tool_use_id.clone(),
            content: content.clone(),
            is_error: *is_error,
        },
    }
}

/// A copy of `message` with the same view.
fn copy_message(message: &Message) -> (copy: Message)
    ensures
        message_view(copy) == message_view(*message),
{
    let mut blocks: Vec<ContentBlock> = Vec::new();
    let mut i: usize = 0;
    while i < message.content.len()
        invariant
            0 <= i <= message.content@.len(),
            blocks@.map_values(|b: ContentBlock| block_text(b)) == message.content@.take(
                i as int,
            ).map_values(|b: ContentBlock| block_text(b)),
        decreases message.content@.len() - i,
    {
        let ghost before = blocks@;
        blocks.push(copy_block(&message.content[i]));
        proof {
            assert(message.content@.take(i + 1) =~= message.content@.take(i as int).push(
                message.content@[i as int],
            ));
            assert(blocks@ =~= before.push(blocks@.last()));
            assert(block_text(blocks@.last()) == block_text(message.content@[i as int]));
            assert(blocks@.map_values(|b: ContentBlock| block_text(b)) =~= before.map_values(
                |b: ContentBlock| block_text(b),
            ).push(block_text(blocks@.last())));
            assert(message.content@.take(i + 1).map_values(|b: ContentBlock| block_text(b))
                =~= message.content@.take(i as int).map_values(|b: ContentBlock| block_text(b)).push(
                block_text(message.content@[i as int]),
            ));
        }
        i = i + 1;
    }
    proof {
        assert(message.content@.take(message.content@.len() as int) =~= message.content@);
    }
    Message { role: message.role, content: blocks }
}

/// The messages of a model request: the current system prefix, the whole
/// history as given, then the effective user message.
pub fn build_request_messages(
    system_prompt: String,
    history: &[Message],
    effective_user_message: String,
) -> (messages: Vec<Message>)
    ensures
        messages_view(messages@) == seq![(MessageRole::System, seq![Some(system_prompt@)])]
            + messages_view(history@) + seq![
            (MessageRole::User, seq![Some(effective_user_message@)]),
        ],
{
    let ghost system_view = (MessageRole::System, seq![Some(system_prompt@)]);
    let ghost user_view = (MessageRole::User, seq![Some(effective_user_message@)]);
    let mut messages: Vec<Message> = Vec::new();
    messages.push(Message::system(system_prompt));
    let mut i: usize = 0;
    while i < history.len()
        invariant
            0 <= i <= history@.len(),
            messages_view(messages@) == seq![system_view] + messages_view(history@.take(i as int)),
        decreases history@.len() - i,
    {
        let ghost before = messages@;
        messages.push(copy_message(&history[i]));
        proof {
            assert(history@.take(i + 1) =~= history@.take(i as int).push(history@[i as int]));
            assert(messages@ =~= before.push(messages@.last()));
            assert(message_view(messages@.last()) == message_view(history@[i as int]));
            assert(messages_view(messages@) =~= messages_view(before).push(
                message_view(messages@.last()),
            ));
            assert(messages_view(history@.take(i + 1)) =~= messages_view(history@.take(i as int)).push(
                message_view(history@[i as int]),
            ));
            assert(messages_view(messages@) =~= seq![system_view] + messages_view(
                history@.take(i + 1),
            ));
        }
        i = i + 1;
    }
    let ghost before = messages@;
    messages.push(Message::user(effective_user_message));
    proof {
        assert(history@.take(history@.len() as int) =~= history@);
        assert(messages@ =~= before.push(messages@.last()));
        assert(messages_view(messages@) =~= seq![system_view] + messages_view(history@) + seq![
            user_view,
        ]);
    }
    messages
}

/// Characters held by the text blocks of `blocks`.
pub open spec fn block_chars(blocks: Seq<Option<Seq<char>>>) -> int
    decreases blocks.len(),
{
    if blocks.len() == 0 {
        0
    } else {
        block_chars(blocks.drop_last()) + match blocks.last() {
            Some(text) => text.len() as int,
            None => 0,
        }
    }
}

/// Characters held by the text blocks of `messages`.
pub open spec fn history_chars(messages: Seq<(MessageRole, Seq<Option<Seq<char>>>)>) -> int
    decreases messages.len(),
{
    if messages.len() == 0 {
        0
    } else {
        history_chars(messages.drop_last()) + block_chars(messages.last().1)
    }
}

/// The block is text of at most `MAX_HISTORY_MESSAGE_CHARS` characters.
pub open spec fn short_text(block: Option<Seq<char>>) -> bool {
    match block {
        Some(text) => text.len() <= MAX_HISTORY_MESSAGE_CHARS,
        None => false,
    }
}

/// Every block of `messages` is text of at most `MAX_HISTORY_MESSAGE_CHARS`.
pub open spec fn blocks_bounded(messages: Seq<(MessageRole, Seq<Option<Seq<char>>>)>) -> bool {
    forall|m: int, b: int|
        0 <= m < messages.len() && 0 <= b < messages[m].1.len() ==> short_text(
            #[trigger] messages[m].1[b],
        )
}

proof fn lemma_bound_blocks_sum(blocks: Seq<Option<Seq<char>>>, remaining: int)
    requires
        remaining >= 0,
    ensures
        block_chars(bound_blocks(blocks, remaining).0) == remaining - bound_blocks(
            blocks,
            remaining,
        ).1,
        forall|b: int|
            0 <= b < bound_blocks(blocks, remaining).0.len() ==> short_text(
                #[trigger] bound_blocks(blocks, remaining).0[b],
            ),
    decreases blocks.len(),
{
    if blocks.len() > 0 {
        lemma_bound_blocks_sum(blocks.drop_last(), remaining);
        lemma_bound_blocks_left(blocks.drop_last(), remaining);
        let (out, left) = bound_blocks(blocks.drop_last(), remaining);
        match blocks.last() {
            Some(text) => {
                let limit = min_int(MAX_HISTORY_MESSAGE_CHARS as int, left);
                lemma_truncate_len(text, limit);
                let kept = spec_truncate_chars(text, limit);
                assert(out.push(Some(kept)).drop_last() =~= out);
            },
            None => {},
        }
    }
}

proof fn lemma_bound_messages_sum(newest_first: Seq<(MessageRole, Seq<Option<Seq<char>>>)>, n: int)
    requires
        0 <= n <= newest_first.len(),
    ensures
        history_chars(bound_messages(newest_first, n).0) == MAX_HISTORY_TOTAL_CHARS - bound_messages(
            newest_first,
            n,
        ).1,
        bound_messages(newest_first, n).0.len() <= n,
        blocks_bounded(bound_messages(newest_first, n).0),
    decreases n,
{
    if n > 0 {
        lemma_bound_messages_sum(newest_first, n - 1);
        lemma_bound_messages_left(newest_first, n - 1);
        let (out, left) = bound_messages(newest_first, n - 1);
        if left != 0 {
            lemma_bound_blocks_sum(newest_first[n - 1].1, left);
            let (blocks, after) = bound_blocks(newest_first[n - 1].1, left);
            if blocks.len() > 0 {
                let pushed = out.push((newest_first[n - 1].0, blocks));
                assert(pushed.drop_last() =~= out);
                assert forall|m: int, b: int|
                    0 <= m < pushed.len() && 0 <= b < pushed[m].1.len() implies short_text(
                    #[trigger] pushed[m].1[b],
                ) by {
                    if m < out.len() {
                        assert(pushed[m] == out[m]);
                    }
                }
            } else {
                assert(block_chars(blocks) == 0);
            }
        }
    }
}

proof fn lemma_history_chars_first(s: Seq<(MessageRole, Seq<Option<Seq<char>>>)>)
    requires
        s.len() > 0,
    ensures
        history_chars(s) == block_chars(s[0].1) + history_chars(s.drop_first()),
    decreases s.len(),
{
    if s.len() > 1 {
        lemma_history_chars_first(s.drop_last());
        assert(s.drop_last()[0] == s[0]);
        assert(s.drop_last().drop_first() =~= s.drop_first().drop_last());
        assert(s.drop_first().last() == s.last());
        assert(history_chars(s) == history_chars(s.drop_last()) + block_chars(s.last().1));
        assert(history_chars(s.drop_first()) == history_chars(s.drop_first().drop_last())
            + block_chars(s.drop_first().last().1));
        assert(history_chars(s.drop_first().drop_last()) == history_chars(
            s.drop_last().drop_first(),
        ));
    } else {
        assert(s.drop_first().len() == 0);
        assert(s.drop_last().len() == 0);
        assert(s.last() == s[0]);
        assert(history_chars(s.drop_first()) == 0);
        assert(history_chars(s.drop_last()) == 0);
        assert(history_chars(s) == history_chars(s.drop_last()) + block_chars(s.last().1));
    }
}

proof fn lemma_history_chars_reverse(s: Seq<(MessageRole, Seq<Option<Seq<char>>>)>)
    ensures
        history_chars(s.reverse()) == history_chars(s),
    decreases s.len(),
{
    if s.len() > 0 {
        lemma_history_chars_reverse(s.drop_first());
        let r = s.reverse();
        assert(r.drop_last() =~= s.drop_first().reverse());
        assert(r.last() == s[0]);
        lemma_history_chars_first(s);
    }
}

/// The replayed history is bounded: at most `MAX_HISTORY_MESSAGES`
/// messages, only text blocks, each at most `MAX_HISTORY_MESSAGE_CHARS`
/// characters, and at most `MAX_HISTORY_TOTAL_CHARS` characters in all.
pub proof fn law_history_bounded(history: Seq<(MessageRole, Seq<Option<Seq<char>>>)>)
    ensures
        bounded_history(history).len() <= MAX_HISTORY_MESSAGES,
        blocks_bounded(bounded_history(history)),
        history_chars(bounded_history(history)) <= MAX_HISTORY_TOTAL_CHARS,
{
    let newest_first = history.reverse();
    let n = min_int(MAX_HISTORY_MESSAGES as int, history.len() as int);
    lemma_bound_messages_sum(newest_first, n);
    lemma_bound_messages_left(newest_first, n);
    let out = bound_messages(newest_first, n).0;
    lemma_history_chars_reverse(out);
    let r = out.reverse();
    assert forall|m: int, b: int| 0 <= m < r.len() && 0 <= b < r[m].1.len() implies short_text(
        #[trigger] r[m].1[b],
    ) by {
        assert(r[m] == out[out.len() - 1 - m]);
    }
}

} // verus!
