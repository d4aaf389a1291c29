//! Tool call/result normalization before persistence.
//!
//! Every tool result in a batch of turn items must have a matching tool
//! call, so that replaying history never shows the model an unpaired
//! result. Orphan results are replaced by a system notice that keeps the
//! orphaned data.

use vstd::prelude::*;
use vstd::string::StringExecFns;

verus! {

/// A persisted item of a turn.
#[derive(Debug, Clone)]
pub enum ItemPayload {
    UserMessage { content: String },
    AssistantMessage { content: String },
    ToolCall { call_id: String, name: String, input: String },
    ToolResult {
        call_id: String,
        content: String,
        is_error: bool,
        permit_id: Option<String>,
        audit_id: Option<String>,
    },
    SystemNotice { content: String },
    ContextProjection {
        space: String,
        broadcast_epoch: Option<u64>,
        workspace_version: Option<u64>,
        dasein_version: u64,
        content_ids: Vec<String>,
    },
}

/// The call id of a tool call item.
pub open spec fn call_id_of(item: ItemPayload) -> Option<Seq<char>> {
    match item {
        ItemPayload::ToolCall { call_id, .. } => Some(call_id@),
        _ => None,
    }
}

/// Call id, error flag and content of a tool result item.
pub open spec fn result_of(item: ItemPayload) -> Option<(Seq<char>, bool, Seq<char>)> {
    match item {
        ItemPayload::ToolResult { call_id, content, is_error, .. } => Some(
            (call_id@, is_error, content@),
        ),
        _ => None,
    }
}

/// The content of a system notice item.
pub open spec fn notice_of(item: ItemPayload) -> Option<Seq<char>> {
    match item {
        ItemPayload::SystemNotice { content } => Some(content@),
        _ => None,
    }
}

/// Ids of the tool calls among `items`.
pub open spec fn tool_call_ids(items: Seq<ItemPayload>) -> Set<Seq<char>> {
    Set::new(
        |id: Seq<char>|
            exists|i: int| 0 <= i < items.len() && #[trigger] call_id_of(items[i]) == Some(id),
    )
}

/// A tool result whose call is not among `ids`.
pub open spec fn is_orphan(item: ItemPayload, ids: Set<Seq<char>>) -> bool {
    match result_of(item) {
        Some((call_id, _, _)) => !ids.contains(call_id),
        None => false,
    }
}

/// The notice replacing an orphan result item.
pub open spec fn orphan_notice_of(item: ItemPayload) -> Seq<char> {
    let (call_id, is_error, content) = result_of(item).unwrap();
    orphan_notice(call_id, is_error, content)
}

/// The boolean as printed.
pub open spec fn bool_text(b: bool) -> Seq<char> {
    if b {
        "true"@
    } else {
        "false"@
    }
}

/// The notice that replaces an orphan result.
pub open spec fn orphan_notice(call_id: Seq<char>, is_error: bool, content: Seq<char>) -> Seq<char> {
    "Orphan tool result (call_id="@ + call_id + ", is_error="@ + bool_text(is_error) + "): "@
        + content
}

/// `out` is `items` with every orphan result replaced, in place, by the
/// notice recording it, and every other item kept.
pub open spec fn pairs_normalized(items: Seq<ItemPayload>, out: Seq<ItemPayload>) -> bool {
    &&& out.len() == items.len()
    &&& forall|i: int|
        0 <= i < items.len() ==> if is_orphan(items[i], tool_call_ids(items)) {
            notice_of(#[trigger] out[i]) == Some(orphan_notice_of(items[i]))
        } else {
            out[i] == items[i]
        }
}

/// After normalization no tool result is left without its tool call: the
/// model never sees an unpaired result.
pub proof fn law_no_orphan_after_normalize(items: Seq<ItemPayload>, out: Seq<ItemPayload>)
    requires
        pairs_normalized(items, out),
    ensures
        forall|i: int| 0 <= i < out.len() ==> !is_orphan(#[trigger] out[i], tool_call_ids(out)),
{
    assert forall|i: int| 0 <= i < out.len() implies !is_orphan(#[trigger] out[i], tool_call_ids(out)) by {
        if is_orphan(items[i], tool_call_ids(items)) {
            assert(notice_of(out[i]) is Some);
        } else {
            assert(out[i] == items[i]);
            match result_of(items[i]) {
                Some((call_id, _, _)) => {
                    assert(tool_call_ids(items).contains(call_id));
                    let j = choose|j: int|
                        0 <= j < items.len() && #[trigger] call_id_of(items[j]) == Some(call_id);
                    assert(!is_orphan(items[j], tool_call_ids(items)));
                    assert(out[j] == items[j]);
                    assert(call_id_of(out[j]) == Some(call_id));
                    assert(tool_call_ids(out).contains(call_id));
                },
                None => {},
            }
        }
    }
}

/// Result of normalizing a batch of turn items.
#[derive(Debug, Clone)]
pub struct NormalizedItems {
    /// The items ready for persistence.
    pub items: Vec<ItemPayload>,
    /// How many orphan results were replaced.
    pub orphan_results: usize,
}

fn orphan_text(call_id: &String, is_error: bool, content: &String) -> (text: String)
    ensures
        text@ == orphan_notice(call_id@, is_error, content@),
{
    let mut text = "Orphan tool result (call_id=".to_owned();
    text.append(call_id.as_str());
    text.append(", is_error=");
    text.append(if is_error {
        "true"
    } else {
        "false"
    });
    text.append("): ");
    text.append(content.as_str());
    text
}

fn contains_text(ids: &Vec<String>, id: &String) -> (found: bool)
    ensures
        found == exists|j: int| 0 <= j < ids@.len() && (#[trigger] ids@[j])@ == id@,
{
    let mut j: usize = 0;
    while j < ids.len()
        invariant
            0 <= j <= ids@.len(),
            forall|k: int| 0 <= k < j ==> (#[trigger] ids@[k])@ != id@,
        decreases ids@.len() - j,
    {
        if ids[j] == *id {
            return true;
        }
        j = j + 1;
    }
    false
}

/// Replaces every tool result without a matching tool call by a system
/// notice recording it; every other item is kept as it is, in place.
#[verifier::spinoff_prover]
pub fn normalize_tool_pairs(items: Vec<ItemPayload>) -> (normalized: NormalizedItems)
    ensures
        pairs_normalized(items@, normalized.items@),
        normalized.orphan_results == items@.filter(
            |item: ItemPayload| is_orphan(item, tool_call_ids(items@)),
        ).len(),
{
    let ghost original = items@;
    let total = items.len();
    assert(original.len() == total);
    let ghost ids_set = tool_call_ids(original);
    let ghost orphan = |item: ItemPayload| is_orphan(item, ids_set);
    let mut ids: Vec<String> = Vec::new();
    let mut i: usize = 0;
    while i < items.len()
        invariant
            items@ == original,
            0 <= i <= items@.len(),
            forall|j: int|
                0 <= j < ids@.len() ==> exists|k: int|
                    0 <= k < i && #[trigger] call_id_of(original[k]) == Some((#[trigger] ids@[j])@),
            forall|k: int|
                0 <= k < i && (#[trigger] call_id_of(original[k])) is Some ==> exists|j: int|
                    0 <= j < ids@.len() && Some((#[trigger] ids@[j])@) == call_id_of(original[k]),
        decreases items@.len() - i,
    {
        let ghost old_ids = ids@;
        match &items[i] {
            ItemPayload::ToolCall { call_id, .. } => {
                let id = call_id.clone();
                ids.push(id);
                proof {
                    let last = ids@.len() - 1;
                    assert(ids@[last]@ == call_id@);
                    assert(call_id_of(original[i as int]) == Some(ids@[last]@));
                    assert forall|j: int| 0 <= j < ids@.len() implies exists|k: int|
                        0 <= k < i + 1 && #[trigger] call_id_of(original[k]) == Some(
                            (#[trigger] ids@[j])@,
                        ) by {
                        if j < last {
                            assert(ids@[j] == old_ids[j]);
                            let k = choose|k: int|
                                0 <= k < i && #[trigger] call_id_of(original[k]) == Some(
                                    old_ids[j]@,
                                );
                            assert(call_id_of(original[k]) == Some(ids@[j]@));
                        } else {
                            assert(call_id_of(original[i as int]) == Some(ids@[j]@));
                        }
                    }
                    assert forall|k: int|
                        0 <= k < i + 1 && (#[trigger] call_id_of(original[k])) is Some implies exists|j: int|
                        0 <= j < ids@.len() && Some((#[trigger] ids@[j])@) == call_id_of(
                            original[k],
                        ) by {
                        if k < i {
                            let j = choose|j: int|
                                0 <= j < old_ids.len() && Some((#[trigger] old_ids[j])@)
                                    == call_id_of(original[k]);
                            assert(ids@[j] == old_ids[j]);
                        } else {
                            assert(Some(ids@[last]@) == call_id_of(original[k]));
                        }
                    }
                }
            },
            _ => {
                proof {
                    assert(call_id_of(original[i as int]) is None);
                }
            },
        }
        i = i + 1;
    }
    proof {
        assert forall|id: Seq<char>| ids_set.contains(id) <==> exists|j: int|
            0 <= j < ids@.len() && (#[trigger] ids@[j])@ == id by {
            if ids_set.contains(id) {
                let k = choose|k: int|
                    0 <= k < original.len() && #[trigger] call_id_of(original[k]) == Some(id);
                assert(call_id_of(original[k]) is Some);
                let j = choose|j: int|
                    0 <= j < ids@.len() && Some((#[trigger] ids@[j])@) == call_id_of(original[k]);
                assert(ids@[j]@ == id);
            }
            if exists|j: int| 0 <= j < ids@.len() && (#[trigger] ids@[j])@ == id {
                let j = choose|j: int| 0 <= j < ids@.len() && (#[trigger] ids@[j])@ == id;
                let k = choose|k: int|
                    0 <= k < i && #[trigger] call_id_of(original[k]) == Some(ids@[j]@);
                assert(call_id_of(original[k]) == Some(id));
            }
        }
    }
    // Reverse the batch so that popping yields the items in order.
    let mut rest = items;
    let mut reversed: Vec<ItemPayload> = Vec::new();
    while rest.len() > 0
        invariant
            rest@ + reversed@.reverse() == original,
        decreases rest@.len(),
    {
        let ghost before_rest = rest@;
        let ghost before_rev = reversed@;
        let item = rest.pop().unwrap();
        reversed.push(item);
        proof {
            assert(before_rest =~= rest@.push(item));
            assert(reversed@.reverse() =~= seq![item] + before_rev.reverse());
            assert(rest@ + reversed@.reverse() =~= before_rest + before_rev.reverse());
        }
    }
    let mut out: Vec<ItemPayload> = Vec::new();
    let mut orphans: usize = 0;
    while reversed.len() > 0
        invariant
            reversed@.reverse() == original.subrange(out@.len() as int, original.len() as int),
            out@.len() <= original.len(),
            original.len() <= usize::MAX,
            forall|id: Seq<char>| ids_set.contains(id) <==> exists|j: int|
                0 <= j < ids@.len() && (#[trigger] ids@[j])@ == id,
            ids_set == tool_call_ids(original),
            orphan == (|item: ItemPayload| is_orphan(item, ids_set)),
            orphans == original.take(out@.len() as int).filter(orphan).len(),
            orphans <= out@.len(),
            forall|k: int|
                0 <= k < out@.len() ==> if is_orphan(original[k], ids_set) {
                    notice_of(#[trigger] out@[k]) == Some(orphan_notice_of(original[k]))
                } else {
                    out@[k] == original[k]
                },
        decreases reversed@.len(),
    {
        let ghost n: int = out@.len() as int;
        let ghost before_rev = reversed@;
        let item = reversed.pop().unwrap();
        proof {
            assert(before_rev =~= reversed@.push(item));
            assert(before_rev.reverse() =~= seq![item] + reversed@.reverse());
            assert(original.subrange(n, original.len() as int)[0] == original[n]);
            assert(item == original[n]);
            assert(original.subrange(n, original.len() as int) =~= seq![item]
                + reversed@.reverse());
            assert(reversed@.reverse() =~= original.subrange(n, original.len() as int).subrange(
                1,
                original.len() - n,
            ));
            assert(reversed@.reverse() =~= original.subrange(n + 1, original.len() as int));
        }
        let replaced = match &item {
            ItemPayload::ToolResult { call_id, content, is_error, .. } => {
                if !contains_text(&ids, call_id) {
                    Some(orphan_text(call_id, *is_error, content))
                } else {
                    None
                }
            },
            _ => None,
        };
        proof {
            reveal(Seq::filter);
            assert(original.take(n + 1).drop_last() =~= original.take(n));
            assert(original.take(n + 1).last() == original[n]);
        }
        match replaced {
            Some(text) => {
                out.push(ItemPayload::SystemNotice { content: text });
                orphans = orphans + 1;
            },
            None => {
                out.push(item);
            },
        }
    }
    proof {
        assert(original.subrange(out@.len() as int, original.len() as int).len() == 0);
        assert(original.take(original.len() as int) =~= original);
    }
    NormalizedItems { items: out, orphan_results: orphans }
}

/// Number of leading items that may be evicted safely before `keep_from`.
/// Items are projected to messages before the message-level cut is
/// computed, so this adapter keeps the boundary it is given.
pub fn safe_tool_tail_cut(items: &[ItemPayload], keep_from: usize) -> (cut: usize)
    ensures
        cut == keep_from,
{
    keep_from
}

} // verus!
