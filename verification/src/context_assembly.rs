//! Deterministic, bounded assembly of a turn's context once its sources
//! were loaded: injected fragments, the user's input, the replayed history
//! and the system prefix.

use vstd::prelude::*;
use vstd::string::{StrSliceExecFns, StringExecFns};
use crate::history::{
    bounded_history, bounded_text_history, build_request_messages, messages_view, Message,
    MessageRole,
};
use crate::text::{chars_of, take_at_most, truncate};

verus! {

broadcast use vstd::string::group_string_axioms;

/// Characters of one injected fragment at most.
pub const MAX_FRAGMENT_CHARS: usize = 16 * 1024;

/// Characters injected before the user's input at most.
pub const MAX_INJECTED_CHARS: usize = 48 * 1024;

/// Characters of the system prefix at most.
pub const MAX_SYSTEM_PREFIX_CHARS: usize = 128 * 1024;

/// Unicode white space (the `White_Space` property that `char::is_whitespace`
/// tests).
pub open spec fn is_white_space(c: char) -> bool {
    let u = c as u32;
    (0x9 <= u <= 0xd) || u == 0x20 || u == 0x85 || u == 0xa0 || u == 0x1680 || (0x2000 <= u
        <= 0x200a) || u == 0x2028 || u == 0x2029 || u == 0x202f || u == 0x205f || u == 0x3000
}

/// Whether `s` is empty once white space is trimmed.
pub open spec fn is_blank(s: Seq<char>) -> bool {
    forall|i: int| 0 <= i < s.len() ==> is_white_space(#[trigger] s[i])
}

pub(crate) fn white_space(c: char) -> (ws: bool)
    ensures
        ws == is_white_space(c),
{
    let u = c as u32;
    (0x9 <= u && u <= 0xd) || u == 0x20 || u == 0x85 || u == 0xa0 || u == 0x1680 || (0x2000 <= u
        && u <= 0x200a) || u == 0x2028 || u == 0x2029 || u == 0x202f || u == 0x205f || u == 0x3000
}

/// Whether `value` holds nothing but white space.
pub fn blank(value: &str) -> (b: bool)
    ensures
        b == is_blank(value@),
{
    let chars = chars_of(value);
    let mut i: usize = 0;
    while i < chars.len()
        invariant
            chars@ == value@,
            0 <= i <= chars@.len(),
            forall|k: int| 0 <= k < i ==> is_white_space(#[trigger] value@[k]),
        decreases chars@.len() - i,
    {
        if !white_space(chars[i]) {
            return false;
        }
        i = i + 1;
    }
    true
}

/// `<label>`, the bounded value and `</label>`, each on its own line.
pub open spec fn tagged(label: Seq<char>, value: Seq<char>) -> Seq<char> {
    "<"@ + label + ">\n"@ + value + "\n</"@ + label + ">\n"@
}

/// `output` with `value` injected under `label` (within `MAX_FRAGMENT_CHARS`
/// and what is left of `remaining`), and what is left. A blank value, or
/// one that comes when nothing is left, is not injected.
pub open spec fn with_fragment(output: Seq<char>, label: Seq<char>, value: Seq<char>, remaining: int) -> (
    Seq<char>,
    int,
) {
    if is_blank(value) || remaining == 0 {
        (output, remaining)
    } else {
        let bounded = take_at_most(
            value,
            if MAX_FRAGMENT_CHARS < remaining {
                MAX_FRAGMENT_CHARS as int
            } else {
                remaining
            },
        );
        (output + tagged(label, bounded), remaining - bounded.len())
    }
}

/// Injects `value` under `label` into `output` (see `with_fragment`).
pub fn append_fragment(output: &mut String, label: &str, value: &str, remaining: &mut usize)
    ensures
        (final(output)@, *final(remaining) as int) == with_fragment(
            old(output)@,
            label@,
            value@,
            *old(remaining) as int,
        ),
{
    if blank(value) || *remaining == 0 {
        return;
    }
    let limit = if MAX_FRAGMENT_CHARS < *remaining {
        MAX_FRAGMENT_CHARS
    } else {
        *remaining
    };
    let bounded = truncate(value, limit);
    let used = bounded.as_str().unicode_len();
    *remaining = *remaining - used;
    let ghost before = output@;
    output.append("<");
    output.append(label);
    output.append(">\n");
    output.append(bounded.as_str());
    output.append("\n</");
    output.append(label);
    output.append(">\n");
    proof {
        assert(output@ =~= before + tagged(label@, bounded@));
    }
}

/// The user message of a turn: the conscious context and the skills
/// injected as fragments within `MAX_INJECTED_CHARS`, a line break when
/// anything was injected, then the input.
pub open spec fn effective_message(conscious: Seq<char>, skills: Seq<char>, input: Seq<char>) -> Seq<
    char,
> {
    let (first, left) = with_fragment(
        Seq::empty(),
        "conscious-context"@,
        conscious,
        MAX_INJECTED_CHARS as int,
    );
    let (both, _) = with_fragment(first, "skills"@, skills, left);
    if both.len() == 0 {
        input
    } else {
        both.push('\n') + input
    }
}

/// The assembled context of a turn.
pub struct AssembledContext {
    pub messages: Vec<Message>,
    pub effective_user_message: String,
}

/// Assembles a turn's context from its loaded sources: the bounded
/// system prefix, the bounded history and the effective user message
/// (see `effective_message`).
pub fn assemble_context(
    system_prefix: &str,
    conscious: Option<&str>,
    skills: &str,
    input: &str,
    canonical_history: &[Message],
) -> (assembled: AssembledContext)
    ensures
        ({
            let conscious_text = match conscious {
                Some(c) => c@,
                None => Seq::<char>::empty(),
            };
            let effective = effective_message(conscious_text, skills@, input@);
            &&& assembled.effective_user_message@ == effective
            &&& messages_view(assembled.messages@) == seq![
                (
                    MessageRole::System,
                    seq![Some(take_at_most(system_prefix@, MAX_SYSTEM_PREFIX_CHARS as int))],
                ),
            ] + bounded_history(messages_view(canonical_history@)) + seq![
                (MessageRole::User, seq![Some(effective)]),
            ]
        }),
{
    proof {
        reveal_strlit("");
        reveal_strlit("\n");
    }
    let conscious_text = match conscious {
        Some(c) => c,
        None => "",
    };
    let mut effective = String::new();
    let mut remaining = MAX_INJECTED_CHARS;
    append_fragment(&mut effective, "conscious-context", conscious_text, &mut remaining);
    append_fragment(&mut effective, "skills", skills, &mut remaining);
    if effective.as_str().unicode_len() > 0 {
        effective.append("\n");
    }
    effective.append(input);
    let history = bounded_text_history(canonical_history);
    let messages = build_request_messages(
        truncate(system_prefix, MAX_SYSTEM_PREFIX_CHARS),
        history.as_slice(),
        effective.clone(),
    );
    AssembledContext { messages, effective_user_message: effective }
}


/// The skills are injected whether or not a conscious context is: the
/// effective message is the conscious fragment (when the context is not
/// blank), then a non-blank skills text as a `skills` fragment (each within
/// `MAX_FRAGMENT_CHARS`), a line break, and the input.
pub proof fn law_skills_injected_with_or_without_context(
    conscious: Seq<char>,
    skills: Seq<char>,
    input: Seq<char>,
)
    requires
        !is_blank(skills),
    ensures
        effective_message(conscious, skills, input) == (if is_blank(conscious) {
            Seq::<char>::empty()
        } else {
            tagged("conscious-context"@, take_at_most(conscious, MAX_FRAGMENT_CHARS as int))
        }) + tagged("skills"@, take_at_most(skills, MAX_FRAGMENT_CHARS as int)) + "\n"@ + input,
{
    reveal_strlit("\n");
    reveal_strlit("<");
    reveal_strlit(">\n");
    reveal_strlit("\n</");
    let first = if is_blank(conscious) {
        Seq::<char>::empty()
    } else {
        tagged("conscious-context"@, take_at_most(conscious, MAX_FRAGMENT_CHARS as int))
    };
    let skill_part = tagged("skills"@, take_at_most(skills, MAX_FRAGMENT_CHARS as int));
    assert(Seq::<char>::empty() + first == first);
    assert(skill_part.len() > 0);
    assert((first + skill_part).push('\n') + input =~= first + skill_part + "\n"@ + input);
}

} // verus!
