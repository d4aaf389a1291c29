//! What a daemon turn injects into the user's message before the model
//! sees it: activated skills, pending memory updates, and whether (and how)
//! composite memory recall runs.

use vstd::prelude::*;
use vstd::string::{StrSliceExecFns, StringExecFns, StringSliceAdditionalSpecFns};
use vstd::utf8::encode_utf8;
use crate::context_assembly::{blank, is_blank, is_white_space, white_space};
use crate::recall::{append_bounded_text, appended_bounded};
use crate::text::{ascii_lowercase, chars_of, contains_chars, seq_ascii_lowercase, seq_contains};

verus! {

broadcast use vstd::string::group_string_axioms;

/// Characters of one activated skill at most.
pub const MAX_ACTIVATED_SKILL_CHARS: usize = 12 * 1024;

/// Characters of all activated skills of a turn at most.
pub const MAX_ACTIVATED_SKILLS_TOTAL_CHARS: usize = 24 * 1024;

/// The message and the skill allowance left after the first `n` bodies:
/// while anything is left, each body is wrapped in an `activated-skill`
/// element and bounded (see `appended_bounded`).
pub open spec fn with_skills(message: Seq<char>, bodies: Seq<Seq<char>>, n: int) -> (Seq<char>, int)
    decreases n,
{
    if n <= 0 {
        (message, MAX_ACTIVATED_SKILLS_TOTAL_CHARS as int)
    } else {
        let (text, left) = with_skills(message, bodies, n - 1);
        if left == 0 {
            (text, left)
        } else {
            let (bounded, after) = appended_bounded(
                text + "\n<activated-skill>\n"@,
                bodies[n - 1],
                MAX_ACTIVATED_SKILL_CHARS as int,
                left,
            );
            (bounded + "\n</activated-skill>\n"@, after)
        }
    }
}

pub open spec fn texts_of(v: Seq<String>) -> Seq<Seq<char>> {
    v.map_values(|s: String| s@)
}

proof fn lemma_skills_left(message: Seq<char>, bodies: Seq<Seq<char>>, n: int)
    ensures
        0 <= with_skills(message, bodies, n).1 <= MAX_ACTIVATED_SKILLS_TOTAL_CHARS,
    decreases n,
{
    if n > 0 {
        lemma_skills_left(message, bodies, n - 1);
    }
}

/// Appends the matched skill bodies to the turn's message, in order, each
/// within `MAX_ACTIVATED_SKILL_CHARS` and all within
/// `MAX_ACTIVATED_SKILLS_TOTAL_CHARS` (see `with_skills`).
pub fn append_activated_skills(message: &mut String, bodies: &Vec<String>)
    ensures
        final(message)@ == with_skills(old(message)@, texts_of(bodies@), bodies@.len() as int).0,
{
    let ghost start = message@;
    let ghost all = texts_of(bodies@);
    let mut remaining: usize = MAX_ACTIVATED_SKILLS_TOTAL_CHARS;
    let mut i: usize = 0;
    while i < bodies.len()
        invariant
            0 <= i <= bodies@.len(),
            all == texts_of(bodies@),
            (message@, remaining as int) == with_skills(start, all, i as int),
        decreases bodies@.len() - i,
    {
        proof {
            lemma_skills_left(start, all, i as int);
            assert(all[i as int] == bodies@[i as int]@);
        }
        if remaining > 0 {
            message.append("\n<activated-skill>\n");
            append_bounded_text(message, bodies[i].as_str(), MAX_ACTIVATED_SKILL_CHARS, &mut remaining);
            message.append("\n</activated-skill>\n");
        }
        i = i + 1;
    }
}

/// The pending memory updates, one `- ` line each.
pub open spec fn update_lines(updates: Seq<Seq<char>>) -> Seq<char>
    decreases updates.len(),
{
    if updates.len() == 0 {
        Seq::empty()
    } else if updates.len() == 1 {
        "- "@ + updates[0]
    } else {
        update_lines(updates.drop_last()) + "\n- "@ + updates.last()
    }
}

/// The memory-update block of a turn: nothing when no update is pending,
/// otherwise the updates inside a `memory-update` element.
pub open spec fn memory_block(updates: Seq<Seq<char>>) -> Seq<char> {
    if updates.len() == 0 {
        Seq::empty()
    } else {
        "<memory-update>\n"@ + update_lines(updates) + "\n</memory-update>"@
    }
}

/// Renders the pending memory updates (see `memory_block`).
pub fn memory_update_block(updates: &Vec<String>) -> (block: String)
    ensures
        block@ == memory_block(texts_of(updates@)),
{
    let ghost all = texts_of(updates@);
    if updates.len() == 0 {
        return String::new();
    }
    let mut lines = "- ".to_owned();
    lines.append(updates[0].as_str());
    proof {
        assert(all.take(1) =~= seq![all[0]]);
        assert(update_lines(all.take(1)) == "- "@ + all[0]);
    }
    let mut i: usize = 1;
    while i < updates.len()
        invariant
            1 <= i <= updates@.len(),
            all == texts_of(updates@),
            lines@ == update_lines(all.take(i as int)),
        decreases updates@.len() - i,
    {
        lines.append("\n- ");
        lines.append(updates[i].as_str());
        proof {
            assert(all.take(i + 1).drop_last() =~= all.take(i as int));
            assert(all.take(i + 1).last() == all[i as int]);
        }
        i = i + 1;
    }
    proof {
        assert(all.take(updates@.len() as int) =~= all);
    }
    let mut block = "<memory-update>\n".to_owned();
    block.append(lines.as_str());
    block.append("\n</memory-update>");
    block
}

/// `s` without its leading white space.
pub open spec fn trim_start(s: Seq<char>) -> Seq<char>
    decreases s.len(),
{
    if s.len() > 0 && is_white_space(s[0]) {
        trim_start(s.drop_first())
    } else {
        s
    }
}

/// `s` without its trailing white space.
pub open spec fn trim_end(s: Seq<char>) -> Seq<char>
    decreases s.len(),
{
    if s.len() > 0 && is_white_space(s.last()) {
        trim_end(s.drop_last())
    } else {
        s
    }
}

/// Markers that ask recall to include superseded history.
pub open spec fn historical_markers() -> Seq<Seq<char>> {
    seq!["historical"@, "history"@, "superseded"@, "\u{5386}\u{53f2}"@, "\u{65e7}\u{51b3}\u{7b56}"@]
}

/// Whether composite recall runs for `message`, and whether it includes
/// history: it is skipped for a message under eight bytes once trimmed and
/// for a command (starting with `/` after leading white space); history is
/// included when the ASCII-lowercased message mentions a marker.
pub open spec fn recall_plan(message: Seq<char>) -> Option<bool> {
    if encode_utf8(trim_end(trim_start(message))).len() < 8 {
        None
    } else if trim_start(message).len() > 0 && trim_start(message)[0] == '/' {
        None
    } else {
        Some(
            exists|k: int|
                0 <= k < historical_markers().len() && seq_contains(
                    seq_ascii_lowercase(message),
                    #[trigger] historical_markers()[k],
                ),
        )
    }
}

proof fn lemma_trim_start_skip(s: Seq<char>, i: int)
    requires
        0 <= i <= s.len(),
        forall|k: int| 0 <= k < i ==> is_white_space(#[trigger] s[k]),
    ensures
        trim_start(s) == trim_start(s.subrange(i, s.len() as int)),
    decreases i,
{
    if i > 0 {
        assert(s.drop_first().subrange(i - 1, s.drop_first().len() as int) =~= s.subrange(
            i,
            s.len() as int,
        ));
        assert forall|k: int| 0 <= k < i - 1 implies is_white_space(#[trigger] s.drop_first()[k]) by {
            assert(s.drop_first()[k] == s[k + 1]);
        }
        lemma_trim_start_skip(s.drop_first(), i - 1);
    } else {
        assert(s.subrange(0, s.len() as int) =~= s);
    }
}

proof fn lemma_trim_end_skip(s: Seq<char>, j: int)
    requires
        0 <= j <= s.len(),
        forall|k: int| j <= k < s.len() ==> is_white_space(#[trigger] s[k]),
    ensures
        trim_end(s) == trim_end(s.subrange(0, j)),
    decreases s.len() - j,
{
    if j < s.len() {
        assert(s.drop_last().subrange(0, j) =~= s.subrange(0, j));
        assert forall|k: int| j <= k < s.drop_last().len() implies is_white_space(
            #[trigger] s.drop_last()[k],
        ) by {
            assert(s.drop_last()[k] == s[k]);
        }
        assert(is_white_space(s.last()));
        lemma_trim_end_skip(s.drop_last(), j);
    } else {
        assert(s.subrange(0, j) =~= s);
    }
}

/// Decides composite recall for `message` (see `recall_plan`): `None`
/// skips it, `Some(include_historical)` runs it.
pub fn composite_recall_plan(message: &str) -> (plan: Option<bool>)
    ensures
        plan == recall_plan(message@),
{
    proof {
        reveal_strlit("historical");
        reveal_strlit("history");
        reveal_strlit("superseded");
        reveal_strlit("\u{5386}\u{53f2}");
        reveal_strlit("\u{65e7}\u{51b3}\u{7b56}");
    }
    let chars = chars_of(message);
    let len = chars.len();
    let mut start: usize = 0;
    while start < len && white_space(chars[start])
        invariant
            chars@ == message@,
            len == chars@.len(),
            0 <= start <= len,
            forall|k: int| 0 <= k < start ==> is_white_space(#[trigger] message@[k]),
        decreases len - start,
    {
        start = start + 1;
    }
    let ghost rest = message@.subrange(start as int, len as int);
    proof {
        lemma_trim_start_skip(message@, start as int);
        if start < len {
            assert(rest[0] == message@[start as int]);
            assert(!is_white_space(rest[0]));
        }
        assert(trim_start(message@) == rest);
    }
    let mut end: usize = len;
    while end > start && white_space(chars[end - 1])
        invariant
            chars@ == message@,
            len == chars@.len(),
            0 <= start <= end <= len,
            rest == message@.subrange(start as int, len as int),
            forall|k: int| end <= k < len ==> is_white_space(#[trigger] message@[k]),
        decreases end - start,
    {
        end = end - 1;
    }
    proof {
        let t = rest.subrange(0, end - start);
        assert forall|k: int| end - start <= k < rest.len() implies is_white_space(#[trigger] rest[k]) by {
            assert(rest[k] == message@[start + k]);
        }
        lemma_trim_end_skip(rest, end - start);
        if end > start {
            assert(t.last() == message@[end - 1]);
        }
        assert(t =~= message@.subrange(start as int, end as int));
    }
    let trimmed = message.substring_char(start, end);
    if trimmed.as_bytes().len() < 8 {
        return None;
    }
    if start < len && chars[start] == '/' {
        return None;
    }
    let lowered = ascii_lowercase(&chars);
    let markers: [&str; 5] = ["historical", "history", "superseded", "\u{5386}\u{53f2}", "\u{65e7}\u{51b3}\u{7b56}"];
    let ghost all = historical_markers();
    assert(markers@.map_values(|m: &str| m@) =~= all);
    let mut k: usize = 0;
    while k < 5
        invariant
            0 <= k <= 5,
            markers@.map_values(|m: &str| m@) == all,
            all == historical_markers(),
            lowered@ == seq_ascii_lowercase(message@),
            !(encode_utf8(trim_end(trim_start(message@))).len() < 8),
            !(trim_start(message@).len() > 0 && trim_start(message@)[0] == '/'),
            forall|j: int| 0 <= j < k ==> !seq_contains(lowered@, #[trigger] all[j]),
        decreases 5 - k,
    {
        let needle = chars_of(markers[k]);
        assert(needle@ == all[k as int]);
        if contains_chars(&lowered, &needle) {
            proof {
                assert(seq_contains(seq_ascii_lowercase(message@), historical_markers()[k as int]));
            }
            return Some(true);
        }
        k = k + 1;
    }
    Some(false)
}

/// One block of core memory as a turn sees it.
#[derive(Debug, Clone)]
pub struct CoreMemoryBlock {
    pub label: String,
    pub value: String,
    pub read_only: bool,
}

/// `line` without one trailing carriage return.
pub open spec fn strip_cr(line: Seq<char>) -> Seq<char> {
    if line.len() > 0 && line.last() == '\r' {
        line.drop_last()
    } else {
        line
    }
}

/// The lines ended so far in `s` (each without its `\n`, and without a
/// `\r` right before it), and the text after the last `\n`.
pub open spec fn scan_lines(s: Seq<char>) -> (Seq<Seq<char>>, Seq<char>)
    decreases s.len(),
{
    if s.len() == 0 {
        (Seq::empty(), Seq::empty())
    } else {
        let (done, rest) = scan_lines(s.drop_last());
        if s.last() == '\n' {
            (done.push(strip_cr(rest)), Seq::empty())
        } else {
            (done, rest.push(s.last()))
        }
    }
}

/// The lines of `s` as `str::lines` yields them: ended by `\n` or `\r\n`,
/// the last one also by the end of `s`, with no empty line after a final
/// `\n`.
pub open spec fn text_lines(s: Seq<char>) -> Seq<Seq<char>> {
    let (done, rest) = scan_lines(s);
    if rest.len() > 0 {
        done.push(rest)
    } else {
        done
    }
}

/// The core memory lines of one block: each line that is not blank,
/// tagged with the block's label.
pub open spec fn tagged_lines(label: Seq<char>, lines: Seq<Seq<char>>) -> Seq<Seq<char>>
    decreases lines.len(),
{
    if lines.len() == 0 {
        Seq::empty()
    } else {
        let rest = tagged_lines(label, lines.drop_last());
        if is_blank(lines.last()) {
            rest
        } else {
            rest.push("[core:"@ + label + "] "@ + lines.last())
        }
    }
}

/// The core memory lines of `blocks`: those of each writable, non-empty
/// block, in order.
pub open spec fn core_lines(blocks: Seq<CoreMemoryBlock>) -> Seq<Seq<char>>
    decreases blocks.len(),
{
    if blocks.len() == 0 {
        Seq::empty()
    } else {
        let block = blocks.last();
        let rest = core_lines(blocks.drop_last());
        if block.read_only || block.value@.len() == 0 {
            rest
        } else {
            rest + tagged_lines(block.label@, text_lines(block.value@))
        }
    }
}

/// Each line followed by a line break.
pub open spec fn line_block(lines: Seq<Seq<char>>) -> Seq<char>
    decreases lines.len(),
{
    if lines.len() == 0 {
        Seq::empty()
    } else {
        line_block(lines.drop_last()) + lines.last() + "\n"@
    }
}

/// The core memory section of a turn: nothing without core lines,
/// otherwise a heading and the lines.
pub open spec fn core_memory_section(blocks: Seq<CoreMemoryBlock>) -> Seq<char> {
    let lines = core_lines(blocks);
    if lines.len() == 0 {
        Seq::empty()
    } else {
        "\n[Core Memory \u{2014} current state]\n"@ + line_block(lines)
    }
}

/// The lines of `value` (see `text_lines`).
fn lines_of(value: &str) -> (lines: Vec<String>)
    ensures
        texts_of(lines@) == text_lines(value@),
{
    let chars = chars_of(value);
    let mut lines: Vec<String> = Vec::new();
    let mut start: usize = 0;
    let mut i: usize = 0;
    while i < chars.len()
        invariant
            chars@ == value@,
            0 <= start <= i <= chars@.len(),
            scan_lines(value@.take(i as int)) == (texts_of(lines@), value@.subrange(
                start as int,
                i as int,
            )),
        decreases chars@.len() - i,
    {
        proof {
            assert(value@.take(i + 1).drop_last() =~= value@.take(i as int));
            assert(value@.take(i + 1).last() == value@[i as int]);
        }
        if chars[i] == '\n' {
            let end = if i > start && chars[i - 1] == '\r' {
                i - 1
            } else {
                i
            };
            let line = String::from_str(value.substring_char(start, end));
            proof {
                let current = value@.subrange(start as int, i as int);
                assert(strip_cr(current) =~= value@.subrange(start as int, end as int));
            }
            let ghost before = lines@;
            lines.push(line);
            proof {
                assert(texts_of(lines@) =~= texts_of(before).push(line@));
                assert(value@.subrange(i + 1, i + 1) =~= Seq::<char>::empty());
            }
            start = i + 1;
        } else {
            proof {
                assert(value@.subrange(start as int, i + 1) =~= value@.subrange(
                    start as int,
                    i as int,
                ).push(value@[i as int]));
            }
        }
        i = i + 1;
    }
    proof {
        assert(value@.take(chars@.len() as int) =~= value@);
    }
    if start < chars.len() {
        let ghost before = lines@;
        lines.push(String::from_str(value.substring_char(start, chars.len())));
        proof {
            assert(texts_of(lines@) =~= texts_of(before).push(
                value@.subrange(start as int, chars@.len() as int),
            ));
        }
    }
    lines
}

/// Appends the tagged, non-blank lines to `out` (see `tagged_lines`).
fn push_tagged_lines(out: &mut Vec<String>, label: &str, lines: &Vec<String>)
    ensures
        texts_of(final(out)@) == texts_of(old(out)@) + tagged_lines(label@, texts_of(lines@)),
{
    let ghost start = texts_of(out@);
    let ghost all = texts_of(lines@);
    let mut k: usize = 0;
    while k < lines.len()
        invariant
            0 <= k <= lines@.len(),
            all == texts_of(lines@),
            texts_of(out@) == start + tagged_lines(label@, all.take(k as int)),
        decreases lines@.len() - k,
    {
        proof {
            assert(all.take(k + 1).drop_last() =~= all.take(k as int));
            assert(all.take(k + 1).last() == lines@[k as int]@);
        }
        if !blank(lines[k].as_str()) {
            let mut tagged = "[core:".to_owned();
            tagged.append(label);
            tagged.append("] ");
            tagged.append(lines[k].as_str());
            let ghost before = out@;
            out.push(tagged);
            proof {
                assert(texts_of(out@) =~= texts_of(before).push(tagged@));
            }
        }
        k = k + 1;
    }
    proof {
        assert(all.take(lines@.len() as int) =~= all);
    }
}

/// Appends the turn's core memory section to the message (see
/// `core_memory_section`).
pub fn append_core_memory(message: &mut String, blocks: &Vec<CoreMemoryBlock>)
    ensures
        final(message)@ == old(message)@ + core_memory_section(blocks@),
{
    let mut lines: Vec<String> = Vec::new();
    let mut b: usize = 0;
    while b < blocks.len()
        invariant
            0 <= b <= blocks@.len(),
            texts_of(lines@) == core_lines(blocks@.take(b as int)),
        decreases blocks@.len() - b,
    {
        proof {
            assert(blocks@.take(b + 1).drop_last() =~= blocks@.take(b as int));
            assert(blocks@.take(b + 1).last() == blocks@[b as int]);
        }
        let block = &blocks[b];
        if !block.read_only && block.value.as_str().unicode_len() > 0 {
            let block_lines = lines_of(block.value.as_str());
            push_tagged_lines(&mut lines, block.label.as_str(), &block_lines);
        }
        b = b + 1;
    }
    proof {
        assert(blocks@.take(blocks@.len() as int) =~= blocks@);
    }
    let ghost all = texts_of(lines@);
    if lines.len() > 0 {
        let ghost start = message@;
        message.append("\n[Core Memory \u{2014} current state]\n");
        let mut k: usize = 0;
        while k < lines.len()
            invariant
                0 <= k <= lines@.len(),
                all == texts_of(lines@),
                message@ == start + "\n[Core Memory \u{2014} current state]\n"@ + line_block(
                    all.take(k as int),
                ),
            decreases lines@.len() - k,
        {
            proof {
                assert(all.take(k + 1).drop_last() =~= all.take(k as int));
                assert(all.take(k + 1).last() == lines@[k as int]@);
            }
            message.append(lines[k].as_str());
            message.append("\n");
            k = k + 1;
        }
        proof {
            assert(all.take(lines@.len() as int) =~= all);
        }
    }
}

/// What `str::to_lowercase` makes of `s`: the lowercase mapping of the
/// Unicode standard that std implements.
pub uninterp spec fn unicode_lowercase(s: Seq<char>) -> Seq<char>;

/// Calls `str::to_lowercase`; what it returns is named, not written out
/// (see `unicode_lowercase`).
#[verifier::external_body]
fn to_lowercase(s: &str) -> (lowered: String)
    ensures
        lowered@ == unicode_lowercase(s@),
{
    s.to_lowercase()
}

/// The words ended so far in `s` and the run of non-white-space
/// characters after them.
pub open spec fn scan_words(s: Seq<char>) -> (Seq<Seq<char>>, Seq<char>)
    decreases s.len(),
{
    if s.len() == 0 {
        (Seq::empty(), Seq::empty())
    } else {
        let (done, rest) = scan_words(s.drop_last());
        if is_white_space(s.last()) {
            if rest.len() > 0 {
                (done.push(rest), Seq::empty())
            } else {
                (done, Seq::empty())
            }
        } else {
            (done, rest.push(s.last()))
        }
    }
}

/// The words of `s` as `str::split_whitespace` yields them: the maximal
/// runs of characters that are not white space.
pub open spec fn text_words(s: Seq<char>) -> Seq<Seq<char>> {
    let (done, rest) = scan_words(s);
    if rest.len() > 0 {
        done.push(rest)
    } else {
        done
    }
}

/// The words longer than three bytes, lowercased.
pub open spec fn keywords(words: Seq<Seq<char>>) -> Seq<Seq<char>>
    decreases words.len(),
{
    if words.len() == 0 {
        Seq::empty()
    } else {
        let rest = keywords(words.drop_last());
        if encode_utf8(words.last()).len() > 3 {
            rest.push(unicode_lowercase(words.last()))
        } else {
            rest
        }
    }
}

/// The words separated by single spaces.
pub open spec fn joined_words(words: Seq<Seq<char>>) -> Seq<char>
    decreases words.len(),
{
    if words.len() == 0 {
        Seq::empty()
    } else if words.len() == 1 {
        words[0]
    } else {
        joined_words(words.drop_last()) + " "@ + words.last()
    }
}

/// The query that fact recall searches for `message`: its keywords, joined.
pub open spec fn fact_query(message: Seq<char>) -> Seq<char> {
    joined_words(keywords(text_words(message)))
}

/// The words of `message` (see `text_words`).
fn words_of(message: &str) -> (words: Vec<String>)
    ensures
        texts_of(words@) == text_words(message@),
{
    let chars = chars_of(message);
    let mut words: Vec<String> = Vec::new();
    let mut start: usize = 0;
    let mut i: usize = 0;
    while i < chars.len()
        invariant
            chars@ == message@,
            0 <= start <= i <= chars@.len(),
            scan_words(message@.take(i as int)) == (texts_of(words@), message@.subrange(
                start as int,
                i as int,
            )),
        decreases chars@.len() - i,
    {
        proof {
            assert(message@.take(i + 1).drop_last() =~= message@.take(i as int));
            assert(message@.take(i + 1).last() == message@[i as int]);
        }
        if white_space(chars[i]) {
            if start < i {
                let ghost before = words@;
                words.push(String::from_str(message.substring_char(start, i)));
                proof {
                    assert(texts_of(words@) =~= texts_of(before).push(
                        message@.subrange(start as int, i as int),
                    ));
                }
            }
            proof {
                assert(message@.subrange(i + 1, i + 1) =~= Seq::<char>::empty());
            }
            start = i + 1;
        } else {
            proof {
                assert(message@.subrange(start as int, i + 1) =~= message@.subrange(
                    start as int,
                    i as int,
                ).push(message@[i as int]));
            }
        }
        i = i + 1;
    }
    proof {
        assert(message@.take(chars@.len() as int) =~= message@);
    }
    if start < chars.len() {
        let ghost before = words@;
        words.push(String::from_str(message.substring_char(start, chars.len())));
        proof {
            assert(texts_of(words@) =~= texts_of(before).push(
                message@.subrange(start as int, chars@.len() as int),
            ));
        }
    }
    words
}

/// The query fact recall searches for `message` (see `fact_query`), or
/// `None` when it is under eight bytes and recall is skipped.
pub fn fact_recall_query(message: &str) -> (query: Option<String>)
    ensures
        match query {
            Some(q) => q@ == fact_query(message@) && encode_utf8(fact_query(message@)).len() >= 8,
            None => encode_utf8(fact_query(message@)).len() < 8,
        },
{
    let words = words_of(message);
    let ghost all = texts_of(words@);
    let mut query = String::new();
    let mut count: usize = 0;
    let mut k: usize = 0;
    while k < words.len()
        invariant
            0 <= k <= words@.len(),
            all == texts_of(words@),
            count as int == keywords(all.take(k as int)).len(),
            count <= k,
            query@ == joined_words(keywords(all.take(k as int))),
        decreases words@.len() - k,
    {
        proof {
            assert(all.take(k + 1).drop_last() =~= all.take(k as int));
            assert(all.take(k + 1).last() == words@[k as int]@);
        }
        if words[k].as_str().as_bytes().len() > 3 {
            let lowered = to_lowercase(words[k].as_str());
            let ghost kws = keywords(all.take(k as int));
            if count > 0 {
                query.append(" ");
            }
            query.append(lowered.as_str());
            proof {
                let next = kws.push(lowered@);
                assert(next.drop_last() =~= kws);
                if count == 0 {
                    assert(query@ =~= next[0]);
                }
            }
            count = count + 1;
        }
        k = k + 1;
    }
    proof {
        assert(all.take(words@.len() as int) =~= all);
    }
    if query.as_str().as_bytes().len() < 8 {
        return None;
    }
    Some(query)
}

} // verus!
