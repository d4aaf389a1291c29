//! Bounded text helpers: truncation by bytes on character boundaries,
//! truncation by characters, escaping and term search.

use vstd::prelude::*;
use vstd::string::{StrSliceExecFns, StringExecFns, StringSliceAdditionalSpecFns};
use vstd::utf8::{is_char_boundary, valid_utf8, encode_utf8_valid_utf8};

verus! {

broadcast use vstd::string::group_string_axioms;

/// The characters of `s`, in order.
pub fn chars_of(s: &str) -> (chars: Vec<char>)
    ensures
        chars@ == s@,
{
    let mut out: Vec<char> = Vec::new();
    for c in it: s.chars()
        invariant
            out@ == it.seq().take(it.index() as int),
            it.seq() == s@,
    {
        out.push(c);
    }
    out
}

/// ASCII lowercase of one character; other characters are unchanged.
pub open spec fn ascii_lower_char(c: char) -> char {
    if 65 <= c as u32 <= 90 {
        ((c as u32 + 32) as u8) as char
    } else {
        c
    }
}

/// ASCII lowercase of a character sequence.
pub open spec fn seq_ascii_lowercase(s: Seq<char>) -> Seq<char> {
    s.map_values(|c: char| ascii_lower_char(c))
}

/// Whether `needle` occurs contiguously in `hay`.
pub open spec fn seq_contains(hay: Seq<char>, needle: Seq<char>) -> bool {
    exists|i: int|
        0 <= i && i + needle.len() <= hay.len() && #[trigger] hay.subrange(i, i + needle.len())
            == needle
}

/// ASCII lowercase of one character.
pub fn lower_char(c: char) -> (l: char)
    ensures
        l == ascii_lower_char(c),
{
    let code = c as u32;
    if 65 <= code && code <= 90 {
        ((code + 32) as u8) as char
    } else {
        c
    }
}

/// ASCII lowercase of a character vector.
pub fn ascii_lowercase(chars: &Vec<char>) -> (lowered: Vec<char>)
    ensures
        lowered@ == seq_ascii_lowercase(chars@),
{
    let mut out: Vec<char> = Vec::new();
    let mut i: usize = 0;
    while i < chars.len()
        invariant
            0 <= i <= chars.len(),
            out@ =~= seq_ascii_lowercase(chars@.take(i as int)),
        decreases chars.len() - i,
    {
        out.push(lower_char(chars[i]));
        assert(chars@.take(i + 1) =~= chars@.take(i as int).push(chars@[i as int]));
        i = i + 1;
    }
    assert(chars@.take(chars.len() as int) =~= chars@);
    out
}

/// Whether `needle` occurs at position `at` of `hay`.
fn occurs_at(hay: &Vec<char>, needle: &Vec<char>, at: usize) -> (found: bool)
    requires
        at + needle.len() <= hay.len(),
    ensures
        found == (hay@.subrange(at as int, at + needle.len()) == needle@),
{
    let mut j: usize = 0;
    while j < needle.len()
        invariant
            0 <= j <= needle.len(),
            at + needle.len() <= hay.len(),
            forall|k: int| 0 <= k < j ==> hay@[at + k] == needle@[k],
        decreases needle.len() - j,
    {
        if hay[at + j] != needle[j] {
            assert(hay@.subrange(at as int, at + needle.len())[j as int] != needle@[j as int]);
            return false;
        }
        j = j + 1;
    }
    assert(hay@.subrange(at as int, at + needle.len()) =~= needle@);
    true
}

/// Whether `needle` occurs contiguously in `hay`.
pub fn contains_chars(hay: &Vec<char>, needle: &Vec<char>) -> (found: bool)
    ensures
        found == seq_contains(hay@, needle@),
{
    if needle.len() > hay.len() {
        return false;
    }
    let last = hay.len() - needle.len();
    let mut at: usize = 0;
    loop
        invariant
            last + needle.len() == hay.len(),
            0 <= at <= last,
            forall|i: int|
                0 <= i < at ==> #[trigger] hay@.subrange(i, i + needle.len()) != needle@,
        decreases last - at,
    {
        if occurs_at(hay, needle, at) {
            return true;
        }
        if at == last {
            return false;
        }
        at = at + 1;
    }
}

/// The greatest character boundary of `bytes` not past `max`; the whole
/// length when `max` reaches it.
pub open spec fn char_floor(bytes: Seq<u8>, max: int) -> int {
    if max >= bytes.len() {
        bytes.len() as int
    } else {
        choose|b: int|
            0 <= b <= max && is_char_boundary(bytes, b) && forall|c: int|
                b < c <= max ==> !#[trigger] is_char_boundary(bytes, c)
    }
}

/// Byte prefix of `bytes` cut at the greatest character boundary within
/// `max` bytes.
pub open spec fn bounded_bytes(bytes: Seq<u8>, max: int) -> Seq<u8> {
    bytes.subrange(0, char_floor(bytes, max))
}

/// Below the end of valid UTF-8 there is a greatest character boundary at
/// or before any position.
proof fn lemma_floor_exists(bytes: Seq<u8>, max: int)
    requires
        valid_utf8(bytes),
        0 <= max,
    ensures
        exists|b: int|
            0 <= b <= max && is_char_boundary(bytes, b) && forall|c: int|
                b < c <= max ==> !#[trigger] is_char_boundary(bytes, c),
    decreases max,
{
    if is_char_boundary(bytes, max) {
        assert(forall|c: int| max < c <= max ==> !#[trigger] is_char_boundary(bytes, c));
    } else {
        assert(max > 0);
        lemma_floor_exists(bytes, max - 1);
        let b = choose|b: int|
            0 <= b <= max - 1 && is_char_boundary(bytes, b) && forall|c: int|
                b < c <= max - 1 ==> !#[trigger] is_char_boundary(bytes, c);
        assert forall|c: int| b < c <= max implies !#[trigger] is_char_boundary(bytes, c) by {
            if c < max {
                assert(!is_char_boundary(bytes, c));
            }
        }
    }
}

/// Cutting valid UTF-8 at `max` bytes keeps at most `max` bytes.
pub proof fn lemma_bounded_bytes_len(bytes: Seq<u8>, max: int)
    requires
        valid_utf8(bytes),
        0 <= max,
    ensures
        bounded_bytes(bytes, max).len() <= max,
{
    if max < bytes.len() {
        lemma_floor_exists(bytes, max);
    }
}

/// The greatest character boundary of `value` that is at most `max_bytes`
/// (the length of `value` when that is smaller).
fn floor_char_boundary(value: &str, max_bytes: usize) -> (boundary: usize)
    ensures
        boundary == char_floor(value.spec_bytes(), max_bytes as int),
        boundary <= value.spec_bytes().len(),
        is_char_boundary(value.spec_bytes(), boundary as int),
{
    proof {
        encode_utf8_valid_utf8(value@);
    }
    let len = value.as_bytes().len();
    if len <= max_bytes {
        proof {
            assert(len == value.spec_bytes().len());
            lemma_len_is_char_boundary(value.spec_bytes());
            assert(char_floor(value.spec_bytes(), max_bytes as int) == len);
        }
        return len;
    }
    let mut boundary = max_bytes;
    while boundary > 0 && !value.is_char_boundary(boundary)
        invariant
            boundary <= max_bytes < value.spec_bytes().len(),
            valid_utf8(value.spec_bytes()),
            forall|c: int| boundary < c <= max_bytes ==> !#[trigger] is_char_boundary(
                value.spec_bytes(),
                c,
            ),
        decreases boundary,
    {
        boundary = boundary - 1;
    }
    proof {
        let bytes = value.spec_bytes();
        assert(is_char_boundary(bytes, 0));
        assert(is_char_boundary(bytes, boundary as int));
        let b = char_floor(bytes, max_bytes as int);
        assert(0 <= b <= max_bytes && is_char_boundary(bytes, b));
        if b < boundary {
            assert(!is_char_boundary(bytes, boundary as int));
        }
        if boundary < b {
            assert(!is_char_boundary(bytes, b));
        }
    }
    boundary
}

/// The end of valid UTF-8 is a character boundary.
pub proof fn lemma_len_is_char_boundary(bytes: Seq<u8>)
    requires
        valid_utf8(bytes),
    ensures
        is_char_boundary(bytes, bytes.len() as int),
    decreases bytes.len(),
{
    if bytes.len() > 0 {
        let rest = vstd::utf8::pop_first_scalar(bytes);
        assert(rest.len() < bytes.len());
        lemma_len_is_char_boundary(rest);
    }
}

/// Truncates `value` to at most `max_bytes` bytes without splitting a
/// UTF-8 code point.
pub fn truncate_at_char_boundary(value: &str, max_bytes: usize) -> (bounded: &str)
    ensures
        bounded.spec_bytes() == bounded_bytes(value.spec_bytes(), max_bytes as int),
{
    let boundary = floor_char_boundary(value, max_bytes);
    let (head, _) = value.split_at(boundary);
    head
}

/// `value` cut to at most `limit` bytes on a character boundary, owned.
pub fn bound_text(value: &str, limit: usize) -> (bounded: String)
    ensures
        bounded@ == truncate_at_char_boundary_chars(value, limit),
        encode_utf8_of(bounded@) == bounded_bytes(value.spec_bytes(), limit as int),
{
    let head = truncate_at_char_boundary(value, limit);
    proof {
        vstd::utf8::encode_utf8_decode_utf8(head@);
    }
    head.to_owned()
}

/// `value` cut to at most `max_bytes` bytes on a character boundary, owned.
pub fn truncate_utf8(value: &str, max_bytes: usize) -> (bounded: String)
    ensures
        bounded@ == truncate_at_char_boundary_chars(value, max_bytes),
        encode_utf8_of(bounded@) == bounded_bytes(value.spec_bytes(), max_bytes as int),
{
    let head = truncate_at_char_boundary(value, max_bytes);
    proof {
        vstd::utf8::encode_utf8_decode_utf8(head@);
    }
    head.to_owned()
}

pub open spec fn encode_utf8_of(chars: Seq<char>) -> Seq<u8> {
    vstd::utf8::encode_utf8(chars)
}

/// The characters of `value` cut to `max` bytes on a character boundary.
pub open spec fn truncate_at_char_boundary_chars(value: &str, max: usize) -> Seq<char> {
    vstd::utf8::decode_utf8(bounded_bytes(value.spec_bytes(), max as int))
}

/// The first `n` characters of `s` (all of it when shorter).
pub open spec fn take_at_most(s: Seq<char>, n: int) -> Seq<char> {
    if n < s.len() {
        s.take(n)
    } else {
        s
    }
}

/// The first `max_chars` characters of `value` (all of it when shorter).
pub fn truncate(value: &str, max_chars: usize) -> (prefix: String)
    ensures
        prefix@ == take_at_most(value@, max_chars as int),
{
    let count = value.unicode_len();
    let end = if max_chars < count {
        max_chars
    } else {
        count
    };
    let head = value.substring_char(0, end);
    proof {
        assert(value@.subrange(0, end as int) =~= take_at_most(value@, max_chars as int));
    }
    head.to_owned()
}

/// `value` limited to `max_chars` characters; a longer value keeps
/// `max_chars - 1` characters followed by an ellipsis.
pub open spec fn spec_truncate_chars(value: Seq<char>, max_chars: int) -> Seq<char> {
    if value.len() <= max_chars {
        value
    } else if max_chars == 0 {
        Seq::empty()
    } else {
        value.take(max_chars - 1).push('\u{2026}')
    }
}

pub fn truncate_chars(value: &str, max_chars: usize) -> (bounded: String)
    ensures
        bounded@ == spec_truncate_chars(value@, max_chars as int),
{
    let count = value.unicode_len();
    if count <= max_chars {
        return value.to_owned();
    }
    if max_chars == 0 {
        return String::new();
    }
    let mut bounded = value.substring_char(0, max_chars - 1).to_owned();
    bounded.append("\u{2026}");
    proof {
        reveal_strlit("\u{2026}");
        assert(value@.subrange(0, max_chars - 1) =~= value@.take(max_chars - 1));
        assert(bounded@ =~= value@.take(max_chars - 1).push('\u{2026}'));
    }
    bounded
}

/// A processor's degradation reason for display: the given reason, or a
/// default when there is none, limited to 1024 characters.
pub fn sanitize_reason(value: Option<&str>) -> (reason: String)
    ensures
        reason@ == take_at_most(
            match value {
                Some(v) => v@,
                None => "processor degraded without a public reason"@,
            },
            1024,
        ),
{
    let text = match value {
        Some(v) => v,
        None => "processor degraded without a public reason",
    };
    truncate(text, 1024)
}

/// The escaped form of one character: `&`, `<` and `>` become entities.
pub open spec fn escape_char(c: char) -> Seq<char> {
    if c == '&' {
        "&amp;"@
    } else if c == '<' {
        "&lt;"@
    } else if c == '>' {
        "&gt;"@
    } else {
        seq![c]
    }
}

/// `value` with `&`, `<` and `>` replaced by their entities.
pub open spec fn escape_seq(value: Seq<char>) -> Seq<char>
    decreases value.len(),
{
    if value.len() == 0 {
        Seq::empty()
    } else {
        escape_seq(value.drop_last()) + escape_char(value.last())
    }
}

pub proof fn lemma_escape_plain_run(value: Seq<char>, start: int, end: int)
    requires
        0 <= start <= end <= value.len(),
        forall|k: int| start <= k < end ==> #[trigger] value[k] != '&' && value[k] != '<' && value[k]
            != '>',
    ensures
        escape_seq(value.take(end)) == escape_seq(value.take(start)) + value.subrange(start, end),
    decreases end - start,
{
    if end > start {
        lemma_escape_plain_run(value, start, end - 1);
        assert(value.take(end).drop_last() =~= value.take(end - 1));
        assert(value.take(end).last() == value[end - 1]);
        assert(escape_char(value[end - 1]) == seq![value[end - 1]]);
        assert(value.subrange(start, end) =~= value.subrange(start, end - 1).push(value[end - 1]));
    } else {
        assert(value.subrange(start, end) =~= Seq::<char>::empty());
    }
}

/// Escaped text holds no `<` or `>`: it cannot open or close markup.
pub proof fn law_escaped_has_no_markup(value: Seq<char>)
    ensures
        forall|i: int| 0 <= i < escape_seq(value).len() ==> #[trigger] escape_seq(value)[i] != '<'
            && escape_seq(value)[i] != '>',
    decreases value.len(),
{
    reveal_strlit("&amp;");
    reveal_strlit("&lt;");
    reveal_strlit("&gt;");
    if value.len() > 0 {
        law_escaped_has_no_markup(value.drop_last());
        let head = escape_seq(value.drop_last());
        let tail = escape_char(value.last());
        assert forall|i: int| 0 <= i < escape_seq(value).len() implies #[trigger] escape_seq(
            value,
        )[i] != '<' && escape_seq(value)[i] != '>' by {
            if i < head.len() {
                assert(escape_seq(value)[i] == head[i]);
            } else {
                assert(escape_seq(value)[i] == tail[i - head.len()]);
            }
        }
    }
}

/// Escapes `&`, `<` and `>` so that untrusted text cannot open or close
/// markup.
pub fn escape(value: &str) -> (escaped: String)
    ensures
        escaped@ == escape_seq(value@),
{
    let chars = chars_of(value);
    let mut escaped = String::new();
    let mut start: usize = 0;
    let mut i: usize = 0;
    while i < chars.len()
        invariant
            chars@ == value@,
            0 <= start <= i <= chars@.len(),
            escaped@ == escape_seq(value@.take(start as int)),
            forall|k: int| start <= k < i ==> #[trigger] value@[k] != '&' && value@[k] != '<'
                && value@[k] != '>',
        decreases chars@.len() - i,
    {
        let c = chars[i];
        if c == '&' || c == '<' || c == '>' {
            proof {
                lemma_escape_plain_run(value@, start as int, i as int);
            }
            escaped.append(value.substring_char(start, i));
            let entity = if c == '&' {
                "&amp;"
            } else if c == '<' {
                "&lt;"
            } else {
                "&gt;"
            };
            escaped.append(entity);
            proof {
                assert(value@.take(i + 1).drop_last() =~= value@.take(i as int));
                assert(value@.take(i + 1).last() == c);
                assert(entity@ == escape_char(c));
            }
            start = i + 1;
        }
        i = i + 1;
    }
    proof {
        lemma_escape_plain_run(value@, start as int, chars@.len() as int);
        assert(value@.take(chars@.len() as int) =~= value@);
    }
    escaped.append(value.substring_char(start, chars.len()));
    escaped
}

/// `s` with each occurrence of `pat` replaced by `rep`, the occurrences
/// found from the front without overlapping, as `str::replace` finds them.
pub open spec fn replace_all(s: Seq<char>, pat: Seq<char>, rep: Seq<char>) -> Seq<char>
    decreases s.len(),
{
    if s.len() == 0 {
        Seq::empty()
    } else if 0 < pat.len() <= s.len() && s.take(pat.len() as int) == pat {
        rep + replace_all(s.skip(pat.len() as int), pat, rep)
    } else {
        seq![s[0]] + replace_all(s.drop_first(), pat, rep)
    }
}

/// Reading escaped text back: `&gt;`, `&lt;` and `&amp;` replaced in turn.
pub open spec fn unescape_seq(s: Seq<char>) -> Seq<char> {
    replace_all(replace_all(replace_all(s, "&gt;"@, ">"@), "&lt;"@, "<"@), "&amp;"@, "&"@)
}

/// Each character of `v` turned into its chunk by `f`, in order.
pub open spec fn concat_map(v: Seq<char>, f: spec_fn(char) -> Seq<char>) -> Seq<char>
    decreases v.len(),
{
    if v.len() == 0 {
        Seq::empty()
    } else {
        f(v[0]) + concat_map(v.drop_first(), f)
    }
}

/// A chunk in which `pat` can only occur as the whole chunk: no later
/// character starts `pat`, and a chunk other than `pat` differs from it
/// within both.
pub open spec fn chunk_ok(w: Seq<char>, pat: Seq<char>) -> bool {
    &&& w.len() > 0
    &&& forall|k: int| 1 <= k < w.len() ==> #[trigger] w[k] != pat[0]
    &&& w != pat ==> exists|i: int| 0 <= i < w.len() && i < pat.len() && #[trigger] w[i] != pat[i]
}

proof fn lemma_replace_plain(w: Seq<char>, r: Seq<char>, pat: Seq<char>, rep: Seq<char>)
    requires
        pat.len() > 0,
        forall|k: int| 0 <= k < w.len() ==> #[trigger] w[k] != pat[0],
    ensures
        replace_all(w + r, pat, rep) == w + replace_all(r, pat, rep),
    decreases w.len(),
{
    if w.len() == 0 {
        assert(w + r =~= r);
    } else {
        let s = w + r;
        assert(s[0] == w[0]);
        if pat.len() <= s.len() {
            assert(s.take(pat.len() as int)[0] != pat[0]);
        }
        assert(s.drop_first() =~= w.drop_first() + r);
        lemma_replace_plain(w.drop_first(), r, pat, rep);
        assert(seq![w[0]] + (w.drop_first() + replace_all(r, pat, rep)) =~= w + replace_all(r, pat, rep));
    }
}

proof fn lemma_replace_chunk(w: Seq<char>, r: Seq<char>, pat: Seq<char>, rep: Seq<char>)
    requires
        pat.len() > 0,
        chunk_ok(w, pat),
    ensures
        replace_all(w + r, pat, rep) == (if w == pat {
            rep
        } else {
            w
        }) + replace_all(r, pat, rep),
{
    let s = w + r;
    if w == pat {
        assert(s.take(pat.len() as int) =~= pat);
        assert(s.skip(pat.len() as int) =~= r);
    } else {
        let i = choose|i: int| 0 <= i < w.len() && i < pat.len() && #[trigger] w[i] != pat[i];
        if pat.len() <= s.len() {
            assert(s.take(pat.len() as int)[i] != pat[i]);
        }
        assert(s.drop_first() =~= w.drop_first() + r);
        lemma_replace_plain(w.drop_first(), r, pat, rep);
        assert(seq![w[0]] + (w.drop_first() + replace_all(r, pat, rep)) =~= w + replace_all(r, pat, rep));
    }
}

proof fn lemma_replace_concat(
    v: Seq<char>,
    f: spec_fn(char) -> Seq<char>,
    g: spec_fn(char) -> Seq<char>,
    pat: Seq<char>,
    rep: Seq<char>,
)
    requires
        pat.len() > 0,
        forall|c: char| chunk_ok(#[trigger] f(c), pat),
        forall|c: char| #[trigger] g(c) == if f(c) == pat { rep } else { f(c) },
    ensures
        replace_all(concat_map(v, f), pat, rep) == concat_map(v, g),
    decreases v.len(),
{
    if v.len() > 0 {
        lemma_replace_concat(v.drop_first(), f, g, pat, rep);
        assert(chunk_ok(f(v[0]), pat));
        assert(g(v[0]) == if f(v[0]) == pat { rep } else { f(v[0]) });
        lemma_replace_chunk(f(v[0]), concat_map(v.drop_first(), f), pat, rep);
    }
}

proof fn lemma_concat_map_push(v: Seq<char>, c: char, f: spec_fn(char) -> Seq<char>)
    ensures
        concat_map(v.push(c), f) == concat_map(v, f) + f(c),
    decreases v.len(),
{
    if v.len() == 0 {
        assert(v.push(c).drop_first() =~= Seq::<char>::empty());
        assert(v.push(c)[0] == c);
        assert(concat_map(v.push(c).drop_first(), f) == Seq::<char>::empty());
        assert(concat_map(v.push(c), f) =~= f(c) + Seq::<char>::empty());
        assert(concat_map(v, f) + f(c) =~= f(c));
    } else {
        assert(v.push(c).drop_first() =~= v.drop_first().push(c));
        lemma_concat_map_push(v.drop_first(), c, f);
        assert(concat_map(v.push(c), f) =~= concat_map(v, f) + f(c));
    }
}

proof fn lemma_escape_is_concat(v: Seq<char>)
    ensures
        escape_seq(v) == concat_map(v, |c: char| escape_char(c)),
    decreases v.len(),
{
    if v.len() > 0 {
        lemma_escape_is_concat(v.drop_last());
        lemma_concat_map_push(v.drop_last(), v.last(), |c: char| escape_char(c));
        assert(v.drop_last().push(v.last()) =~= v);
    }
}

proof fn lemma_concat_map_chars(v: Seq<char>)
    ensures
        concat_map(v, |c: char| seq![c]) == v,
    decreases v.len(),
{
    if v.len() > 0 {
        lemma_concat_map_chars(v.drop_first());
        assert(seq![v[0]] + v.drop_first() =~= v);
    }
}

/// Escaped text reads back as it was written: unescaping `&gt;`, `&lt;`
/// and `&amp;` in turn gives back the original value.
pub proof fn law_escape_round_trip(value: Seq<char>)
    ensures
        unescape_seq(escape_seq(value)) == value,
{
    reveal_strlit("&amp;");
    reveal_strlit("&lt;");
    reveal_strlit("&gt;");
    reveal_strlit("&");
    reveal_strlit("<");
    reveal_strlit(">");
    let f0 = |c: char| escape_char(c);
    let f1 = |c: char|
        if c == '&' {
            "&amp;"@
        } else if c == '<' {
            "&lt;"@
        } else {
            seq![c]
        };
    let f2 = |c: char|
        if c == '&' {
            "&amp;"@
        } else {
            seq![c]
        };
    let f3 = |c: char| seq![c];
    let gt = "&gt;"@;
    let lt = "&lt;"@;
    let amp = "&amp;"@;
    assert forall|c: char| chunk_ok(#[trigger] f0(c), gt) by {
        if c == '&' {
            assert(f0(c)[1] != gt[1]);
        } else if c == '<' {
            assert(f0(c)[1] != gt[1]);
        } else if c == '>' {
            assert(f0(c) == gt);
        } else {
            assert(f0(c)[0] != gt[0]);
        }
    }
    assert forall|c: char| #[trigger] f1(c) == if f0(c) == gt { ">"@ } else { f0(c) } by {
        if c == '&' {
            assert(f0(c)[1] != gt[1]);
        } else if c == '<' {
            assert(f0(c)[1] != gt[1]);
        } else if c == '>' {
            assert(f1(c) =~= ">"@);
        } else {
            assert(f0(c).len() != gt.len());
        }
    }
    assert forall|c: char| chunk_ok(#[trigger] f1(c), lt) by {
        if c == '&' {
            assert(f1(c)[1] != lt[1]);
        } else if c == '<' {
            assert(f1(c) == lt);
        } else {
            assert(f1(c)[0] != lt[0]);
        }
    }
    assert forall|c: char| #[trigger] f2(c) == if f1(c) == lt { "<"@ } else { f1(c) } by {
        if c == '&' {
            assert(f1(c)[1] != lt[1]);
        } else if c == '<' {
            assert(f2(c) =~= "<"@);
        } else {
            assert(f1(c).len() != lt.len());
        }
    }
    assert forall|c: char| chunk_ok(#[trigger] f2(c), amp) by {
        if c == '&' {
            assert(f2(c) == amp);
        } else {
            assert(f2(c)[0] != amp[0]);
        }
    }
    assert forall|c: char| #[trigger] f3(c) == if f2(c) == amp { "&"@ } else { f2(c) } by {
        if c == '&' {
            assert(f3(c) =~= "&"@);
        } else {
            assert(f2(c).len() != amp.len());
        }
    }
    lemma_escape_is_concat(value);
    lemma_replace_concat(value, f0, f1, gt, ">"@);
    lemma_replace_concat(value, f1, f2, lt, "<"@);
    lemma_replace_concat(value, f2, f3, amp, "&"@);
    lemma_concat_map_chars(value);
}

} // verus!
