//! Term matching between a workspace candidate and the self-view (its
//! concerns, projection and protentions).

use vstd::prelude::*;
use crate::text::{
    ascii_lowercase, chars_of, contains_chars, seq_ascii_lowercase, seq_contains,
};

verus! {

/// Whether `char::is_alphanumeric` holds of `c` (Unicode `Alphabetic` or
/// `Numeric`).
pub uninterp spec fn alphanumeric(c: char) -> bool;

/// `char::is_alphanumeric`. The Unicode tables behind it are not restated:
/// the result is only named, as `alphanumeric(c)`.
#[verifier::external_body]
fn is_alphanumeric(c: char) -> (b: bool)
    ensures
        b == alphanumeric(c),
{
    c.is_alphanumeric()
}

/// `[i, j)` is a maximal run of alphanumeric characters of `p`: a term.
pub open spec fn is_term(p: Seq<char>, i: int, j: int) -> bool {
    &&& 0 <= i < j <= p.len()
    &&& forall|k: int| i <= k < j ==> alphanumeric(#[trigger] p[k])
    &&& (i == 0 || !alphanumeric(p[i - 1]))
    &&& (j == p.len() || !alphanumeric(p[j]))
}

/// A term of at least three characters, lowercased (ASCII), occurs in
/// `content`.
pub open spec fn has_meaningful_term(content: Seq<char>, projection: Seq<char>) -> bool {
    exists|i: int, j: int|
        #![trigger is_term(projection, i, j)]
        is_term(projection, i, j) && j - i >= 3 && seq_contains(
            content,
            seq_ascii_lowercase(projection.subrange(i, j)),
        )
}

/// Whether `content` mentions a meaningful term of `projection`: a run of
/// at least three alphanumeric characters, compared after ASCII
/// lowercasing.
pub fn contains_meaningful_term(content: &str, projection: &str) -> (found: bool)
    ensures
        found == has_meaningful_term(content@, projection@),
{
    let hay = chars_of(content);
    let p = chars_of(projection);
    let len = p.len();
    let mut at: usize = 0;
    while at < len
        invariant
            p@ == projection@,
            hay@ == content@,
            len == p@.len(),
            0 <= at <= len,
            at == 0 || at == len || !alphanumeric(p@[at - 1]),
            forall|a: int, b: int|
                #![trigger is_term(p@, a, b)]
                is_term(p@, a, b) && b - a >= 3 && a < at ==> !seq_contains(
                    content@,
                    seq_ascii_lowercase(p@.subrange(a, b)),
                ),
        decreases len - at,
    {
        let mut end = at;
        while end < len && is_alphanumeric(p[end])
            invariant
                at <= end <= len,
                len == p@.len(),
                forall|k: int| at <= k < end ==> alphanumeric(#[trigger] p@[k]),
            decreases len - end,
        {
            end = end + 1;
        }
        if end - at >= 3 {
            let mut term: Vec<char> = Vec::new();
            let mut k: usize = at;
            while k < end
                invariant
                    at <= k <= end <= len,
                    len == p@.len(),
                    term@ == p@.subrange(at as int, k as int),
                decreases end - k,
            {
                term.push(p[k]);
                proof {
                    assert(p@.subrange(at as int, k + 1) =~= p@.subrange(at as int, k as int).push(
                        p@[k as int],
                    ));
                }
                k = k + 1;
            }
            let lowered = ascii_lowercase(&term);
            if contains_chars(&hay, &lowered) {
                proof {
                    assert(is_term(p@, at as int, end as int));
                }
                return true;
            }
        }
        proof {
            assert forall|a: int, b: int|
                #![trigger is_term(p@, a, b)]
                is_term(p@, a, b) && b - a >= 3 && a < (if end < len {
                    end + 1
                } else {
                    end as int
                }) implies !seq_contains(content@, seq_ascii_lowercase(p@.subrange(a, b))) by {
                if a >= at {
                    if a > at && a < end {
                        assert(alphanumeric(p@[a - 1]));
                    } else if a == at {
                        if b < end {
                            assert(alphanumeric(p@[b]));
                        } else if b > end {
                            assert(alphanumeric(p@[end as int]));
                        }
                    } else if a == end {
                        assert(alphanumeric(p@[a]));
                    }
                }
            }
        }
        at = if end < len {
            end + 1
        } else {
            end
        };
    }
    false
}

} // verus!
