//! Bounded diagnostics of conscious field modulations.

use vstd::prelude::*;

verus! {

/// At most this many modulation events are reported.
pub const MAX_DIAGNOSTIC_MODULATIONS: usize = 256;

/// The effective limit for a requested number of events: at least one, at
/// most `MAX_DIAGNOSTIC_MODULATIONS`.
pub open spec fn diagnostic_limit(requested: usize) -> int {
    if requested < 1 {
        1
    } else if requested > MAX_DIAGNOSTIC_MODULATIONS {
        MAX_DIAGNOSTIC_MODULATIONS as int
    } else {
        requested as int
    }
}

/// Keeps only the most recent events within the effective limit, in order,
/// and reports how many there were in total.
pub fn bound_recent_modulations<T>(events: Vec<T>, requested_limit: usize) -> (bounded: (
    Vec<T>,
    usize,
))
    ensures
        bounded.1 == events@.len(),
        bounded.0@ == if events@.len() > diagnostic_limit(requested_limit) {
            events@.subrange(
                events@.len() - diagnostic_limit(requested_limit),
                events@.len() as int,
            )
        } else {
            events@
        },
{
    let mut events = events;
    let total = events.len();
    let limit = if requested_limit < 1 {
        1
    } else if requested_limit > MAX_DIAGNOSTIC_MODULATIONS {
        MAX_DIAGNOSTIC_MODULATIONS
    } else {
        requested_limit
    };
    if total > limit {
        let recent = events.split_off(total - limit);
        return (recent, total);
    }
    (events, total)
}

} // verus!
