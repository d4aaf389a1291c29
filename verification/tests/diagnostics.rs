use executive::diagnostics::{bound_recent_modulations, MAX_DIAGNOSTIC_MODULATIONS};

fn event(index: usize) -> String {
    index.to_string()
}

#[test]
fn diagnostics_keep_only_requested_most_recent_events() {
    let (events, total) = bound_recent_modulations((0..5).map(event).collect(), 2);
    assert_eq!(total, 5);
    assert_eq!(events, vec![event(3), event(4)]);
}

#[test]
fn diagnostics_enforce_global_bound_and_nonzero_limit() {
    let (events, _) = bound_recent_modulations(
        (0..MAX_DIAGNOSTIC_MODULATIONS + 10).map(event).collect(),
        usize::MAX,
    );
    assert_eq!(events.len(), MAX_DIAGNOSTIC_MODULATIONS);
    let (events, _) = bound_recent_modulations(vec![event(0), event(1)], 0);
    assert_eq!(events, vec![event(1)]);
}

#[test]
fn fewer_events_than_the_limit_are_all_kept() {
    let (events, total) = bound_recent_modulations(vec![1u8, 2, 3], 10);
    assert_eq!(events, vec![1, 2, 3]);
    assert_eq!(total, 3);
}
