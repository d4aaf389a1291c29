use executive::tool_tracker::ToolTracker;

fn test_tracker() -> ToolTracker {
    ToolTracker::new(0)
}

#[test]
fn test_register_and_mark_called() {
    let mut tracker = test_tracker();
    tracker.register("call-1", "bash", 0);
    assert_eq!(tracker.total_calls(), 1);

    assert!(tracker.mark_called("call-1"));
    assert!(!tracker.mark_called("nonexistent"));
}

#[test]
fn test_settle_and_unsettled() {
    let mut tracker = test_tracker();
    tracker.register("c1", "bash", 0);
    tracker.register("c2", "read_file", 0);
    tracker.mark_called("c1");

    assert_eq!(tracker.unsettled_calls().len(), 2);

    tracker.mark_settled("c1", false, 0);
    let unsettled = tracker.unsettled_calls();
    assert_eq!(unsettled.len(), 1);
    assert_eq!(unsettled[0].tool_call_id, "c2");
}

#[test]
fn test_fail_unsettled() {
    let mut tracker = test_tracker();
    tracker.register("c1", "bash", 0);
    tracker.register("c2", "read_file", 0);
    tracker.mark_called("c1");
    tracker.mark_settled("c1", false, 0);

    let failed = tracker.fail_unsettled(0);
    assert_eq!(failed, 1);

    let unsettled = tracker.unsettled_calls();
    assert_eq!(unsettled.len(), 0);
    assert_eq!(tracker.total_calls(), 2);
}

#[test]
fn settlement_records_elapsed_time_and_error() {
    let mut tracker = ToolTracker::new(1_000);
    tracker.register("c1", "bash", 1_250);
    assert!(tracker.mark_settled("c1", true, 1_400));
    assert!(!tracker.mark_settled("missing", true, 1_400));
    assert_eq!(tracker.unsettled_calls().len(), 0);
    assert_eq!(tracker.fail_unsettled(2_000), 0);
}

#[test]
fn unsettled_calls_come_in_registration_order() {
    let mut tracker = ToolTracker::new(0);
    tracker.register("b", "bash", 1);
    tracker.register("a", "read_file", 2);
    tracker.register("c", "write_file", 3);
    let ids: Vec<String> = tracker
        .unsettled_calls()
        .iter()
        .map(|s| s.tool_call_id.clone())
        .collect();
    assert_eq!(ids, vec!["b", "a", "c"]);
}
