use executive::durable_write::{write_failed, TurnWriteTracker, WritePhase, WriteResult};

#[test]
fn empty_tracker_is_all_succeeded() {
    assert!(TurnWriteTracker::new().all_succeeded());
}

#[test]
fn single_failure_marks_not_durable() {
    let mut tracker = TurnWriteTracker::new();
    tracker.record(WriteResult::Succeeded);
    tracker.record(WriteResult::Failed {
        reason: "disk full".into(),
        phase: WritePhase::TerminalFlush,
    });
    assert!(!tracker.all_succeeded());
}

#[test]
fn write_phase_display_is_stable() {
    assert_eq!(WritePhase::TerminalFlush.to_string(), "terminal_flush");
    assert_eq!(WritePhase::UserMessage.to_string(), "user_message");
}

#[test]
fn every_phase_label_is_stable() {
    assert_eq!(WritePhase::SessionCreate.to_string(), "session_create");
    assert_eq!(WritePhase::ToolCall.to_string(), "tool_call");
    assert_eq!(WritePhase::ToolResult.to_string(), "tool_result");
    assert_eq!(WritePhase::ContextProjection.to_string(), "context_projection");
    assert_eq!(WritePhase::ContextFragment.to_string(), "context_fragment");
}

#[test]
fn successes_only_are_durable_and_kept_in_order() {
    let mut tracker = TurnWriteTracker::default();
    tracker.record(WriteResult::Succeeded);
    tracker.record(WriteResult::Succeeded);
    assert!(tracker.all_succeeded());
    let results = tracker.into_results();
    assert_eq!(results.len(), 2);
    assert!(results.iter().all(|r| !r.is_failed()));
}

#[test]
fn write_failed_renders_the_error_chain() {
    let error = anyhow::Error::msg("disk full").context("append failed");
    let result = write_failed(&error, WritePhase::ToolResult);
    assert!(result.is_failed());
    match result {
        WriteResult::Failed { reason, phase } => {
            assert_eq!(reason, "append failed: disk full");
            assert_eq!(phase, WritePhase::ToolResult);
        }
        WriteResult::Succeeded => panic!("expected a failure"),
    }
}
