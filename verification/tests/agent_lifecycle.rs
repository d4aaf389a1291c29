use executive::agent_control::RuntimeOutcome;
use executive::agent_lifecycle::{
    classify_outcome, lease_expiry, operation_finish, settlement_plan, settlement_terminal,
    spawn_rollback, start_failure_cleanup, AdmissionRelease, OperationFinish, RunStartFailure,
    SettlementTerminal, SpawnFailureError, SpawnStep,
};
use executive::agent_status::AgentRunStatus;
use executive::control_error::AgentControlErrorKind;

#[test]
fn spawn_failures_undo_what_exists() {
    let first = spawn_rollback(SpawnStep::SpawnProcess);
    assert!(first.revoke_admission && !first.terminate_process && first.cancel_operation.is_none());
    assert_eq!(first.error, SpawnFailureError::FromKernel);
    for step in [SpawnStep::InspectProcess, SpawnStep::SetOverlay, SpawnStep::SubmitOperation] {
        let r = spawn_rollback(step);
        assert!(r.revoke_admission && r.terminate_process && r.cancel_operation.is_none());
    }
    let mailbox = spawn_rollback(SpawnStep::RegisterMailbox);
    assert_eq!(mailbox.cancel_operation, Some("mailbox setup failed"));
    assert!(mailbox.terminate_process && mailbox.revoke_admission);
    let persist = spawn_rollback(SpawnStep::PersistRun);
    assert_eq!(persist.cancel_operation, Some("Agent persistence failed"));
    assert_eq!(persist.error, SpawnFailureError::AsReported);
    let memory = spawn_rollback(SpawnStep::RegisterMemory);
    assert!(!memory.revoke_admission && !memory.terminate_process && memory.cancel_operation.is_none());
    let duplicate = spawn_rollback(SpawnStep::InsertLive);
    assert_eq!(duplicate.cancel_operation, Some("duplicate live Agent"));
    assert_eq!(duplicate.exit_reason, Some("duplicate live Agent"));
    assert_eq!(
        duplicate.error.kind(),
        (Some(AgentControlErrorKind::Conflict), Some("Agent already has a live runtime"))
    );
}

#[test]
fn lease_expiry_saturates() {
    assert_eq!(lease_expiry(1_000, 500), 1_500);
    assert_eq!(lease_expiry(i64::MAX - 1, 10), i64::MAX);
    assert_eq!(lease_expiry(0, u64::MAX), -1);
    assert_eq!(lease_expiry(i64::MIN, u64::MAX), i64::MIN);
}

#[test]
fn failed_starts_clean_up_by_stage() {
    let start = start_failure_cleanup(RunStartFailure::Start);
    assert!(start.record_failed && start.terminate_process && start.revoke_admission && start.remove_live);
    assert_eq!(start.cancel_operation, Some("Agent start failed"));
    let state = start_failure_cleanup(RunStartFailure::RunningTransition);
    assert!(!state.record_failed);
    assert_eq!(state.cancel_operation, Some("Agent state failed"));
    let mark = start_failure_cleanup(RunStartFailure::MarkRunning);
    assert!(mark.cancel_operation.is_none() && mark.terminate_process && mark.remove_live);
}

#[test]
fn outcomes_are_classified_by_error_kind() {
    assert!(matches!(classify_outcome(None, String::new()), RuntimeOutcome::Completed));
    assert!(matches!(
        classify_outcome(Some(AgentControlErrorKind::Terminal), "stop".into()),
        RuntimeOutcome::Cancelled { message } if message == "stop"
    ));
    assert!(matches!(
        classify_outcome(Some(AgentControlErrorKind::Runtime), "boom".into()),
        RuntimeOutcome::Failed { message } if message == "boom"
    ));
}

#[test]
fn operations_finish_by_status() {
    assert_eq!(operation_finish(AgentRunStatus::Succeeded, None), Some(OperationFinish::Succeed));
    assert_eq!(operation_finish(AgentRunStatus::Cancelled, Some("x".into())), Some(OperationFinish::CancelByUser));
    assert_eq!(
        operation_finish(AgentRunStatus::Failed, None),
        Some(OperationFinish::Fail { message: "Agent runtime failed".into() })
    );
    assert_eq!(
        operation_finish(AgentRunStatus::Failed, Some("boom".into())),
        Some(OperationFinish::Fail { message: "boom".into() })
    );
    assert_eq!(operation_finish(AgentRunStatus::Running, None), None);
    assert_eq!(settlement_terminal(AgentRunStatus::Interrupted), SettlementTerminal::Recoverable);
    assert_eq!(settlement_terminal(AgentRunStatus::Failed), SettlementTerminal::Failed);
}

#[test]
fn settlement_plans_cover_each_path() {
    let engine = settlement_plan(true, AgentRunStatus::Succeeded, true, true, true);
    assert!(engine.run_settlement && !engine.delete_leases);
    assert_eq!(engine.admission, AdmissionRelease::ThroughSettlement);
    let stuck = settlement_plan(true, AgentRunStatus::Succeeded, true, true, false);
    assert_eq!(stuck.terminate_resources, Some("quiesce-failed"));
    assert_eq!(stuck.admission, AdmissionRelease::Revoke);
    assert!(stuck.delete_leases);
    let gone = settlement_plan(true, AgentRunStatus::Failed, false, false, false);
    assert!(gone.terminate_resources.is_none() && gone.delete_leases);
    let legacy = settlement_plan(false, AgentRunStatus::Succeeded, true, true, false);
    assert_eq!(legacy.terminate_resources, Some("legacy-terminal"));
    assert_eq!(legacy.admission, AdmissionRelease::Settle);
    let legacy_failed = settlement_plan(false, AgentRunStatus::Failed, true, false, false);
    assert_eq!(legacy_failed.admission, AdmissionRelease::Revoke);
    assert!(legacy_failed.terminate_resources.is_none());
    let no_usage = settlement_plan(false, AgentRunStatus::Succeeded, false, false, false);
    assert_eq!(no_usage.admission, AdmissionRelease::Revoke);
}
