//! The decisions a child run's life takes between the calls that set it up,
//! run it and tear it down: what a failed spawn step undoes, what a failed
//! start cleans up, how the runtime's outcome is classified and finished,
//! and how the admission and the leases of an ended run are settled.

use vstd::prelude::*;
use crate::agent_control::RuntimeOutcome;
use crate::agent_status::AgentRunStatus;
use crate::control_error::AgentControlErrorKind;

verus! {

/// The step of a spawn that failed, in the order the steps run.
#[derive(Debug, Clone, Copy, PartialEq, Eq, Structural)]
pub enum SpawnStep {
    SpawnProcess,
    InspectProcess,
    SetOverlay,
    SubmitOperation,
    RegisterMailbox,
    RegisterMemory,
    PersistRun,
    PutLeases,
    InsertLive,
}

/// What the error of a failed spawn is.
#[derive(Debug, Clone, Copy, PartialEq, Eq, Structural)]
pub enum SpawnFailureError {
    /// A runtime error carrying the failing kernel call's message.
    FromKernel,
    /// The failing step's own error, as it reported it.
    AsReported,
    /// A conflict: the Agent already has a live runtime.
    DuplicateLive,
}

/// What a spawn undoes after a failed step: the operation it cancels (and
/// why), whether it terminates the process (with `exit_reason`, or the
/// failing call's message when that is `None`), whether it revokes the
/// admission explicitly, and the error it returns. Without an explicit
/// revoke the admission lease is released when it is dropped.
#[derive(Debug, Clone, Copy)]
pub struct SpawnRollback {
    pub cancel_operation: Option<&'static str>,
    pub terminate_process: bool,
    pub exit_reason: Option<&'static str>,
    pub revoke_admission: bool,
    pub error: SpawnFailureError,
}

/// The rollback of each failed spawn step: nothing exists but the admission
/// before the process is spawned; the process is terminated once it exists;
/// the operation is cancelled once it was submitted, at the steps that clean
/// up after themselves (mailbox registration, persisting the run, a
/// duplicate live runtime). Registering the child's memory and putting its
/// leases report their own error and undo nothing explicitly.
pub open spec fn rollback_of(failed: SpawnStep) -> SpawnRollback {
    match failed {
        SpawnStep::SpawnProcess => SpawnRollback {
            cancel_operation: None,
            terminate_process: false,
            exit_reason: None,
            revoke_admission: true,
            error: SpawnFailureError::FromKernel,
        },
        SpawnStep::InspectProcess | SpawnStep::SetOverlay | SpawnStep::SubmitOperation => SpawnRollback {
            cancel_operation: None,
            terminate_process: true,
            exit_reason: None,
            revoke_admission: true,
            error: SpawnFailureError::FromKernel,
        },
        SpawnStep::RegisterMailbox => SpawnRollback {
            cancel_operation: Some("mailbox setup failed"),
            terminate_process: true,
            exit_reason: None,
            revoke_admission: true,
            error: SpawnFailureError::FromKernel,
        },
        SpawnStep::RegisterMemory | SpawnStep::PutLeases => SpawnRollback {
            cancel_operation: None,
            terminate_process: false,
            exit_reason: None,
            revoke_admission: false,
            error: SpawnFailureError::AsReported,
        },
        SpawnStep::PersistRun => SpawnRollback {
            cancel_operation: Some("Agent persistence failed"),
            terminate_process: true,
            exit_reason: None,
            revoke_admission: true,
            error: SpawnFailureError::AsReported,
        },
        SpawnStep::InsertLive => SpawnRollback {
            cancel_operation: Some("duplicate live Agent"),
            terminate_process: true,
            exit_reason: Some("duplicate live Agent"),
            revoke_admission: true,
            error: SpawnFailureError::DuplicateLive,
        },
    }
}

/// What a spawn undoes when `failed` fails (see `rollback_of`).
pub fn spawn_rollback(failed: SpawnStep) -> (rollback: SpawnRollback)
    ensures
        rollback == rollback_of(failed),
{
    match failed {
        SpawnStep::SpawnProcess => SpawnRollback {
            cancel_operation: None,
            terminate_process: false,
            exit_reason: None,
            revoke_admission: true,
            error: SpawnFailureError::FromKernel,
        },
        SpawnStep::InspectProcess | SpawnStep::SetOverlay | SpawnStep::SubmitOperation => SpawnRollback {
            cancel_operation: None,
            terminate_process: true,
            exit_reason: None,
            revoke_admission: true,
            error: SpawnFailureError::FromKernel,
        },
        SpawnStep::RegisterMailbox => SpawnRollback {
            cancel_operation: Some("mailbox setup failed"),
            terminate_process: true,
            exit_reason: None,
            revoke_admission: true,
            error: SpawnFailureError::FromKernel,
        },
        SpawnStep::RegisterMemory | SpawnStep::PutLeases => SpawnRollback {
            cancel_operation: None,
            terminate_process: false,
            exit_reason: None,
            revoke_admission: false,
            error: SpawnFailureError::AsReported,
        },
        SpawnStep::PersistRun => SpawnRollback {
            cancel_operation: Some("Agent persistence failed"),
            terminate_process: true,
            exit_reason: None,
            revoke_admission: true,
            error: SpawnFailureError::AsReported,
        },
        SpawnStep::InsertLive => SpawnRollback {
            cancel_operation: Some("duplicate live Agent"),
            terminate_process: true,
            exit_reason: Some("duplicate live Agent"),
            revoke_admission: true,
            error: SpawnFailureError::DuplicateLive,
        },
    }
}

impl SpawnFailureError {
    /// The kind of the error returned, and its fixed message where it has
    /// one (the other errors carry the failing call's message).
    pub fn kind(&self) -> (kind: (Option<AgentControlErrorKind>, Option<&'static str>))
        ensures
            kind == match *self {
                SpawnFailureError::FromKernel => (Some(AgentControlErrorKind::Runtime), None),
                SpawnFailureError::AsReported => (None, None),
                SpawnFailureError::DuplicateLive => (
                    Some(AgentControlErrorKind::Conflict),
                    Some("Agent already has a live runtime"),
                ),
            },
    {
        match self {
            SpawnFailureError::FromKernel => (Some(AgentControlErrorKind::Runtime), None),
            SpawnFailureError::AsReported => (None, None),
            SpawnFailureError::DuplicateLive => (
                Some(AgentControlErrorKind::Conflict),
                Some("Agent already has a live runtime"),
            ),
        }
    }
}

/// `a + b`, held within the range of `i64`.
pub open spec fn saturating_i64(a: int, b: int) -> int {
    if a + b > i64::MAX {
        i64::MAX as int
    } else if a + b < i64::MIN {
        i64::MIN as int
    } else {
        a + b
    }
}

/// When the leases of a child created at `created_at_ms` expire: after its
/// elapsed-time budget (reinterpreted as `i64`, as the original's cast
/// does), saturating at the ends of `i64`.
pub fn lease_expiry(created_at_ms: i64, max_elapsed_ms: u64) -> (expiry: i64)
    ensures
        expiry == saturating_i64(created_at_ms as int, (max_elapsed_ms as i64) as int),
{
    let budget: i64 = max_elapsed_ms as i64;
    match created_at_ms.checked_add(budget) {
        Some(sum) => sum,
        None => if budget > 0 {
            i64::MAX
        } else {
            i64::MIN
        },
    }
}

/// The step of a run's start that failed.
#[derive(Debug, Clone, Copy, PartialEq, Eq, Structural)]
pub enum RunStartFailure {
    /// Starting the process or its operation, or making it active.
    Start,
    /// Recording the run as running.
    RunningTransition,
    /// Moving the admission lease to running.
    MarkRunning,
}

/// What a failed start cleans up: whether the queued run is recorded as
/// failed, the operation it cancels (and why), whether it terminates the
/// process and revokes the admission, and whether the live run is removed.
#[derive(Debug, Clone, Copy)]
pub struct RunCleanup {
    pub record_failed: bool,
    pub cancel_operation: Option<&'static str>,
    pub terminate_process: bool,
    pub revoke_admission: bool,
    pub remove_live: bool,
}

/// The cleanup of each failed start: every one terminates the process,
/// revokes the admission and removes the live run; a failed start records
/// the run as failed and cancels the operation, a failed transition to
/// running cancels the operation, and a failed move of the lease cancels
/// nothing.
pub open spec fn cleanup_of(failure: RunStartFailure) -> RunCleanup {
    match failure {
        RunStartFailure::Start => RunCleanup {
            record_failed: true,
            cancel_operation: Some("Agent start failed"),
            terminate_process: true,
            revoke_admission: true,
            remove_live: true,
        },
        RunStartFailure::RunningTransition => RunCleanup {
            record_failed: false,
            cancel_operation: Some("Agent state failed"),
            terminate_process: true,
            revoke_admission: true,
            remove_live: true,
        },
        RunStartFailure::MarkRunning => RunCleanup {
            record_failed: false,
            cancel_operation: None,
            terminate_process: true,
            revoke_admission: true,
            remove_live: true,
        },
    }
}

/// The cleanup of a failed start (see `cleanup_of`).
pub fn start_failure_cleanup(failure: RunStartFailure) -> (cleanup: RunCleanup)
    ensures
        cleanup == cleanup_of(failure),
{
    match failure {
        RunStartFailure::Start => RunCleanup {
            record_failed: true,
            cancel_operation: Some("Agent start failed"),
            terminate_process: true,
            revoke_admission: true,
            remove_live: true,
        },
        RunStartFailure::RunningTransition => RunCleanup {
            record_failed: false,
            cancel_operation: Some("Agent state failed"),
            terminate_process: true,
            revoke_admission: true,
            remove_live: true,
        },
        RunStartFailure::MarkRunning => RunCleanup {
            record_failed: false,
            cancel_operation: None,
            terminate_process: true,
            revoke_admission: true,
            remove_live: true,
        },
    }
}

/// The outcome of a runtime launch: no error is a completed run, a
/// `Terminal` error a cancellation, any other error a failure; the error's
/// message is kept.
pub fn classify_outcome(error_kind: Option<AgentControlErrorKind>, message: String) -> (outcome:
    RuntimeOutcome)
    ensures
        outcome == match error_kind {
            None => RuntimeOutcome::Completed,
            Some(AgentControlErrorKind::Terminal) => RuntimeOutcome::Cancelled { message },
            Some(_) => RuntimeOutcome::Failed { message },
        },
{
    match error_kind {
        None => RuntimeOutcome::Completed,
        Some(AgentControlErrorKind::Terminal) => RuntimeOutcome::Cancelled { message },
        Some(_) => RuntimeOutcome::Failed { message },
    }
}

/// How the operation of an ended run is finished.
#[derive(Debug, Clone, PartialEq, Eq)]
pub enum OperationFinish {
    Succeed,
    CancelByUser,
    Fail { message: String },
}

/// The operation of a run that ended in `status`: succeeded, cancelled by
/// the user, or failed with the run's error (or a generic message); a run
/// in any other status leaves it as it is.
pub fn operation_finish(status: AgentRunStatus, error: Option<String>) -> (finish: Option<
    OperationFinish,
>)
    ensures
        match status {
            AgentRunStatus::Succeeded => finish == Some(OperationFinish::Succeed),
            AgentRunStatus::Cancelled => finish == Some(OperationFinish::CancelByUser),
            AgentRunStatus::Failed => finish matches Some(OperationFinish::Fail { message }) && message@
                == match error {
                Some(e) => e@,
                None => "Agent runtime failed"@,
            },
            _ => finish is None,
        },
{
    match status {
        AgentRunStatus::Succeeded => Some(OperationFinish::Succeed),
        AgentRunStatus::Cancelled => Some(OperationFinish::CancelByUser),
        AgentRunStatus::Failed => {
            let message = match error {
                Some(e) => e,
                None => "Agent runtime failed".to_owned(),
            };
            Some(OperationFinish::Fail { message })
        },
        _ => None,
    }
}

/// How a settlement ends, by the run's terminal status.
#[derive(Debug, Clone, Copy, PartialEq, Eq, Structural)]
pub enum SettlementTerminal {
    Completed,
    Cancelled,
    Failed,
    Recoverable,
}

/// Succeeded runs complete, cancelled ones are cancelled, failed ones fail
/// (with "Agent runtime failed"), and any other status stays recoverable.
pub fn settlement_terminal(status: AgentRunStatus) -> (terminal: SettlementTerminal)
    ensures
        terminal == match status {
            AgentRunStatus::Succeeded => SettlementTerminal::Completed,
            AgentRunStatus::Cancelled => SettlementTerminal::Cancelled,
            AgentRunStatus::Failed => SettlementTerminal::Failed,
            _ => SettlementTerminal::Recoverable,
        },
{
    match status {
        AgentRunStatus::Succeeded => SettlementTerminal::Completed,
        AgentRunStatus::Cancelled => SettlementTerminal::Cancelled,
        AgentRunStatus::Failed => SettlementTerminal::Failed,
        _ => SettlementTerminal::Recoverable,
    }
}

/// How an ended run's admission lease is let go.
#[derive(Debug, Clone, Copy, PartialEq, Eq, Structural)]
pub enum AdmissionRelease {
    /// Settled against the run's usage.
    Settle,
    /// Revoked whole.
    Revoke,
    /// Handed to the settlement state machine (transferred to the parent
    /// or settled there).
    ThroughSettlement,
}

/// How an ended run is settled: the managed resources it terminates first
/// (with the label prefix of the reason), how the admission is let go,
/// whether its three leases are deleted here, and whether the settlement
/// state machine runs.
#[derive(Debug, Clone, Copy)]
pub struct SettlementPlan {
    pub terminate_resources: Option<&'static str>,
    pub admission: AdmissionRelease,
    pub delete_leases: bool,
    pub run_settlement: bool,
}

/// The settlement of an ended run. With settlement enabled, a live run
/// whose resources quiesced is handed to the settlement state machine; one
/// that did not quiesce has its resources terminated (`quiesce-failed`),
/// its admission revoked and its leases deleted; without a live run the
/// admission is revoked and the leases deleted. With settlement disabled,
/// every managed resource of a live run is terminated (`legacy-terminal`),
/// the admission is settled when the run succeeded with a usage report and
/// revoked otherwise, and the leases are deleted.
pub open spec fn plan_of(
    enabled: bool,
    status: AgentRunStatus,
    has_usage: bool,
    live_found: bool,
    quiesced: bool,
) -> SettlementPlan {
    if enabled {
        if live_found && quiesced {
            SettlementPlan {
                terminate_resources: None,
                admission: AdmissionRelease::ThroughSettlement,
                delete_leases: false,
                run_settlement: true,
            }
        } else if live_found {
            SettlementPlan {
                terminate_resources: Some("quiesce-failed"),
                admission: AdmissionRelease::Revoke,
                delete_leases: true,
                run_settlement: false,
            }
        } else {
            SettlementPlan {
                terminate_resources: None,
                admission: AdmissionRelease::Revoke,
                delete_leases: true,
                run_settlement: false,
            }
        }
    } else {
        SettlementPlan {
            terminate_resources: if live_found {
                Some("legacy-terminal")
            } else {
                None
            },
            admission: if has_usage && status == AgentRunStatus::Succeeded {
                AdmissionRelease::Settle
            } else {
                AdmissionRelease::Revoke
            },
            delete_leases: true,
            run_settlement: false,
        }
    }
}

/// The settlement of an ended run (see `plan_of`); `quiesced` matters only
/// for a live run with settlement enabled.
pub fn settlement_plan(
    enabled: bool,
    status: AgentRunStatus,
    has_usage: bool,
    live_found: bool,
    quiesced: bool,
) -> (plan: SettlementPlan)
    ensures
        plan == plan_of(enabled, status, has_usage, live_found, quiesced),
{
    if enabled {
        if live_found && quiesced {
            SettlementPlan {
                terminate_resources: None,
                admission: AdmissionRelease::ThroughSettlement,
                delete_leases: false,
                run_settlement: true,
            }
        } else if live_found {
            SettlementPlan {
                terminate_resources: Some("quiesce-failed"),
                admission: AdmissionRelease::Revoke,
                delete_leases: true,
                run_settlement: false,
            }
        } else {
            SettlementPlan {
                terminate_resources: None,
                admission: AdmissionRelease::Revoke,
                delete_leases: true,
                run_settlement: false,
            }
        }
    } else {
        let succeeded = match status {
            AgentRunStatus::Succeeded => true,
            _ => false,
        };
        SettlementPlan {
            terminate_resources: if live_found {
                Some("legacy-terminal")
            } else {
                None
            },
            admission: if has_usage && succeeded {
                AdmissionRelease::Settle
            } else {
                AdmissionRelease::Revoke
            },
            delete_leases: true,
            run_settlement: false,
        }
    }
}


/// With settlement enabled, a live run whose resources quiesced is always
/// handed to the settlement state machine, whatever its terminal status or
/// usage: nothing is terminated, the admission goes through the settlement
/// and the leases stay for it. In every plan the leases are deleted here
/// exactly when the state machine does not run, resources are terminated
/// only for a live run that was not handed to it, and an admission is
/// settled against usage only without settlement, for a run that succeeded
/// with a usage report.
pub proof fn law_settlement_paths(
    enabled: bool,
    status: AgentRunStatus,
    has_usage: bool,
    live_found: bool,
    quiesced: bool,
)
    ensures
        ({
            let plan = plan_of(true, status, has_usage, true, true);
            &&& plan.run_settlement
            &&& plan.admission == AdmissionRelease::ThroughSettlement
            &&& plan.terminate_resources is None
            &&& !plan.delete_leases
        }),
        ({
            let plan = plan_of(enabled, status, has_usage, live_found, quiesced);
            &&& plan.delete_leases == !plan.run_settlement
            &&& plan.run_settlement == (enabled && live_found && quiesced)
            &&& (plan.terminate_resources is Some) == (live_found && !plan.run_settlement)
            &&& (plan.admission == AdmissionRelease::Settle) == (!enabled && has_usage && status
                == AgentRunStatus::Succeeded)
        }),
{
}

} // verus!
