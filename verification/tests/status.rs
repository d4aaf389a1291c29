use executive::agent_status::{
    can_transition, delivery_wire, lease_kind_wire, message_kind_wire, parse_delivery,
    parse_lease_kind, parse_status_text, status_wire, AgentMessageDeliveryState, AgentMessageKind,
    AgentResourceLeaseKind, AgentRunStatus,
};
use executive::control_error::{control_error, AgentControlErrorKind};

const STATUSES: [AgentRunStatus; 7] = [
    AgentRunStatus::Queued,
    AgentRunStatus::Running,
    AgentRunStatus::Waiting,
    AgentRunStatus::Succeeded,
    AgentRunStatus::Failed,
    AgentRunStatus::Cancelled,
    AgentRunStatus::Interrupted,
];

#[test]
fn status_names_round_trip() {
    for status in STATUSES {
        assert_eq!(parse_status_text(status_wire(status)).unwrap(), status);
    }
    assert_eq!(status_wire(AgentRunStatus::Cancelled), "cancelled");
    let err = parse_status_text("paused").unwrap_err();
    assert_eq!(err.kind, AgentControlErrorKind::Persistence);
    assert_eq!(err.message, "unknown persisted Agent status: paused");
}

#[test]
fn terminal_statuses_have_no_successor() {
    for from in [
        AgentRunStatus::Succeeded,
        AgentRunStatus::Failed,
        AgentRunStatus::Cancelled,
        AgentRunStatus::Interrupted,
    ] {
        for to in STATUSES {
            assert!(!can_transition(from, to));
        }
    }
    assert!(can_transition(AgentRunStatus::Queued, AgentRunStatus::Running));
    assert!(can_transition(AgentRunStatus::Running, AgentRunStatus::Waiting));
    assert!(can_transition(AgentRunStatus::Waiting, AgentRunStatus::Running));
    assert!(!can_transition(AgentRunStatus::Queued, AgentRunStatus::Succeeded));
    assert!(!can_transition(AgentRunStatus::Running, AgentRunStatus::Queued));
}

#[test]
fn lease_kind_and_delivery_names_round_trip() {
    for kind in [
        AgentResourceLeaseKind::Admission,
        AgentResourceLeaseKind::Mailbox,
        AgentResourceLeaseKind::Execution,
        AgentResourceLeaseKind::Worktree,
    ] {
        assert_eq!(parse_lease_kind(lease_kind_wire(kind)).unwrap(), kind);
    }
    assert_eq!(parse_lease_kind("disk").unwrap_err().message, "invalid resource lease kind");
    for state in [
        AgentMessageDeliveryState::Pending,
        AgentMessageDeliveryState::Delivered,
        AgentMessageDeliveryState::Rejected,
    ] {
        assert_eq!(parse_delivery(delivery_wire(state)).unwrap(), state);
    }
    assert_eq!(
        parse_delivery("lost").unwrap_err().message,
        "invalid Agent message delivery state"
    );
    assert_eq!(message_kind_wire(&AgentMessageKind::Response), "response");
    assert_eq!(message_kind_wire(&AgentMessageKind::Input), "input");
}

#[test]
fn control_errors_carry_kind_and_message() {
    let err = control_error(AgentControlErrorKind::Timeout, "too slow");
    assert_eq!(err.kind, AgentControlErrorKind::Timeout);
    assert_eq!(err.message, "too slow");
}
