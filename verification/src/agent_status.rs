//! Agent run lifecycle and the wire names under which runs, resource
//! leases and message deliveries are persisted.

use vstd::prelude::*;
use vstd::string::StringExecFns;
use crate::control_error::{AgentControlError, AgentControlErrorKind, control_error};

verus! {

/// Lifecycle status of an Agent run.
#[derive(Debug, Clone, Copy, PartialEq, Eq, Structural)]
pub enum AgentRunStatus {
    Queued,
    Running,
    Waiting,
    Succeeded,
    Failed,
    Cancelled,
    Interrupted,
}

/// The permitted status transitions: a queued run starts or ends without
/// running; a running run may wait and resume; a running or waiting run
/// ends in any terminal status.
pub open spec fn spec_can_transition(from: AgentRunStatus, to: AgentRunStatus) -> bool {
    match (from, to) {
        (AgentRunStatus::Queued, AgentRunStatus::Running) => true,
        (AgentRunStatus::Queued, AgentRunStatus::Cancelled) => true,
        (AgentRunStatus::Queued, AgentRunStatus::Failed) => true,
        (AgentRunStatus::Queued, AgentRunStatus::Interrupted) => true,
        (AgentRunStatus::Running, AgentRunStatus::Waiting) => true,
        (AgentRunStatus::Waiting, AgentRunStatus::Running) => true,
        (AgentRunStatus::Running, AgentRunStatus::Succeeded) => true,
        (AgentRunStatus::Running, AgentRunStatus::Failed) => true,
        (AgentRunStatus::Running, AgentRunStatus::Cancelled) => true,
        (AgentRunStatus::Running, AgentRunStatus::Interrupted) => true,
        (AgentRunStatus::Waiting, AgentRunStatus::Succeeded) => true,
        (AgentRunStatus::Waiting, AgentRunStatus::Failed) => true,
        (AgentRunStatus::Waiting, AgentRunStatus::Cancelled) => true,
        (AgentRunStatus::Waiting, AgentRunStatus::Interrupted) => true,
        _ => false,
    }
}

/// Terminal statuses: nothing follows them.
pub open spec fn is_terminal(status: AgentRunStatus) -> bool {
    status is Succeeded || status is Failed || status is Cancelled || status is Interrupted
}

pub fn can_transition(from: AgentRunStatus, to: AgentRunStatus) -> (allowed: bool)
    ensures
        allowed == spec_can_transition(from, to),
{
    match (from, to) {
        (AgentRunStatus::Queued, AgentRunStatus::Running) => true,
        (AgentRunStatus::Queued, AgentRunStatus::Cancelled) => true,
        (AgentRunStatus::Queued, AgentRunStatus::Failed) => true,
        (AgentRunStatus::Queued, AgentRunStatus::Interrupted) => true,
        (AgentRunStatus::Running, AgentRunStatus::Waiting) => true,
        (AgentRunStatus::Waiting, AgentRunStatus::Running) => true,
        (AgentRunStatus::Running, AgentRunStatus::Succeeded) => true,
        (AgentRunStatus::Running, AgentRunStatus::Failed) => true,
        (AgentRunStatus::Running, AgentRunStatus::Cancelled) => true,
        (AgentRunStatus::Running, AgentRunStatus::Interrupted) => true,
        (AgentRunStatus::Waiting, AgentRunStatus::Succeeded) => true,
        (AgentRunStatus::Waiting, AgentRunStatus::Failed) => true,
        (AgentRunStatus::Waiting, AgentRunStatus::Cancelled) => true,
        (AgentRunStatus::Waiting, AgentRunStatus::Interrupted) => true,
        _ => false,
    }
}

/// Persisted name of a status.
pub open spec fn status_label(status: AgentRunStatus) -> Seq<char> {
    match status {
        AgentRunStatus::Queued => "queued"@,
        AgentRunStatus::Running => "running"@,
        AgentRunStatus::Waiting => "waiting"@,
        AgentRunStatus::Succeeded => "succeeded"@,
        AgentRunStatus::Failed => "failed"@,
        AgentRunStatus::Cancelled => "cancelled"@,
        AgentRunStatus::Interrupted => "interrupted"@,
    }
}

pub fn status_wire(status: AgentRunStatus) -> (name: &'static str)
    ensures
        name@ == status_label(status),
{
    match status {
        AgentRunStatus::Queued => "queued",
        AgentRunStatus::Running => "running",
        AgentRunStatus::Waiting => "waiting",
        AgentRunStatus::Succeeded => "succeeded",
        AgentRunStatus::Failed => "failed",
        AgentRunStatus::Cancelled => "cancelled",
        AgentRunStatus::Interrupted => "interrupted",
    }
}

/// Whether two texts are equal.
fn same_text(a: &str, b: &str) -> (same: bool)
    ensures
        same == (a@ == b@),
{
    a.to_owned() == b.to_owned()
}

/// `prefix` followed by `value`.
fn joined(prefix: &str, value: &str) -> (text: String)
    ensures
        text@ == prefix@ + value@,
{
    let mut text = prefix.to_owned();
    text.append(value);
    text
}

/// Parses a persisted status name.
pub fn parse_status_text(value: &str) -> (parsed: Result<AgentRunStatus, AgentControlError>)
    ensures
        match parsed {
            Ok(status) => status_label(status) == value@,
            Err(e) => (forall|s: AgentRunStatus| #[trigger] status_label(s) != value@) && e.kind
                == AgentControlErrorKind::Persistence && e.message@
                == "unknown persisted Agent status: "@ + value@,
        },
{
    if same_text(value, "queued") {
        Ok(AgentRunStatus::Queued)
    } else if same_text(value, "running") {
        Ok(AgentRunStatus::Running)
    } else if same_text(value, "waiting") {
        Ok(AgentRunStatus::Waiting)
    } else if same_text(value, "succeeded") {
        Ok(AgentRunStatus::Succeeded)
    } else if same_text(value, "failed") {
        Ok(AgentRunStatus::Failed)
    } else if same_text(value, "cancelled") {
        Ok(AgentRunStatus::Cancelled)
    } else if same_text(value, "interrupted") {
        Ok(AgentRunStatus::Interrupted)
    } else {
        Err(
            AgentControlError {
                kind: AgentControlErrorKind::Persistence,
                message: joined("unknown persisted Agent status: ", value),
            },
        )
    }
}

/// Different statuses have different persisted names.
pub proof fn law_status_names_distinct(a: AgentRunStatus, b: AgentRunStatus)
    ensures
        status_label(a) == status_label(b) ==> a == b,
{
    reveal_strlit("queued");
    reveal_strlit("running");
    reveal_strlit("waiting");
    reveal_strlit("succeeded");
    reveal_strlit("failed");
    reveal_strlit("cancelled");
    reveal_strlit("interrupted");
    if status_label(a) == status_label(b) && a != b {
        assert(status_label(a).len() == status_label(b).len());
        assert(status_label(a)[0] == status_label(b)[0]);
        assert(status_label(a)[1] == status_label(b)[1]);
    }
}

/// Kind of a durable Agent resource lease.
#[derive(Debug, Clone, Copy, PartialEq, Eq, Structural)]
pub enum AgentResourceLeaseKind {
    Admission,
    Mailbox,
    Execution,
    Worktree,
}

/// Persisted name of a lease kind.
pub open spec fn lease_kind_label(kind: AgentResourceLeaseKind) -> Seq<char> {
    match kind {
        AgentResourceLeaseKind::Admission => "admission"@,
        AgentResourceLeaseKind::Mailbox => "mailbox"@,
        AgentResourceLeaseKind::Execution => "execution"@,
        AgentResourceLeaseKind::Worktree => "worktree"@,
    }
}

pub fn lease_kind_wire(kind: AgentResourceLeaseKind) -> (name: &'static str)
    ensures
        name@ == lease_kind_label(kind),
{
    match kind {
        AgentResourceLeaseKind::Admission => "admission",
        AgentResourceLeaseKind::Mailbox => "mailbox",
        AgentResourceLeaseKind::Execution => "execution",
        AgentResourceLeaseKind::Worktree => "worktree",
    }
}

/// Parses a persisted lease kind.
pub fn parse_lease_kind(value: &str) -> (parsed: Result<AgentResourceLeaseKind, AgentControlError>)
    ensures
        match parsed {
            Ok(kind) => lease_kind_label(kind) == value@,
            Err(e) => (forall|k: AgentResourceLeaseKind| #[trigger] lease_kind_label(k) != value@)
                && e.kind == AgentControlErrorKind::Persistence && e.message@
                == "invalid resource lease kind"@,
        },
{
    if same_text(value, "admission") {
        Ok(AgentResourceLeaseKind::Admission)
    } else if same_text(value, "mailbox") {
        Ok(AgentResourceLeaseKind::Mailbox)
    } else if same_text(value, "execution") {
        Ok(AgentResourceLeaseKind::Execution)
    } else if same_text(value, "worktree") {
        Ok(AgentResourceLeaseKind::Worktree)
    } else {
        Err(control_error(AgentControlErrorKind::Persistence, "invalid resource lease kind"))
    }
}

/// Different lease kinds have different persisted names.
pub proof fn law_lease_kind_names_distinct(a: AgentResourceLeaseKind, b: AgentResourceLeaseKind)
    ensures
        lease_kind_label(a) == lease_kind_label(b) ==> a == b,
{
    reveal_strlit("admission");
    reveal_strlit("mailbox");
    reveal_strlit("execution");
    reveal_strlit("worktree");
    if lease_kind_label(a) == lease_kind_label(b) && a != b {
        assert(lease_kind_label(a).len() == lease_kind_label(b).len());
        assert(lease_kind_label(a)[0] == lease_kind_label(b)[0]);
    }
}

/// Delivery state of an Agent message.
#[derive(Debug, Clone, Copy, PartialEq, Eq, Structural)]
pub enum AgentMessageDeliveryState {
    Pending,
    Delivered,
    Rejected,
}

/// Persisted name of a delivery state.
pub open spec fn delivery_label(state: AgentMessageDeliveryState) -> Seq<char> {
    match state {
        AgentMessageDeliveryState::Pending => "pending"@,
        AgentMessageDeliveryState::Delivered => "delivered"@,
        AgentMessageDeliveryState::Rejected => "rejected"@,
    }
}

pub fn delivery_wire(state: AgentMessageDeliveryState) -> (name: &'static str)
    ensures
        name@ == delivery_label(state),
{
    match state {
        AgentMessageDeliveryState::Pending => "pending",
        AgentMessageDeliveryState::Delivered => "delivered",
        AgentMessageDeliveryState::Rejected => "rejected",
    }
}

/// Parses a persisted delivery state.
pub fn parse_delivery(value: &str) -> (parsed: Result<AgentMessageDeliveryState, AgentControlError>)
    ensures
        match parsed {
            Ok(state) => delivery_label(state) == value@,
            Err(e) => (forall|s: AgentMessageDeliveryState| #[trigger] delivery_label(s) != value@)
                && e.kind == AgentControlErrorKind::Persistence && e.message@
                == "invalid Agent message delivery state"@,
        },
{
    if same_text(value, "pending") {
        Ok(AgentMessageDeliveryState::Pending)
    } else if same_text(value, "delivered") {
        Ok(AgentMessageDeliveryState::Delivered)
    } else if same_text(value, "rejected") {
        Ok(AgentMessageDeliveryState::Rejected)
    } else {
        Err(
            control_error(
                AgentControlErrorKind::Persistence,
                "invalid Agent message delivery state",
            ),
        )
    }
}

/// Different delivery states have different persisted names.
pub proof fn law_delivery_names_distinct(a: AgentMessageDeliveryState, b: AgentMessageDeliveryState)
    ensures
        delivery_label(a) == delivery_label(b) ==> a == b,
{
    reveal_strlit("pending");
    reveal_strlit("delivered");
    reveal_strlit("rejected");
    if delivery_label(a) == delivery_label(b) && a != b {
        assert(delivery_label(a)[0] == delivery_label(b)[0]);
    }
}

/// Kind of an Agent message.
#[derive(Debug, Clone, Copy, PartialEq, Eq, Structural)]
pub enum AgentMessageKind {
    Input,
    Progress,
    Result,
    Signal,
    Request,
    Response,
}

/// Persisted name of a message kind.
pub open spec fn message_kind_label(kind: AgentMessageKind) -> Seq<char> {
    match kind {
        AgentMessageKind::Input => "input"@,
        AgentMessageKind::Progress => "progress"@,
        AgentMessageKind::Result => "result"@,
        AgentMessageKind::Signal => "signal"@,
        AgentMessageKind::Request => "request"@,
        AgentMessageKind::Response => "response"@,
    }
}

pub fn message_kind_wire(kind: &AgentMessageKind) -> (name: &'static str)
    ensures
        name@ == message_kind_label(*kind),
{
    match kind {
        AgentMessageKind::Input => "input",
        AgentMessageKind::Progress => "progress",
        AgentMessageKind::Result => "result",
        AgentMessageKind::Signal => "signal",
        AgentMessageKind::Request => "request",
        AgentMessageKind::Response => "response",
    }
}

/// Nothing follows a terminal status, and only `Running` and `Waiting`
/// alternate.
pub proof fn law_terminal_statuses_are_final(from: AgentRunStatus, to: AgentRunStatus)
    ensures
        is_terminal(from) ==> !spec_can_transition(from, to),
        spec_can_transition(from, to) ==> !(to is Queued),
        spec_can_transition(from, to) && spec_can_transition(to, from) ==> (from is Running
            && to is Waiting) || (from is Waiting && to is Running),
{
}


/// A run that is running or waiting may end in every terminal status, a
/// queued run may start, and a queued run may end in every terminal status
/// but success (it never ran).
pub proof fn law_terminal_statuses_are_reachable(to: AgentRunStatus)
    ensures
        is_terminal(to) ==> spec_can_transition(AgentRunStatus::Running, to),
        is_terminal(to) ==> spec_can_transition(AgentRunStatus::Waiting, to),
        is_terminal(to) && !(to is Succeeded) ==> spec_can_transition(AgentRunStatus::Queued, to),
        spec_can_transition(AgentRunStatus::Queued, AgentRunStatus::Running),
        !spec_can_transition(AgentRunStatus::Queued, AgentRunStatus::Succeeded),
{
}

} // verus!
