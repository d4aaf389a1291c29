//! Errors of the Agent control plane.

use vstd::prelude::*;

verus! {

/// The category of an Agent control failure.
#[derive(Debug, Clone, Copy, PartialEq, Eq, Structural)]
pub enum AgentControlErrorKind {
    InvalidRequest,
    NotFound,
    Conflict,
    Capacity,
    Forbidden,
    Timeout,
    Runtime,
    Persistence,
    Terminal,
}

/// An Agent control failure: its category and a bounded human message.
#[derive(Debug, Clone)]
pub struct AgentControlError {
    pub kind: AgentControlErrorKind,
    pub message: String,
}

/// An error of `kind` carrying `message`.
pub fn control_error(kind: AgentControlErrorKind, message: &str) -> (error: AgentControlError)
    ensures
        error.kind == kind,
        error.message@ == message@,
{
    AgentControlError { kind, message: message.to_owned() }
}

} // verus!
