//! How a daemon turn is admitted: directly, or through the durable prompt
//! queue when that is enabled.

use vstd::prelude::*;

verus! {

/// Admission path of a turn.
#[derive(Debug, Clone, Copy, PartialEq, Eq, Structural)]
pub enum PromptAdmissionMode {
    Direct,
    Queued,
}

/// Turns go through the prompt queue exactly when it is enabled.
pub fn prompt_admission_mode(enabled: bool) -> (mode: PromptAdmissionMode)
    ensures
        mode == (if enabled {
            PromptAdmissionMode::Queued
        } else {
            PromptAdmissionMode::Direct
        }),
{
    if enabled {
        PromptAdmissionMode::Queued
    } else {
        PromptAdmissionMode::Direct
    }
}

} // verus!
