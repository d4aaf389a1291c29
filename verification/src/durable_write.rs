//! Durable write tracking for the phases of a turn.
//!
//! Every persistent write of the turn coordinator is recorded with its
//! outcome. A turn counts as durable only when no recorded write failed.

use vstd::prelude::*;

verus! {

/// Which phase of the turn lifecycle produced a write result.
#[derive(Debug, Clone, Copy, PartialEq, Eq, Structural)]
pub enum WritePhase {
    SessionCreate,
    UserMessage,
    ToolCall,
    ToolResult,
    ContextProjection,
    TerminalFlush,
    ContextFragment,
}

/// The stable wire label of a phase.
pub open spec fn phase_label(phase: WritePhase) -> Seq<char> {
    match phase {
        WritePhase::SessionCreate => "session_create"@,
        WritePhase::UserMessage => "user_message"@,
        WritePhase::ToolCall => "tool_call"@,
        WritePhase::ToolResult => "tool_result"@,
        WritePhase::ContextProjection => "context_projection"@,
        WritePhase::TerminalFlush => "terminal_flush"@,
        WritePhase::ContextFragment => "context_fragment"@,
    }
}

impl WritePhase {
    /// The stable label of this phase (what its textual form prints).
    pub fn to_string(&self) -> (label: String)
        ensures
            label@ == phase_label(*self),
    {
        match self {
            WritePhase::SessionCreate => "session_create".to_owned(),
            WritePhase::UserMessage => "user_message".to_owned(),
            WritePhase::ToolCall => "tool_call".to_owned(),
            WritePhase::ToolResult => "tool_result".to_owned(),
            WritePhase::ContextProjection => "context_projection".to_owned(),
            WritePhase::TerminalFlush => "terminal_flush".to_owned(),
            WritePhase::ContextFragment => "context_fragment".to_owned(),
        }
    }
}

/// Outcome of a single bounded write.
#[derive(Debug, Clone)]
pub enum WriteResult {
    /// Write succeeded and data is durable.
    Succeeded,
    /// Write failed with a bounded error. The turn is then not durable and
    /// its active index entry must stay for the recovery scan.
    Failed { reason: String, phase: WritePhase },
}

impl WriteResult {
    pub open spec fn spec_is_failed(&self) -> bool {
        self is Failed
    }

    /// True for a failed write.
    pub fn is_failed(&self) -> (failed: bool)
        ensures
            failed == self.spec_is_failed(),
    {
        match self {
            WriteResult::Failed { .. } => true,
            WriteResult::Succeeded => false,
        }
    }
}

/// Accumulator for per-turn write outcomes, in the order they were recorded.
#[derive(Debug, Clone)]
pub struct TurnWriteTracker {
    results: Vec<WriteResult>,
}

impl View for TurnWriteTracker {
    type V = Seq<WriteResult>;

    closed spec fn view(&self) -> Seq<WriteResult> {
        self.results@
    }
}

/// Whether every write in `results` succeeded.
pub open spec fn all_writes_succeeded(results: Seq<WriteResult>) -> bool {
    forall|i: int| 0 <= i < results.len() ==> !(#[trigger] results[i]).spec_is_failed()
}

impl TurnWriteTracker {
    /// An empty tracker.
    pub fn new() -> (tracker: Self)
        ensures
            tracker@ == Seq::<WriteResult>::empty(),
    {
        TurnWriteTracker { results: Vec::with_capacity(8) }
    }

    /// Record one more write outcome.
    pub fn record(&mut self, result: WriteResult)
        ensures
            final(self)@ == old(self)@.push(result),
    {
        self.results.push(result);
    }

    /// True when every recorded write succeeded; a single failure is enough
    /// to mark the turn as not durable.
    pub fn all_succeeded(&self) -> (ok: bool)
        ensures
            ok == all_writes_succeeded(self@),
    {
        let mut i: usize = 0;
        while i < self.results.len()
            invariant
                0 <= i <= self.results.len(),
                forall|j: int| 0 <= j < i ==> !(#[trigger] self.results@[j]).spec_is_failed(),
            decreases self.results.len() - i,
        {
            if self.results[i].is_failed() {
                return false;
            }
            i = i + 1;
        }
        true
    }

    /// The recorded outcomes, in recording order.
    pub fn into_results(self) -> (results: Vec<WriteResult>)
        ensures
            results@ == self@,
    {
        self.results
    }
}

impl Default for TurnWriteTracker {
    fn default() -> (tracker: Self)
        ensures
            tracker@ == Seq::<WriteResult>::empty(),
    {
        TurnWriteTracker { results: Vec::new() }
    }
}

#[verifier::external_type_specification]
#[verifier::external_body]
pub struct ExAnyhowError(anyhow::Error);

/// Renders an `anyhow::Error` with its whole chain of causes, as its
/// alternate `Display` form (`{:#}`) does. Nothing is claimed of the text.
#[verifier::external_body]
fn render_error_chain(error: &anyhow::Error) -> String {
    format!("{error:#}")
}

/// Convert an error from an append call into a failed write at `phase`.
pub fn write_failed(error: &anyhow::Error, phase: WritePhase) -> (result: WriteResult)
    ensures
        result matches WriteResult::Failed { phase: p, .. } && p == phase,
{
    WriteResult::Failed { reason: render_error_chain(error), phase }
}

} // verus!
