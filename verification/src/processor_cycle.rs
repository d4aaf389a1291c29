//! The decisions of a conscious cycle between its calls: which step comes
//! next (or whether the deadline ends it), how a processor's reply to a
//! broadcast is judged, and which of its candidates count as admitted.

use vstd::prelude::*;
use vstd::string::StringExecFns;
use crate::agent_control::VisibilityScope;
use crate::conscious::CandidateAdmissionStatus;
use crate::text::{take_at_most, truncate};

verus! {

/// The health a processor reports, or is given, for one broadcast.
#[derive(Debug, Clone, Copy, PartialEq, Eq, Structural)]
pub enum ProcessorHealth {
    Healthy,
    Degraded,
    Failed,
    TimedOut,
}

/// A processor's reply to a broadcast: who answered, the health it
/// reports, why the response failed validation (if it did), the visibility
/// of each candidate it proposes, and its detail.
#[derive(Debug, Clone)]
pub struct ProcessorReply {
    pub processor: String,
    pub health: ProcessorHealth,
    pub invalid: Option<String>,
    pub visibilities: Vec<VisibilityScope>,
    pub detail: Option<String>,
}

/// How a reply is taken: the health recorded, whether the processor's own
/// candidates are kept, and the detail recorded.
#[derive(Debug, Clone)]
pub struct ProcessorVerdict {
    pub health: ProcessorHealth,
    pub keeps_candidates: bool,
    pub detail: Option<String>,
}

/// Characters of a failure detail at most.
pub const MAX_DETAIL_CHARS: usize = 4096;

/// The judgement of a processor's reply (`None` when it missed its
/// deadline): a missed deadline times out; a reply from another processor,
/// one that fails validation, or one proposing a candidate more visible
/// than the processor's registration fails, with a detail saying why and no
/// candidates; any other reply stands as the processor gave it.
pub open spec fn verdict_of(
    expected: Seq<char>,
    registered: VisibilityScope,
    reply: Option<ProcessorReply>,
) -> (ProcessorHealth, bool, Option<Seq<char>>) {
    match reply {
        None => (ProcessorHealth::TimedOut, false, Some("processor deadline exceeded"@)),
        Some(r) => if r.processor@ != expected {
            (ProcessorHealth::Failed, false, Some("processor response identity mismatch"@))
        } else {
            match r.invalid {
                Some(error) => (
                    ProcessorHealth::Failed,
                    false,
                    Some(take_at_most("invalid processor response: "@ + error@, MAX_DETAIL_CHARS as int)),
                ),
                None => if exists|i: int|
                    0 <= i < r.visibilities@.len() && #[trigger] r.visibilities@[i] != registered {
                    (
                        ProcessorHealth::Failed,
                        false,
                        Some("processor response visibility exceeds registration"@),
                    )
                } else {
                    (
                        r.health,
                        true,
                        match r.detail {
                            Some(d) => Some(d@),
                            None => None,
                        },
                    )
                },
            }
        },
    }
}

pub open spec fn verdict_view(v: ProcessorVerdict) -> (ProcessorHealth, bool, Option<Seq<char>>) {
    (
        v.health,
        v.keeps_candidates,
        match v.detail {
            Some(d) => Some(d@),
            None => None,
        },
    )
}

fn all_within(visibilities: &Vec<VisibilityScope>, registered: VisibilityScope) -> (within: bool)
    ensures
        within == !(exists|i: int|
            0 <= i < visibilities@.len() && #[trigger] visibilities@[i] != registered),
{
    let mut i: usize = 0;
    while i < visibilities.len()
        invariant
            0 <= i <= visibilities@.len(),
            forall|j: int| 0 <= j < i ==> visibilities@[j] == registered,
        decreases visibilities@.len() - i,
    {
        if visibilities[i] != registered {
            return false;
        }
        i = i + 1;
    }
    true
}

/// Judges the reply of processor `expected`, registered for candidates of
/// visibility `registered` (see `verdict_of`).
pub fn processor_status(
    expected: &String,
    registered: VisibilityScope,
    reply: &Option<ProcessorReply>,
) -> (verdict: ProcessorVerdict)
    ensures
        verdict_view(verdict) == verdict_of(expected@, registered, *reply),
{
    match reply {
        None => ProcessorVerdict {
            health: ProcessorHealth::TimedOut,
            keeps_candidates: false,
            detail: Some("processor deadline exceeded".to_owned()),
        },
        Some(r) => {
            if !(r.processor == *expected) {
                return ProcessorVerdict {
                    health: ProcessorHealth::Failed,
                    keeps_candidates: false,
                    detail: Some("processor response identity mismatch".to_owned()),
                };
            }
            match &r.invalid {
                Some(error) => {
                    let mut text = "invalid processor response: ".to_owned();
                    text.append(error.as_str());
                    ProcessorVerdict {
                        health: ProcessorHealth::Failed,
                        keeps_candidates: false,
                        detail: Some(truncate(text.as_str(), MAX_DETAIL_CHARS)),
                    }
                },
                None => {
                    if !all_within(&r.visibilities, registered) {
                        return ProcessorVerdict {
                            health: ProcessorHealth::Failed,
                            keeps_candidates: false,
                            detail: Some(
                                "processor response visibility exceeds registration".to_owned(),
                            ),
                        };
                    }
                    ProcessorVerdict {
                        health: r.health,
                        keeps_candidates: true,
                        detail: r.detail.clone(),
                    }
                },
            }
        },
    }
}

/// Whether the candidates of a response in `health` are submitted: only a
/// healthy or degraded processor's are.
pub fn submits_candidates(health: ProcessorHealth) -> (submits: bool)
    ensures
        submits == (health is Healthy || health is Degraded),
{
    match health {
        ProcessorHealth::Healthy | ProcessorHealth::Degraded => true,
        _ => false,
    }
}

/// The ids of `receipts` whose candidate was accepted, in order.
pub open spec fn accepted_ids(receipts: Seq<(u128, CandidateAdmissionStatus)>) -> Seq<u128>
    decreases receipts.len(),
{
    if receipts.len() == 0 {
        Seq::empty()
    } else {
        let rest = accepted_ids(receipts.drop_last());
        if receipts.last().1 == CandidateAdmissionStatus::Accepted {
            rest.push(receipts.last().0)
        } else {
            rest
        }
    }
}

/// The candidates a processor had admitted: those whose submission was
/// accepted (a duplicate or a refusal is not counted).
pub fn admitted_candidates(receipts: &Vec<(u128, CandidateAdmissionStatus)>) -> (admitted: Vec<u128>)
    ensures
        admitted@ == accepted_ids(receipts@),
{
    let mut admitted: Vec<u128> = Vec::new();
    let mut i: usize = 0;
    while i < receipts.len()
        invariant
            0 <= i <= receipts@.len(),
            admitted@ == accepted_ids(receipts@.take(i as int)),
        decreases receipts@.len() - i,
    {
        proof {
            assert(receipts@.take(i + 1).drop_last() =~= receipts@.take(i as int));
            assert(receipts@.take(i + 1).last() == receipts@[i as int]);
        }
        let (id, status) = receipts[i];
        if status == CandidateAdmissionStatus::Accepted {
            admitted.push(id);
        }
        i = i + 1;
    }
    proof {
        assert(receipts@.take(receipts@.len() as int) =~= receipts@);
    }
    admitted
}

/// How far a conscious cycle has come.
#[derive(Debug, Clone, Copy, PartialEq, Eq, Structural)]
pub enum CycleStage {
    /// Opened; nothing selected yet.
    Opened,
    /// The pool made its selection.
    Selected,
    /// The selection was broadcast.
    Broadcast,
}

/// What a cycle does next.
#[derive(Debug, Clone, Copy, PartialEq, Eq, Structural)]
pub enum CycleStep {
    /// Fails with "conscious cycle deadline exceeded".
    DeadlineExceeded,
    /// Remodulates pending candidates, reads the self view and selects.
    Select,
    /// Records that nothing ignited and ends the cycle without a broadcast.
    RecordNoIgnition,
    /// Broadcasts the selection under the next workspace version.
    BroadcastSelection,
    /// Integrates the broadcast, submits derived candidates and delivers
    /// the broadcast to the processors.
    IntegrateAndDeliver,
}

/// The next step of a cycle at `stage`: the deadline is checked before
/// selecting, before broadcasting and before integrating; an empty selection
/// ends the cycle without a broadcast, before any deadline check.
pub open spec fn next_step(stage: CycleStage, deadline_expired: bool, selection_empty: bool) -> CycleStep {
    match stage {
        CycleStage::Opened => if deadline_expired {
            CycleStep::DeadlineExceeded
        } else {
            CycleStep::Select
        },
        CycleStage::Selected => if selection_empty {
            CycleStep::RecordNoIgnition
        } else if deadline_expired {
            CycleStep::DeadlineExceeded
        } else {
            CycleStep::BroadcastSelection
        },
        CycleStage::Broadcast => if deadline_expired {
            CycleStep::DeadlineExceeded
        } else {
            CycleStep::IntegrateAndDeliver
        },
    }
}

/// The next step of a cycle (see `next_step`); `selection_empty` matters
/// once the pool selected.
pub fn cycle_step(stage: CycleStage, deadline_expired: bool, selection_empty: bool) -> (step: CycleStep)
    ensures
        step == next_step(stage, deadline_expired, selection_empty),
{
    match stage {
        CycleStage::Opened => if deadline_expired {
            CycleStep::DeadlineExceeded
        } else {
            CycleStep::Select
        },
        CycleStage::Selected => if selection_empty {
            CycleStep::RecordNoIgnition
        } else if deadline_expired {
            CycleStep::DeadlineExceeded
        } else {
            CycleStep::BroadcastSelection
        },
        CycleStage::Broadcast => if deadline_expired {
            CycleStep::DeadlineExceeded
        } else {
            CycleStep::IntegrateAndDeliver
        },
    }
}

/// The workspace version after a broadcast: one more, held at the top.
pub fn next_workspace_version(version: u64) -> (next: u64)
    ensures
        next == if version == u64::MAX {
            version
        } else {
            (version + 1) as u64
        },
{
    version.saturating_add(1)
}

} // verus!
