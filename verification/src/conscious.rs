//! Care modulation of governed actions, and the outcome of a workspace
//! candidate submission.
//!
//! The modulation is pure: the latest care decision plus the thresholded
//! self-relevance and urgency of the conscious state decide it, and the
//! action's risk prior only sharpens a hold. It never widens authority.

use vstd::prelude::*;
use vstd::string::{StringExecFns, StringSliceAdditionalSpecFns};
use crate::context::{decimal, decimal_text};
use crate::context_assembly::{blank, is_blank};
use crate::ids::{name_based_uuid, uuid_string, uuid_text, uuid_v5};
use vstd::string::StrSliceExecFns;
use vstd::utf8::encode_utf8;

verus! {

broadcast use vstd::string::group_string_axioms;

/// What a modulation evaluation would do to the action.
#[derive(Debug, Clone, Copy, PartialEq, Eq, Structural)]
pub enum ModulationRecommendation {
    /// Let the action run unchanged.
    Proceed,
    /// Would raise this action's priority relative to competing concerns.
    Reorder,
    /// Would hold the action for later (soft, recoverable).
    Defer,
    /// Would withhold the action (strongest hold short of a security denial).
    Veto,
}

impl ModulationRecommendation {
    /// True when the recommendation would change execution under
    /// enforcement: every outcome but `Proceed`.
    pub fn is_modulating(self) -> (modulating: bool)
        ensures
            modulating == !(self is Proceed),
    {
        !matches!(self, ModulationRecommendation::Proceed)
    }
}

/// The mode a modulation ran in.
#[derive(Debug, Clone, Copy, PartialEq, Eq, Structural)]
pub enum ModulationMode {
    ObserveOnly,
    Enforce,
}

/// The care decision currently expressed by the conscious state.
#[derive(Debug, Clone, Copy, PartialEq, Eq, Structural)]
pub enum CareAction {
    Negate,
    Wait,
    Deliberate,
    Direct,
}

/// The thresholded signals a modulation reads: whether the action's risk
/// prior is at least system-modifying, and where self-relevance and
/// urgency (each in 0..=1) stand against the 0.3 and 0.7 thresholds.
#[derive(Debug, Clone, Copy, PartialEq, Eq, Structural)]
pub struct ModulationSignals {
    /// The risk prior is system-modifying or worse.
    pub high_risk: bool,
    /// Self-relevance is below 0.3.
    pub self_relevance_low: bool,
    /// Self-relevance is at least 0.7.
    pub self_relevance_high: bool,
    /// Urgency is below 0.3.
    pub urgency_low: bool,
    /// Urgency is at least 0.7.
    pub urgency_high: bool,
}

/// The recommendation for a care decision and the signals.
pub open spec fn spec_recommend(care: Option<CareAction>, signals: ModulationSignals) -> ModulationRecommendation {
    match care {
        Some(CareAction::Negate) => if signals.high_risk && signals.self_relevance_low {
            ModulationRecommendation::Veto
        } else {
            ModulationRecommendation::Defer
        },
        Some(CareAction::Wait) => if signals.urgency_low {
            ModulationRecommendation::Defer
        } else {
            ModulationRecommendation::Proceed
        },
        Some(CareAction::Deliberate) => if signals.urgency_high && signals.self_relevance_high {
            ModulationRecommendation::Reorder
        } else {
            ModulationRecommendation::Proceed
        },
        _ => ModulationRecommendation::Proceed,
    }
}

/// Computes the modulation recommendation: `Negate` holds (withholds when
/// the action is high-risk and not self-relevant), `Wait` holds a
/// low-urgency action, `Deliberate` reorders when the state is both urgent
/// and self-relevant, and anything else proceeds.
pub fn recommend(care: Option<CareAction>, signals: ModulationSignals) -> (recommendation:
    ModulationRecommendation)
    ensures
        recommendation == spec_recommend(care, signals),
        care is None || care == Some(CareAction::Direct) ==> recommendation
            == ModulationRecommendation::Proceed,
        recommendation == ModulationRecommendation::Veto ==> care == Some(CareAction::Negate)
            && signals.high_risk,
{
    match care {
        Some(CareAction::Negate) => {
            if signals.high_risk && signals.self_relevance_low {
                ModulationRecommendation::Veto
            } else {
                ModulationRecommendation::Defer
            }
        },
        Some(CareAction::Wait) => {
            if signals.urgency_low {
                ModulationRecommendation::Defer
            } else {
                ModulationRecommendation::Proceed
            }
        },
        Some(CareAction::Deliberate) => {
            if signals.urgency_high && signals.self_relevance_high {
                ModulationRecommendation::Reorder
            } else {
                ModulationRecommendation::Proceed
            }
        },
        _ => ModulationRecommendation::Proceed,
    }
}

/// The outcome of submitting a candidate to the workspace.
#[derive(Debug, Clone, Copy, PartialEq, Eq, Structural)]
pub enum CandidateAdmissionStatus {
    Accepted,
    Duplicate,
    RejectedCapacity,
    RejectedSourceQuota,
    RejectedWrongSpace,
    RejectedInvalid,
}

/// The domain processors that feed the workspace.
#[derive(Debug, Clone, Copy, PartialEq, Eq, Structural)]
pub enum ProcessorKind {
    Dasein,
    Cognit,
}

impl ProcessorKind {
    /// The stable identifier of the processor.
    pub fn id(&self) -> (id: &'static str)
        ensures
            id@ == match *self {
                ProcessorKind::Dasein => "dasein"@,
                ProcessorKind::Cognit => "cognit"@,
            },
    {
        match self {
            ProcessorKind::Dasein => "dasein",
            ProcessorKind::Cognit => "cognit",
        }
    }
}

/// What caused a candidate to be submitted to the workspace.
#[derive(Debug, Clone)]
pub enum CandidateCause {
    /// An outside event, by reference.
    ExternalObservation { event_ref: String },
    /// A processor answering the broadcast of `source_epoch`.
    ProcessorResponse { processor: String, source_epoch: u64 },
    /// A transition of the self-model.
    DaseinTransition { event_id: u128, version: u64 },
    /// The outcome of a governed capability call.
    GovernedActionOutcome { permit_id: String, operation_id: u128 },
}

/// The source reference a candidate with this cause must carry.
pub open spec fn required_ref(cause: CandidateCause) -> Seq<char> {
    match cause {
        CandidateCause::ExternalObservation { event_ref } => event_ref@,
        CandidateCause::ProcessorResponse { source_epoch, .. } => "broadcast_epoch:"@ + decimal(
            source_epoch as nat,
        ),
        CandidateCause::DaseinTransition { event_id, version } => "dasein:"@ + uuid_text(event_id)
            + ":v"@ + decimal(version as nat),
        CandidateCause::GovernedActionOutcome { permit_id, operation_id } => "capability:"@
            + permit_id@ + ":"@ + uuid_text(operation_id),
    }
}

/// Why a candidate submission is refused.
#[derive(Debug, Clone, Copy, PartialEq, Eq, Structural)]
pub enum SubmissionRefusal {
    /// The candidate itself failed its validation.
    InvalidCandidate,
    /// The processor id failed its validation.
    InvalidProcessor,
    /// "external event reference is invalid"
    ExternalEventRef,
    /// "capability permit reference is invalid"
    PermitRef,
    /// "processor submission lacks source broadcast reference"
    MissingBroadcastRef,
    /// "processor submission lacks processor identity reference"
    MissingProcessorRef,
    /// "candidate submission lacks its causal source reference"
    MissingSourceRef,
}

/// Why a cause is invalid: an external reference must be non-blank and at
/// most 32 KiB, a permit reference non-blank and at most 1 KiB, and a
/// processor id must pass its own validation (`processor_valid`).
pub open spec fn cause_refusal(cause: CandidateCause, processor_valid: bool) -> Option<SubmissionRefusal> {
    match cause {
        CandidateCause::ExternalObservation { event_ref } => if is_blank(event_ref@)
            || vstd::utf8::encode_utf8(event_ref@).len() > 32 * 1024 {
            Some(SubmissionRefusal::ExternalEventRef)
        } else {
            None
        },
        CandidateCause::ProcessorResponse { .. } => if processor_valid {
            None
        } else {
            Some(SubmissionRefusal::InvalidProcessor)
        },
        CandidateCause::DaseinTransition { .. } => None,
        CandidateCause::GovernedActionOutcome { permit_id, .. } => if is_blank(permit_id@)
            || vstd::utf8::encode_utf8(permit_id@).len() > 1024 {
            Some(SubmissionRefusal::PermitRef)
        } else {
            None
        },
    }
}

impl CandidateCause {
    /// The source reference a candidate with this cause must carry.
    pub fn required_source_ref(&self) -> (reference: String)
        ensures
            reference@ == required_ref(*self),
    {
        match self {
            CandidateCause::ExternalObservation { event_ref } => event_ref.clone(),
            CandidateCause::ProcessorResponse { source_epoch, .. } => {
                let mut text = "broadcast_epoch:".to_owned();
                text.append(decimal_text(*source_epoch).as_str());
                text
            },
            CandidateCause::DaseinTransition { event_id, version } => {
                let mut text = "dasein:".to_owned();
                text.append(uuid_string(*event_id).as_str());
                text.append(":v");
                text.append(decimal_text(*version).as_str());
                text
            },
            CandidateCause::GovernedActionOutcome { permit_id, operation_id } => {
                let mut text = "capability:".to_owned();
                text.append(permit_id.as_str());
                text.append(":");
                text.append(uuid_string(*operation_id).as_str());
                text
            },
        }
    }

    /// Checks the cause (see `cause_refusal`); `processor_valid` is the
    /// outcome of the processor id's own validation.
    pub fn validate(&self, processor_valid: bool) -> (outcome: Result<(), SubmissionRefusal>)
        ensures
            match cause_refusal(*self, processor_valid) {
                None => outcome is Ok,
                Some(r) => outcome == Err::<(), SubmissionRefusal>(r),
            },
    {
        match self {
            CandidateCause::ExternalObservation { event_ref } => {
                if blank(event_ref.as_str()) || event_ref.as_str().as_bytes().len() > 32 * 1024 {
                    return Err(SubmissionRefusal::ExternalEventRef);
                }
            },
            CandidateCause::ProcessorResponse { .. } => {
                if !processor_valid {
                    return Err(SubmissionRefusal::InvalidProcessor);
                }
            },
            CandidateCause::DaseinTransition { .. } => {},
            CandidateCause::GovernedActionOutcome { permit_id, .. } => {
                if blank(permit_id.as_str()) || permit_id.as_str().as_bytes().len() > 1024 {
                    return Err(SubmissionRefusal::PermitRef);
                }
            },
        }
        Ok(())
    }
}

/// Whether `refs` holds `r`.
pub open spec fn has_ref(refs: Seq<String>, r: Seq<char>) -> bool {
    exists|i: int| 0 <= i < refs.len() && (#[trigger] refs[i])@ == r
}

fn contains_ref(refs: &Vec<String>, r: &String) -> (found: bool)
    ensures
        found == has_ref(refs@, r@),
{
    let mut i: usize = 0;
    while i < refs.len()
        invariant
            0 <= i <= refs@.len(),
            forall|j: int| 0 <= j < i ==> (#[trigger] refs@[j])@ != r@,
        decreases refs@.len() - i,
    {
        if refs[i] == *r {
            return true;
        }
        i = i + 1;
    }
    false
}

/// Why a submission is refused, checked in order: the candidate, the
/// cause, then the source references the candidate's provenance must
/// carry. A processor response must name the broadcast it answers
/// (`broadcast:<space>:<epoch>`) and the processor (`processor:<id>`); any
/// other cause its required source reference.
pub open spec fn submission_refusal(
    candidate_valid: bool,
    space: Seq<char>,
    source_refs: Seq<String>,
    cause: CandidateCause,
    processor_valid: bool,
) -> Option<SubmissionRefusal> {
    if !candidate_valid {
        Some(SubmissionRefusal::InvalidCandidate)
    } else if cause_refusal(cause, processor_valid) is Some {
        cause_refusal(cause, processor_valid)
    } else {
        match cause {
            CandidateCause::ProcessorResponse { processor, source_epoch } => if !has_ref(
                source_refs,
                "broadcast:"@ + space + ":"@ + decimal(source_epoch as nat),
            ) {
                Some(SubmissionRefusal::MissingBroadcastRef)
            } else if !has_ref(source_refs, "processor:"@ + processor@) {
                Some(SubmissionRefusal::MissingProcessorRef)
            } else {
                None
            },
            _ => if !has_ref(source_refs, required_ref(cause)) {
                Some(SubmissionRefusal::MissingSourceRef)
            } else {
                None
            },
        }
    }
}

/// Checks a candidate submission (see `submission_refusal`):
/// `candidate_valid` is the outcome of the candidate's own validation,
/// `space` its workspace and `source_refs` the references of its
/// provenance.
pub fn validate_submission(
    candidate_valid: bool,
    space: &str,
    source_refs: &Vec<String>,
    cause: &CandidateCause,
    processor_valid: bool,
) -> (outcome: Result<(), SubmissionRefusal>)
    ensures
        match submission_refusal(candidate_valid, space@, source_refs@, *cause, processor_valid) {
            None => outcome is Ok,
            Some(r) => outcome == Err::<(), SubmissionRefusal>(r),
        },
{
    if !candidate_valid {
        return Err(SubmissionRefusal::InvalidCandidate);
    }
    match cause.validate(processor_valid) {
        Err(r) => {
            return Err(r);
        },
        Ok(()) => {},
    }
    match cause {
        CandidateCause::ProcessorResponse { processor, source_epoch } => {
            let mut full = "broadcast:".to_owned();
            full.append(space);
            full.append(":");
            full.append(decimal_text(*source_epoch).as_str());
            if !contains_ref(source_refs, &full) {
                return Err(SubmissionRefusal::MissingBroadcastRef);
            }
            let mut identity = "processor:".to_owned();
            identity.append(processor.as_str());
            if !contains_ref(source_refs, &identity) {
                return Err(SubmissionRefusal::MissingProcessorRef);
            }
            Ok(())
        },
        _ => {
            let required = cause.required_source_ref();
            if !contains_ref(source_refs, &required) {
                return Err(SubmissionRefusal::MissingSourceRef);
            }
            Ok(())
        },
    }
}

/// Whether item `a` comes before item `b`: a higher priority key first,
/// the provider's order among equal keys.
pub open spec fn comes_before(p: Seq<(String, i32)>, a: int, b: int) -> bool {
    p[a].1 > p[b].1 || (p[a].1 == p[b].1 && a < b)
}

/// `order` lists every position of `p` once, in priority order.
pub open spec fn is_priority_order(p: Seq<(String, i32)>, order: Seq<int>) -> bool {
    &&& order.len() == p.len()
    &&& forall|i: int| 0 <= i < order.len() ==> 0 <= #[trigger] order[i] < p.len()
    &&& forall|i: int, j: int|
        0 <= i < j < order.len() ==> #[trigger] order[i] != #[trigger] order[j]
    &&& forall|i: int, j: int|
        0 <= i < j < order.len() ==> comes_before(p, #[trigger] order[i], #[trigger] order[j])
}

/// The names of `priorities` ordered by descending priority, keeping the
/// provider's order among equal priorities. Each priority is given by its
/// total-order key (the key by which `f32::total_cmp` orders it), which the
/// caller computes after checking that the priority is finite and within
/// `[0, 1]`.
pub fn stable_priority_order(priorities: &Vec<(String, i32)>) -> (names: Vec<String>)
    ensures
        exists|order: Seq<int>|
            is_priority_order(priorities@, order) && names@.len() == order.len() && forall|i: int|
                0 <= i < order.len() ==> (#[trigger] names@[i])@ == priorities@[order[i]].0@,
{
    let ghost p = priorities@;
    let mut order: Vec<usize> = Vec::new();
    let mut i: usize = 0;
    while i < priorities.len()
        invariant
            p == priorities@,
            0 <= i <= p.len(),
            order@.len() == i,
            forall|a: int| 0 <= a < order@.len() ==> #[trigger] order@[a] < i,
            forall|a: int, b: int|
                0 <= a < b < order@.len() ==> #[trigger] order@[a] != #[trigger] order@[b],
            forall|a: int, b: int|
                0 <= a < b < order@.len() ==> comes_before(
                    p,
                    #[trigger] order@[a] as int,
                    #[trigger] order@[b] as int,
                ),
        decreases p.len() - i,
    {
        let key = priorities[i].1;
        let mut k: usize = 0;
        while k < order.len() && priorities[order[k]].1 >= key
            invariant
                p == priorities@,
                0 <= k <= order@.len(),
                i < p.len(),
                key == p[i as int].1,
                forall|a: int| 0 <= a < order@.len() ==> #[trigger] order@[a] < i,
                forall|a: int| 0 <= a < k ==> p[#[trigger] order@[a] as int].1 >= key,
            decreases order@.len() - k,
        {
            k = k + 1;
        }
        let ghost before = order@;
        proof {
            assert forall|b: int| k <= b < before.len() implies p[#[trigger] before[b] as int].1
                < key by {
                if b > k {
                    assert(comes_before(p, before[k as int] as int, before[b] as int));
                }
            }
        }
        order.insert(k, i);
        proof {
            assert forall|a: int| 0 <= a < order@.len() implies #[trigger] order@[a] < i + 1 by {
                if a < k {
                    assert(order@[a] == before[a]);
                } else if a > k {
                    assert(order@[a] == before[a - 1]);
                }
            }
            assert forall|a: int, b: int|
                0 <= a < b < order@.len() implies #[trigger] order@[a] != #[trigger] order@[b] by {
                if a != k && b != k {
                    let a2 = if a < k {
                        a
                    } else {
                        a - 1
                    };
                    let b2 = if b < k {
                        b
                    } else {
                        b - 1
                    };
                    assert(order@[a] == before[a2]);
                    assert(order@[b] == before[b2]);
                } else if a == k {
                    assert(order@[b] == before[b - 1]);
                } else {
                    assert(order@[a] == before[a]);
                }
            }
            assert forall|a: int, b: int|
                0 <= a < b < order@.len() implies comes_before(
                p,
                #[trigger] order@[a] as int,
                #[trigger] order@[b] as int,
            ) by {
                if a != k && b != k {
                    let a2 = if a < k {
                        a
                    } else {
                        a - 1
                    };
                    let b2 = if b < k {
                        b
                    } else {
                        b - 1
                    };
                    assert(order@[a] == before[a2]);
                    assert(order@[b] == before[b2]);
                } else if a == k {
                    assert(order@[b] == before[b - 1]);
                } else {
                    assert(order@[a] == before[a]);
                }
            }
        }
        i = i + 1;
    }
    let mut names: Vec<String> = Vec::new();
    let mut j: usize = 0;
    while j < order.len()
        invariant
            p == priorities@,
            order@.len() == p.len(),
            forall|a: int| 0 <= a < order@.len() ==> #[trigger] order@[a] < p.len(),
            0 <= j <= order@.len(),
            names@.len() == j,
            forall|a: int| 0 <= a < j ==> (#[trigger] names@[a])@ == p[order@[a] as int].0@,
        decreases order@.len() - j,
    {
        names.push(priorities[order[j]].0.clone());
        j = j + 1;
    }
    let ghost order_int = order@.map_values(|x: usize| x as int);
    proof {
        assert(is_priority_order(p, order_int));
        assert(forall|a: int| 0 <= a < order_int.len() ==> (#[trigger] names@[a])@
            == p[order_int[a]].0@);
    }
    names
}

/// What the field decides for a call: run it (at the place the provider
/// gave it), move it within its batch, or hold it back.
#[derive(Debug, Clone, Copy, PartialEq, Eq, Structural)]
pub enum FieldDecisionKind {
    Proceed,
    Reorder,
    Defer,
}

/// Whether `j` is the first place of `ids` that names `id`.
pub open spec fn first_at(ids: Seq<String>, id: Seq<char>, j: int) -> bool {
    &&& 0 <= j < ids.len()
    &&& ids[j]@ == id
    &&& forall|m: int| 0 <= m < j ==> (#[trigger] ids[m])@ != id
}

/// The decision for each call of a batch once `ordered` is known: a call
/// proceeds when `ordered` first names it at its original place, and is
/// reordered otherwise.
pub fn batch_decisions(call_ids: &Vec<String>, ordered: &Vec<String>) -> (decisions: Vec<
    FieldDecisionKind,
>)
    ensures
        decisions@.len() == call_ids@.len(),
        forall|i: int|
            0 <= i < call_ids@.len() ==> #[trigger] decisions@[i] == if first_at(
                ordered@,
                call_ids@[i]@,
                i,
            ) {
                FieldDecisionKind::Proceed
            } else {
                FieldDecisionKind::Reorder
            },
{
    let mut decisions: Vec<FieldDecisionKind> = Vec::new();
    let mut i: usize = 0;
    while i < call_ids.len()
        invariant
            0 <= i <= call_ids@.len(),
            decisions@.len() == i,
            forall|a: int|
                0 <= a < i ==> #[trigger] decisions@[a] == if first_at(ordered@, call_ids@[a]@, a) {
                    FieldDecisionKind::Proceed
                } else {
                    FieldDecisionKind::Reorder
                },
        decreases call_ids@.len() - i,
    {
        let mut j: usize = 0;
        while j < ordered.len() && !(ordered[j] == call_ids[i])
            invariant
                0 <= j <= ordered@.len(),
                i < call_ids@.len(),
                forall|m: int| 0 <= m < j ==> (#[trigger] ordered@[m])@ != call_ids@[i as int]@,
            decreases ordered@.len() - j,
        {
            j = j + 1;
        }
        let decision = if j == i && j < ordered.len() {
            FieldDecisionKind::Proceed
        } else {
            FieldDecisionKind::Reorder
        };
        proof {
            if j < ordered@.len() && j != i {
                if first_at(ordered@, call_ids@[i as int]@, i as int) {
                    if (i as int) < (j as int) {
                        assert(ordered@[i as int]@ != call_ids@[i as int]@);
                    } else {
                        assert(ordered@[j as int]@ == call_ids@[i as int]@);
                    }
                }
            }
        }
        decisions.push(decision);
        i = i + 1;
    }
    decisions
}

/// Whether the metric snapshots of a field hold one for `epoch`, and the
/// position of the latest such one.
pub open spec fn latest_with_epoch(snapshots: Seq<(u64, String)>, epoch: u64) -> Option<int>
    decreases snapshots.len(),
{
    if snapshots.len() == 0 {
        None
    } else if snapshots.last().0 == epoch {
        Some(snapshots.len() - 1)
    } else {
        latest_with_epoch(snapshots.drop_last(), epoch)
    }
}

/// The reference a trace gives for the field metric of `epoch`: the trace
/// event of the latest snapshot of that epoch when it names one, otherwise
/// `broadcast:<space>:<epoch>`.
pub open spec fn metric_reference(snapshots: Seq<(u64, String)>, space: Seq<char>, epoch: u64) -> Seq<
    char,
> {
    match latest_with_epoch(snapshots, epoch) {
        Some(i) if !is_blank(snapshots[i].1@) => snapshots[i].1@,
        _ => "broadcast:"@ + space + ":"@ + decimal(epoch as nat),
    }
}

/// The metric reference of `epoch` (see `metric_reference`); each
/// snapshot is given by its broadcast epoch and trace event id.
pub fn metric_ref(snapshots: &Vec<(u64, String)>, space: &str, epoch: u64) -> (reference: String)
    ensures
        reference@ == metric_reference(snapshots@, space@, epoch),
{
    let mut n: usize = snapshots.len();
    proof {
        assert(snapshots@.take(n as int) =~= snapshots@);
    }
    while n > 0 && snapshots[n - 1].0 != epoch
        invariant
            0 <= n <= snapshots@.len(),
            latest_with_epoch(snapshots@, epoch) == latest_with_epoch(snapshots@.take(n as int), epoch),
        decreases n,
    {
        proof {
            assert(snapshots@.take(n as int).drop_last() =~= snapshots@.take(n - 1));
        }
        n = n - 1;
    }
    if n > 0 {
        proof {
            assert(snapshots@.take(n as int).last() == snapshots@[n - 1]);
        }
        if !blank(snapshots[n - 1].1.as_str()) {
            return snapshots[n - 1].1.clone();
        }
    } else {
        proof {
            assert(snapshots@.take(0) =~= Seq::<(u64, String)>::empty());
        }
    }
    let mut reference = "broadcast:".to_owned();
    reference.append(space);
    reference.append(":");
    reference.append(decimal_text(epoch).as_str());
    reference
}

/// Who a workspace entry is attributed to.
#[derive(Debug, Clone, Copy, PartialEq, Eq, Structural)]
pub enum WorkspaceAttribution {
    RootAgent { process: u128 },
    ChildAgent { process: u128 },
}

/// The root agent's own entries are its; every other process is a child.
pub fn attribution(source: u128, root: u128) -> (attributed: WorkspaceAttribution)
    ensures
        attributed == if source == root {
            WorkspaceAttribution::RootAgent { process: source }
        } else {
            WorkspaceAttribution::ChildAgent { process: source }
        },
{
    if source == root {
        WorkspaceAttribution::RootAgent { process: source }
    } else {
        WorkspaceAttribution::ChildAgent { process: source }
    }
}

/// The namespace of the name-based ids of actions and their outcomes.
pub const ACTION_NAMESPACE: u128 = 0xd166_5f2f_f9d1_4e89_b0cf_9867_4c09_3101;

/// The namespace `uuid::Uuid::NAMESPACE_OID` of RFC 9562.
pub const NAMESPACE_OID: u128 = 0x6ba7_b812_9dad_11d1_80b4_00c0_4fd4_30c8;

/// The name an action proposal's id is derived from:
/// `<operation>:<call id>:<capability name>`.
pub open spec fn action_name(operation: u128, call_id: Seq<char>, name: Seq<char>) -> Seq<char> {
    uuid_text(operation) + ":"@ + call_id + ":"@ + name
}

/// The name an action outcome's id is derived from: `outcome:<action>:<permit>`.
pub open spec fn outcome_name(action: u128, permit_id: Seq<char>) -> Seq<char> {
    "outcome:"@ + uuid_text(action) + ":"@ + permit_id
}

/// The content id of the action proposed for capability call `call_id`
/// (named `name`) of `operation`: the name-based UUID of
/// `action_name` in `ACTION_NAMESPACE`, so that the same call always has the
/// same id.
pub fn action_id(operation: u128, call_id: &str, name: &str) -> (id: u128)
    ensures
        id == name_based_uuid(ACTION_NAMESPACE, encode_utf8(action_name(operation, call_id@, name@))),
{
    let mut material = uuid_string(operation);
    material.append(":");
    material.append(call_id);
    material.append(":");
    material.append(name);
    uuid_v5(ACTION_NAMESPACE, material.as_str().as_bytes())
}

/// The content id of the outcome of `action` under permit `permit_id`: the
/// name-based UUID of `outcome_name` in `ACTION_NAMESPACE`.
pub fn outcome_id(action: u128, permit_id: &str) -> (id: u128)
    ensures
        id == name_based_uuid(ACTION_NAMESPACE, encode_utf8(outcome_name(action, permit_id@))),
{
    let mut material = "outcome:".to_owned();
    material.append(uuid_string(action).as_str());
    material.append(":");
    material.append(permit_id);
    uuid_v5(ACTION_NAMESPACE, material.as_str().as_bytes())
}

/// The content id derived from `material`: its name-based UUID in
/// `NAMESPACE_OID`.
pub fn deterministic_content_id(material: &str) -> (id: u128)
    ensures
        id == name_based_uuid(NAMESPACE_OID, encode_utf8(material@)),
{
    uuid_v5(NAMESPACE_OID, material.as_bytes())
}

/// The action the field selected, as its outcome is checked against it.
#[derive(Debug, Clone, Copy, PartialEq, Eq, Structural)]
pub struct SelectedAction {
    pub candidate_id: u128,
    pub broadcast_epoch: u64,
    pub operation_id: u128,
    pub source_process: u128,
    pub attribution: WorkspaceAttribution,
}

/// The capability call whose result is observed.
#[derive(Debug, Clone)]
pub struct ActionCall {
    pub operation_id: u128,
    pub process_id: u128,
    pub call_id: String,
    pub name: String,
}

/// The durable winner the selected candidate names: its workspace, source,
/// producer and operation, and, when it is an action proposal, the call id
/// and summary of the proposal.
#[derive(Debug, Clone)]
pub struct DurableWinner {
    pub space: String,
    pub source: u128,
    pub producer: u128,
    pub operation: Option<u128>,
    pub proposal: Option<(String, String)>,
}

/// Why the outcome of a selected action is refused.
#[derive(Debug, Clone, Copy, PartialEq, Eq, Structural)]
pub enum OutcomeRefusal {
    NoPermit,
    OperationChanged,
    ProcessChanged,
    AnotherProcess,
    AttributionChanged,
    NotDurableWinner,
    AnotherWorkspace,
    ProvenanceChanged,
    NotRequestedAction,
}

impl OutcomeRefusal {
    /// The refusal as the bridge reports it.
    pub fn message(&self) -> (text: &'static str)
        ensures
            text@ == refusal_text(*self),
    {
        match self {
            OutcomeRefusal::NoPermit => "governed capability result has no permit identity",
            OutcomeRefusal::OperationChanged => "selected action operation changed",
            OutcomeRefusal::ProcessChanged => "selected action process changed",
            OutcomeRefusal::AnotherProcess => "selected action belongs to another process",
            OutcomeRefusal::AttributionChanged => "selected action attribution changed",
            OutcomeRefusal::NotDurableWinner => "selected action is not a durable winner",
            OutcomeRefusal::AnotherWorkspace => "selected action belongs to another workspace",
            OutcomeRefusal::ProvenanceChanged => "selected action authority provenance changed",
            OutcomeRefusal::NotRequestedAction => "selected winner is not the requested governed action",
        }
    }
}

pub open spec fn refusal_text(refusal: OutcomeRefusal) -> Seq<char> {
    match refusal {
        OutcomeRefusal::NoPermit => "governed capability result has no permit identity"@,
        OutcomeRefusal::OperationChanged => "selected action operation changed"@,
        OutcomeRefusal::ProcessChanged => "selected action process changed"@,
        OutcomeRefusal::AnotherProcess => "selected action belongs to another process"@,
        OutcomeRefusal::AttributionChanged => "selected action attribution changed"@,
        OutcomeRefusal::NotDurableWinner => "selected action is not a durable winner"@,
        OutcomeRefusal::AnotherWorkspace => "selected action belongs to another workspace"@,
        OutcomeRefusal::ProvenanceChanged => "selected action authority provenance changed"@,
        OutcomeRefusal::NotRequestedAction => "selected winner is not the requested governed action"@,
    }
}

/// The summary of the proposal of a governed call named `name`.
pub open spec fn proposal_summary(name: Seq<char>) -> Seq<char> {
    "invoke governed capability "@ + name
}

/// The first identity check the outcome fails, in the order the bridge
/// makes them: a permit, the same operation and process as the selection,
/// the bridge's own process and attribution (`source` under root `root`), a
/// durable winner, in the bridge's workspace `space`, produced by the
/// bridge for the call's operation, and proposing this very call.
pub open spec fn outcome_refusal(
    permit_id: u128,
    selected: SelectedAction,
    call: ActionCall,
    source: u128,
    root: u128,
    space: Seq<char>,
    durable: Option<DurableWinner>,
) -> Option<OutcomeRefusal> {
    if permit_id == 0 {
        Some(OutcomeRefusal::NoPermit)
    } else if selected.operation_id != call.operation_id {
        Some(OutcomeRefusal::OperationChanged)
    } else if selected.source_process != call.process_id {
        Some(OutcomeRefusal::ProcessChanged)
    } else if selected.source_process != source {
        Some(OutcomeRefusal::AnotherProcess)
    } else if selected.attribution != (if source == root {
        WorkspaceAttribution::RootAgent { process: source }
    } else {
        WorkspaceAttribution::ChildAgent { process: source }
    }) {
        Some(OutcomeRefusal::AttributionChanged)
    } else {
        match durable {
            None => Some(OutcomeRefusal::NotDurableWinner),
            Some(winner) => if winner.space@ != space {
                Some(OutcomeRefusal::AnotherWorkspace)
            } else if !(winner.source == source && winner.producer == source && winner.operation
                == Some(call.operation_id)) {
                Some(OutcomeRefusal::ProvenanceChanged)
            } else {
                match winner.proposal {
                    Some((id, summary)) => if id@ == call.call_id@ && summary@ == proposal_summary(
                        call.name@,
                    ) {
                        None
                    } else {
                        Some(OutcomeRefusal::NotRequestedAction)
                    },
                    None => Some(OutcomeRefusal::NotRequestedAction),
                }
            },
        }
    }
}

/// Checks that the outcome of a governed call belongs to the action the
/// field selected (see `outcome_refusal`); `durable` is what the lookup of
/// the selected winner found.
pub fn check_selected_outcome(
    permit_id: u128,
    selected: &SelectedAction,
    call: &ActionCall,
    source: u128,
    root: u128,
    space: &String,
    durable: &Option<DurableWinner>,
) -> (checked: Result<(), OutcomeRefusal>)
    ensures
        checked == match outcome_refusal(permit_id, *selected, *call, source, root, space@, *durable) {
            Some(refusal) => Err(refusal),
            None => Ok(()),
        },
{
    if permit_id == 0 {
        return Err(OutcomeRefusal::NoPermit);
    }
    if selected.operation_id != call.operation_id {
        return Err(OutcomeRefusal::OperationChanged);
    }
    if selected.source_process != call.process_id {
        return Err(OutcomeRefusal::ProcessChanged);
    }
    if selected.source_process != source {
        return Err(OutcomeRefusal::AnotherProcess);
    }
    if selected.attribution != attribution(source, root) {
        return Err(OutcomeRefusal::AttributionChanged);
    }
    match durable {
        None => Err(OutcomeRefusal::NotDurableWinner),
        Some(winner) => {
            if !(winner.space == *space) {
                return Err(OutcomeRefusal::AnotherWorkspace);
            }
            if !(winner.source == source && winner.producer == source && winner.operation == Some(
                call.operation_id,
            )) {
                return Err(OutcomeRefusal::ProvenanceChanged);
            }
            match &winner.proposal {
                Some((id, summary)) => {
                    let mut expected = "invoke governed capability ".to_owned();
                    expected.append(call.name.as_str());
                    if *id == call.call_id && *summary == expected {
                        Ok(())
                    } else {
                        Err(OutcomeRefusal::NotRequestedAction)
                    }
                },
                None => Err(OutcomeRefusal::NotRequestedAction),
            }
        },
    }
}


/// What each recommendation follows from: `Veto` only from `Negate` on a
/// high-risk action of low self-relevance; `Defer` only from `Negate`
/// otherwise, or from `Wait` on a low-urgency action; `Reorder` only from
/// `Deliberate` when urgent and self-relevant; everything else proceeds.
/// Under `Wait` in particular, an action is deferred exactly when its
/// urgency is low.
pub proof fn law_recommendation_causes(care: Option<CareAction>, signals: ModulationSignals)
    ensures
        (spec_recommend(care, signals) == ModulationRecommendation::Veto) <==> (care == Some(
            CareAction::Negate,
        ) && signals.high_risk && signals.self_relevance_low),
        (spec_recommend(care, signals) == ModulationRecommendation::Defer) <==> ((care == Some(
            CareAction::Negate,
        ) && !(signals.high_risk && signals.self_relevance_low)) || (care == Some(CareAction::Wait)
            && signals.urgency_low)),
        (spec_recommend(care, signals) == ModulationRecommendation::Reorder) <==> (care == Some(
            CareAction::Deliberate,
        ) && signals.urgency_high && signals.self_relevance_high),
        care == Some(CareAction::Wait) ==> (spec_recommend(care, signals)
            == ModulationRecommendation::Proceed <==> !signals.urgency_low),
{
}

} // verus!
