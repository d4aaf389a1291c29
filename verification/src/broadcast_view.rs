//! What one conscious processor is shown of a workspace broadcast: the
//! selected candidates it may see and subscribes to, and the part of the
//! selection's explanation that concerns them.

use vstd::prelude::*;
use vstd::string::StringExecFns;
use crate::agent_control::{holds_id, VisibilityScope};

verus! {

/// What a workspace candidate holds.
#[derive(Debug, Clone, Copy, PartialEq, Eq, Structural)]
pub enum WorkspaceContentKind {
    Observation,
    RecalledExperience,
    Evidence,
    Hypothesis,
    Prediction,
    PredictionError,
    Goal,
    Concern,
    CareConcern,
    Plan,
    ActionProposal,
    ToolOutcome,
    GovernedActionOutcome,
    AgentResult,
    Reflection,
    Extension,
}

/// The schema a processor subscribes to for content of `kind`.
pub open spec fn schema_of(kind: WorkspaceContentKind) -> Seq<char> {
    match kind {
        WorkspaceContentKind::Observation => "aletheon.workspace.observation/v1"@,
        WorkspaceContentKind::RecalledExperience => "aletheon.workspace.recalled-experience/v1"@,
        WorkspaceContentKind::Evidence => "aletheon.workspace.evidence/v1"@,
        WorkspaceContentKind::Hypothesis => "aletheon.workspace.hypothesis/v1"@,
        WorkspaceContentKind::Prediction => "aletheon.workspace.prediction/v1"@,
        WorkspaceContentKind::PredictionError => "aletheon.workspace.prediction-error/v1"@,
        WorkspaceContentKind::Goal => "aletheon.workspace.goal/v1"@,
        WorkspaceContentKind::Concern => "aletheon.workspace.concern/v1"@,
        WorkspaceContentKind::CareConcern => "aletheon.workspace.care-concern/v1"@,
        WorkspaceContentKind::Plan => "aletheon.workspace.plan/v1"@,
        WorkspaceContentKind::ActionProposal => "aletheon.workspace.action-proposal/v1"@,
        WorkspaceContentKind::ToolOutcome => "aletheon.workspace.tool-outcome/v1"@,
        WorkspaceContentKind::GovernedActionOutcome => "aletheon.workspace.governed-action-outcome/v1"@,
        WorkspaceContentKind::AgentResult => "aletheon.workspace.agent-result/v1"@,
        WorkspaceContentKind::Reflection => "aletheon.workspace.reflection/v1"@,
        WorkspaceContentKind::Extension => "aletheon.workspace.extension/v1"@,
    }
}

/// The schema of content of `kind` (see `schema_of`).
pub fn workspace_schema(kind: WorkspaceContentKind) -> (schema: &'static str)
    ensures
        schema@ == schema_of(kind),
{
    match kind {
        WorkspaceContentKind::Observation => "aletheon.workspace.observation/v1",
        WorkspaceContentKind::RecalledExperience => "aletheon.workspace.recalled-experience/v1",
        WorkspaceContentKind::Evidence => "aletheon.workspace.evidence/v1",
        WorkspaceContentKind::Hypothesis => "aletheon.workspace.hypothesis/v1",
        WorkspaceContentKind::Prediction => "aletheon.workspace.prediction/v1",
        WorkspaceContentKind::PredictionError => "aletheon.workspace.prediction-error/v1",
        WorkspaceContentKind::Goal => "aletheon.workspace.goal/v1",
        WorkspaceContentKind::Concern => "aletheon.workspace.concern/v1",
        WorkspaceContentKind::CareConcern => "aletheon.workspace.care-concern/v1",
        WorkspaceContentKind::Plan => "aletheon.workspace.plan/v1",
        WorkspaceContentKind::ActionProposal => "aletheon.workspace.action-proposal/v1",
        WorkspaceContentKind::ToolOutcome => "aletheon.workspace.tool-outcome/v1",
        WorkspaceContentKind::GovernedActionOutcome => "aletheon.workspace.governed-action-outcome/v1",
        WorkspaceContentKind::AgentResult => "aletheon.workspace.agent-result/v1",
        WorkspaceContentKind::Reflection => "aletheon.workspace.reflection/v1",
        WorkspaceContentKind::Extension => "aletheon.workspace.extension/v1",
    }
}

/// A selected candidate of a broadcast, as far as the view reads it.
#[derive(Debug, Clone, Copy, PartialEq, Eq, Structural)]
pub struct BroadcastCandidate {
    pub id: u128,
    pub visibility: VisibilityScope,
    pub kind: WorkspaceContentKind,
}

/// Whether a candidate of `visibility` may be shown to process
/// `recipient` of the agent tree rooted at `agent_root`.
pub open spec fn visible_to(visibility: VisibilityScope, recipient: u128, agent_root: u128) -> bool {
    match visibility {
        VisibilityScope::Session => true,
        VisibilityScope::PrivateProcess { process } => process == recipient,
        VisibilityScope::AgentTree { root } => root == agent_root,
    }
}

/// Whether `schemas` subscribe to content of `kind`: to every content, or
/// to its schema.
pub open spec fn subscribed(schemas: Seq<String>, kind: WorkspaceContentKind) -> bool {
    exists|j: int|
        0 <= j < schemas.len() && ((#[trigger] schemas[j])@ == "aletheon.workspace.any/v1"@
            || schemas[j]@ == schema_of(kind))
}

pub open spec fn shown(
    candidate: BroadcastCandidate,
    recipient: u128,
    agent_root: u128,
    schemas: Seq<String>,
) -> bool {
    visible_to(candidate.visibility, recipient, agent_root) && subscribed(schemas, candidate.kind)
}

/// The candidates shown to the processor, in order.
pub open spec fn shown_candidates(
    candidates: Seq<BroadcastCandidate>,
    recipient: u128,
    agent_root: u128,
    schemas: Seq<String>,
) -> Seq<BroadcastCandidate>
    decreases candidates.len(),
{
    if candidates.len() == 0 {
        Seq::empty()
    } else {
        let rest = shown_candidates(candidates.drop_last(), recipient, agent_root, schemas);
        if shown(candidates.last(), recipient, agent_root, schemas) {
            rest.push(candidates.last())
        } else {
            rest
        }
    }
}

/// The positions of `ids` whose id is among `keep`, in order.
pub open spec fn kept_positions(ids: Seq<u128>, keep: Seq<u128>) -> Seq<int>
    decreases ids.len(),
{
    if ids.len() == 0 {
        Seq::empty()
    } else {
        let rest = kept_positions(ids.drop_last(), keep);
        if keep.contains(ids.last()) {
            rest.push(ids.len() - 1)
        } else {
            rest
        }
    }
}

/// The ids of `ids` that are among `keep`, in order.
pub open spec fn kept_ids(ids: Seq<u128>, keep: Seq<u128>) -> Seq<u128>
    decreases ids.len(),
{
    if ids.len() == 0 {
        Seq::empty()
    } else {
        let rest = kept_ids(ids.drop_last(), keep);
        if keep.contains(ids.last()) {
            rest.push(ids.last())
        } else {
            rest
        }
    }
}

pub open spec fn ids_of(candidates: Seq<BroadcastCandidate>) -> Seq<u128> {
    candidates.map_values(|c: BroadcastCandidate| c.id)
}

/// What a processor is shown of a broadcast: the candidates, their ids,
/// the positions of the scores of the explanation that concern them, and
/// the ids below ignition among them.
#[derive(Debug, Clone)]
pub struct BroadcastView {
    pub selected: Vec<BroadcastCandidate>,
    pub selected_ids: Vec<u128>,
    pub evaluated_positions: Vec<usize>,
    pub rejected_below_ignition: Vec<u128>,
}

fn subscribes(schemas: &Vec<String>, kind: WorkspaceContentKind) -> (found: bool)
    ensures
        found == subscribed(schemas@, kind),
{
    let any = String::from_str("aletheon.workspace.any/v1");
    let schema = String::from_str(workspace_schema(kind));
    let mut j: usize = 0;
    while j < schemas.len()
        invariant
            0 <= j <= schemas@.len(),
            schema@ == schema_of(kind),
            any@ == "aletheon.workspace.any/v1"@,
            forall|m: int|
                0 <= m < j ==> !((#[trigger] schemas@[m])@ == "aletheon.workspace.any/v1"@ || schemas@[m]@
                    == schema_of(kind)),
        decreases schemas@.len() - j,
    {
        if schemas[j] == any || schemas[j] == schema {
            return true;
        }
        j = j + 1;
    }
    false
}

/// The view of a broadcast for process `recipient` of the tree rooted at
/// `agent_root`, subscribed to `schemas`: `None` when no selected candidate
/// is shown to it; otherwise the shown candidates (see `shown_candidates`),
/// their ids, the positions of `evaluated` (the scored ids of the
/// explanation) that concern them and the ids of `rejected_below_ignition`
/// that do.
pub fn processor_broadcast_view(
    selected: &Vec<BroadcastCandidate>,
    evaluated: &Vec<u128>,
    rejected_below_ignition: &Vec<u128>,
    recipient: u128,
    agent_root: u128,
    schemas: &Vec<String>,
) -> (view: Option<BroadcastView>)
    ensures
        match view {
            None => shown_candidates(selected@, recipient, agent_root, schemas@).len() == 0,
            Some(v) => {
                let shown = shown_candidates(selected@, recipient, agent_root, schemas@);
                &&& shown.len() > 0
                &&& v.selected@ == shown
                &&& v.selected_ids@ == ids_of(shown)
                &&& v.evaluated_positions@.map_values(|p: usize| p as int) == kept_positions(
                    evaluated@,
                    ids_of(shown),
                )
                &&& v.rejected_below_ignition@ == kept_ids(rejected_below_ignition@, ids_of(shown))
            },
        },
{
    let mut shown: Vec<BroadcastCandidate> = Vec::new();
    let mut ids: Vec<u128> = Vec::new();
    let mut i: usize = 0;
    while i < selected.len()
        invariant
            0 <= i <= selected@.len(),
            shown@ == shown_candidates(selected@.take(i as int), recipient, agent_root, schemas@),
            ids@ == ids_of(shown@),
        decreases selected@.len() - i,
    {
        proof {
            assert(selected@.take(i + 1).drop_last() =~= selected@.take(i as int));
            assert(selected@.take(i + 1).last() == selected@[i as int]);
        }
        let candidate = selected[i];
        let visible = match candidate.visibility {
            VisibilityScope::Session => true,
            VisibilityScope::PrivateProcess { process } => process == recipient,
            VisibilityScope::AgentTree { root } => root == agent_root,
        };
        if visible && subscribes(schemas, candidate.kind) {
            shown.push(candidate);
            ids.push(candidate.id);
            proof {
                assert(ids@ =~= ids_of(shown@));
            }
        }
        i = i + 1;
    }
    proof {
        assert(selected@.take(selected@.len() as int) =~= selected@);
    }
    if shown.len() == 0 {
        return None;
    }
    let mut positions: Vec<usize> = Vec::new();
    let mut k: usize = 0;
    while k < evaluated.len()
        invariant
            0 <= k <= evaluated@.len(),
            ids@ == ids_of(shown@),
            positions@.map_values(|p: usize| p as int) == kept_positions(
                evaluated@.take(k as int),
                ids@,
            ),
        decreases evaluated@.len() - k,
    {
        proof {
            assert(evaluated@.take(k + 1).drop_last() =~= evaluated@.take(k as int));
            assert(evaluated@.take(k + 1).last() == evaluated@[k as int]);
        }
        if holds_id(&ids, evaluated[k]) {
            let ghost before = positions@;
            positions.push(k);
            proof {
                assert(positions@.map_values(|p: usize| p as int) =~= before.map_values(
                    |p: usize| p as int,
                ).push(k as int));
            }
        }
        k = k + 1;
    }
    proof {
        assert(evaluated@.take(evaluated@.len() as int) =~= evaluated@);
    }
    let mut rejected: Vec<u128> = Vec::new();
    let mut r: usize = 0;
    while r < rejected_below_ignition.len()
        invariant
            0 <= r <= rejected_below_ignition@.len(),
            ids@ == ids_of(shown@),
            rejected@ == kept_ids(rejected_below_ignition@.take(r as int), ids@),
        decreases rejected_below_ignition@.len() - r,
    {
        proof {
            assert(rejected_below_ignition@.take(r + 1).drop_last() =~= rejected_below_ignition@.take(
                r as int,
            ));
            assert(rejected_below_ignition@.take(r + 1).last() == rejected_below_ignition@[r as int]);
        }
        if holds_id(&ids, rejected_below_ignition[r]) {
            rejected.push(rejected_below_ignition[r]);
        }
        r = r + 1;
    }
    proof {
        assert(rejected_below_ignition@.take(rejected_below_ignition@.len() as int)
            =~= rejected_below_ignition@);
    }
    Some(
        BroadcastView {
            selected: shown,
            selected_ids: ids,
            evaluated_positions: positions,
            rejected_below_ignition: rejected,
        },
    )
}

/// The schema the core inspector reports for content of `kind`; an
/// extension reports the schema it names itself, `extension_schema`.
pub open spec fn inspector_schema(kind: WorkspaceContentKind, extension_schema: Seq<char>) -> Seq<char> {
    match kind {
        WorkspaceContentKind::Observation => "observation/v1"@,
        WorkspaceContentKind::RecalledExperience => "recalled_experience/v1"@,
        WorkspaceContentKind::Evidence => "evidence/v1"@,
        WorkspaceContentKind::Hypothesis => "hypothesis/v1"@,
        WorkspaceContentKind::Prediction => "prediction/v1"@,
        WorkspaceContentKind::PredictionError => "prediction_error/v1"@,
        WorkspaceContentKind::Goal => "goal/v1"@,
        WorkspaceContentKind::Concern => "concern/v1"@,
        WorkspaceContentKind::CareConcern => "care_concern/v1"@,
        WorkspaceContentKind::Plan => "plan/v1"@,
        WorkspaceContentKind::ActionProposal => "action_proposal/v1"@,
        WorkspaceContentKind::ToolOutcome => "tool_outcome/v1"@,
        WorkspaceContentKind::GovernedActionOutcome => "governed_action_outcome/v1"@,
        WorkspaceContentKind::AgentResult => "agent_result/v1"@,
        WorkspaceContentKind::Reflection => "reflection/v1"@,
        WorkspaceContentKind::Extension => extension_schema,
    }
}

/// The schema the core inspector reports (see `inspector_schema`).
pub fn content_schema(kind: WorkspaceContentKind, extension_schema: &str) -> (schema: String)
    ensures
        schema@ == inspector_schema(kind, extension_schema@),
{
    let name = match kind {
        WorkspaceContentKind::Observation => "observation/v1",
        WorkspaceContentKind::RecalledExperience => "recalled_experience/v1",
        WorkspaceContentKind::Evidence => "evidence/v1",
        WorkspaceContentKind::Hypothesis => "hypothesis/v1",
        WorkspaceContentKind::Prediction => "prediction/v1",
        WorkspaceContentKind::PredictionError => "prediction_error/v1",
        WorkspaceContentKind::Goal => "goal/v1",
        WorkspaceContentKind::Concern => "concern/v1",
        WorkspaceContentKind::CareConcern => "care_concern/v1",
        WorkspaceContentKind::Plan => "plan/v1",
        WorkspaceContentKind::ActionProposal => "action_proposal/v1",
        WorkspaceContentKind::ToolOutcome => "tool_outcome/v1",
        WorkspaceContentKind::GovernedActionOutcome => "governed_action_outcome/v1",
        WorkspaceContentKind::AgentResult => "agent_result/v1",
        WorkspaceContentKind::Reflection => "reflection/v1",
        WorkspaceContentKind::Extension => extension_schema,
    };
    String::from_str(name)
}

} // verus!
