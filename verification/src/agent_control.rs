//! Authority decisions of Agent control: who may act on a run, who may
//! message whom, which parent a spawn may name, what a child may observe,
//! and what storage a runtime reserves. The lookups that feed them (the run
//! repository, the kernel's process table) happen outside; every decision
//! on what they returned is taken here.

use vstd::prelude::*;
use crate::agent_admission::AgentStorageRequest;
use crate::agent_status::{is_terminal, AgentRunStatus};
use crate::control_error::{control_error, AgentControlError, AgentControlErrorKind};
use crate::text::{chars_of, contains_chars, seq_contains};
use crate::supervision::ExitReason;
use crate::ids::{uuid_string, uuid_text};
use vstd::string::StringExecFns;

verus! {

/// What the decisions read of a durable Agent run.
#[derive(Debug, Clone, Copy, PartialEq, Eq, Structural)]
pub struct AgentLink {
    pub agent_id: u128,
    pub root_agent_id: u128,
    pub parent_agent_id: Option<u128>,
    pub process_id: u128,
    pub root_process_id: u128,
    pub status: AgentRunStatus,
}

/// Whether a status is terminal.
pub fn terminal(status: AgentRunStatus) -> (t: bool)
    ensures
        t == is_terminal(status),
{
    match status {
        AgentRunStatus::Succeeded | AgentRunStatus::Failed | AgentRunStatus::Cancelled
        | AgentRunStatus::Interrupted => true,
        _ => false,
    }
}

/// A caller may act on a run only when it exists and belongs to the
/// caller's root.
pub fn authorize_run(caller_root: u128, run: Option<AgentLink>) -> (outcome: Result<
    AgentLink,
    AgentControlError,
>)
    ensures
        match run {
            None => outcome matches Err(e) && e.kind == AgentControlErrorKind::NotFound
                && e.message@ == "Agent run was not found"@,
            Some(r) => if r.root_agent_id != caller_root {
                outcome matches Err(e) && e.kind == AgentControlErrorKind::Forbidden
                    && e.message@ == "Agent does not belong to caller root"@
            } else {
                outcome == Ok::<AgentLink, AgentControlError>(r)
            },
        },
{
    match run {
        None => Err(control_error(AgentControlErrorKind::NotFound, "Agent run was not found")),
        Some(r) => {
            if r.root_agent_id != caller_root {
                Err(
                    control_error(
                        AgentControlErrorKind::Forbidden,
                        "Agent does not belong to caller root",
                    ),
                )
            } else {
                Ok(r)
            }
        },
    }
}

/// Whether the sender of a message needs to be looked up: it is named and
/// is not the caller's root.
pub open spec fn sender_needs_lookup(sender: Option<u128>, caller_root: u128) -> bool {
    sender matches Some(s) && s != caller_root
}

/// The sender a message is attributed to, or why it is refused. An unnamed
/// sender is the caller's root; the root itself may message anyone in its
/// tree. Another sender must be a live run of the caller's tree, and the
/// target its direct child or parent, or a sibling that the parent allowed
/// to be messaged (`sibling_route`).
pub open spec fn message_sender(
    sender: Option<u128>,
    caller_root: u128,
    target: AgentLink,
    sender_run: Option<AgentLink>,
    sibling_route: bool,
) -> Result<u128, (AgentControlErrorKind, Seq<char>)> {
    match sender {
        None => Ok(caller_root),
        Some(s) => if s == caller_root {
            Ok(s)
        } else {
            match sender_run {
                None => Err((AgentControlErrorKind::NotFound, "message sender was not found"@)),
                Some(run) => if run.root_agent_id != caller_root || is_terminal(run.status) {
                    Err(
                        (
                            AgentControlErrorKind::Forbidden,
                            "message sender is outside the live Agent tree"@,
                        ),
                    )
                } else if target.parent_agent_id == Some(s) || run.parent_agent_id == Some(
                    target.agent_id,
                ) {
                    Ok(s)
                } else if run.parent_agent_id is Some && target.parent_agent_id is Some
                    && run.parent_agent_id == target.parent_agent_id && sibling_route {
                    Ok(s)
                } else {
                    Err(
                        (
                            AgentControlErrorKind::Forbidden,
                            "sibling or non-adjacent Agent messaging requires explicit parent policy"@,
                        ),
                    )
                },
            }
        },
    }
}

/// Decides who sends a message to `target` (see `message_sender`);
/// `sender_run` is what the lookup of the sender found, when
/// `sender_needs_lookup`, and `sibling_route` whether the parent allowed
/// this sibling route.
pub fn authorize_message_sender(
    sender: Option<u128>,
    caller_root: u128,
    target: &AgentLink,
    sender_run: Option<AgentLink>,
    sibling_route: bool,
) -> (outcome: Result<u128, AgentControlError>)
    ensures
        match message_sender(sender, caller_root, *target, sender_run, sibling_route) {
            Ok(id) => outcome == Ok::<u128, AgentControlError>(id),
            Err((kind, message)) => outcome matches Err(e) && e.kind == kind && e.message@
                == message,
        },
{
    let s = match sender {
        None => {
            return Ok(caller_root);
        },
        Some(s) => s,
    };
    if s == caller_root {
        return Ok(s);
    }
    let run = match sender_run {
        None => {
            return Err(
                control_error(AgentControlErrorKind::NotFound, "message sender was not found"),
            );
        },
        Some(run) => run,
    };
    if run.root_agent_id != caller_root || terminal(run.status) {
        return Err(
            control_error(
                AgentControlErrorKind::Forbidden,
                "message sender is outside the live Agent tree",
            ),
        );
    }
    let direct_child = target.parent_agent_id == Some(s);
    let direct_parent = run.parent_agent_id == Some(target.agent_id);
    if direct_child || direct_parent {
        return Ok(s);
    }
    match (run.parent_agent_id, target.parent_agent_id) {
        (Some(sender_parent), Some(target_parent)) => {
            if sender_parent == target_parent && sibling_route {
                return Ok(s);
            }
        },
        _ => {},
    }
    Err(
        control_error(
            AgentControlErrorKind::Forbidden,
            "sibling or non-adjacent Agent messaging requires explicit parent policy",
        ),
    )
}

/// A parent named by a spawn: the spawn's root tree must match the
/// parent's, the named process must be the parent's, and the parent must
/// still be live.
pub fn check_parent_run(root_agent_id: u128, parent_process: u128, parent: &AgentLink) -> (outcome:
    Result<(), AgentControlError>)
    ensures
        (parent.root_agent_id != root_agent_id || parent.process_id != parent_process
            || is_terminal(parent.status)) ==> (outcome matches Err(e) && e.kind
            == AgentControlErrorKind::Forbidden && e.message@
            == "parent Agent does not belong to the requested live root/process"@),
        !(parent.root_agent_id != root_agent_id || parent.process_id != parent_process
            || is_terminal(parent.status)) ==> outcome is Ok,
{
    if parent.root_agent_id != root_agent_id || parent.process_id != parent_process || terminal(
        parent.status,
    ) {
        return Err(
            control_error(
                AgentControlErrorKind::Forbidden,
                "parent Agent does not belong to the requested live root/process",
            ),
        );
    }
    Ok(())
}

/// A parent with no durable run is an external root: it must be the
/// spawn's root, the process must belong to it, and the process must still
/// be live.
pub fn check_external_parent(
    parent: u128,
    root_agent_id: u128,
    process_agent: u128,
    process_terminal: bool,
) -> (outcome: Result<(), AgentControlError>)
    ensures
        (process_agent != parent || root_agent_id != parent || process_terminal) ==> (
        outcome matches Err(e) && e.kind == AgentControlErrorKind::Forbidden && e.message@
            == "external root parent identity is not live or does not match"@),
        !(process_agent != parent || root_agent_id != parent || process_terminal) ==> outcome is Ok,
{
    if process_agent != parent || root_agent_id != parent || process_terminal {
        return Err(
            control_error(
                AgentControlErrorKind::Forbidden,
                "external root parent identity is not live or does not match",
            ),
        );
    }
    Ok(())
}

/// A spawn names its parent Agent and parent process together or not at
/// all.
pub fn check_parent_pair(parent_agent: Option<u128>, parent_process: Option<u128>) -> (outcome:
    Result<(), AgentControlError>)
    ensures
        (parent_agent is Some) == (parent_process is Some) ==> outcome is Ok,
        (parent_agent is Some) != (parent_process is Some) ==> (outcome matches Err(e) && e.kind
            == AgentControlErrorKind::InvalidRequest && e.message@
            == "parent Agent and parent Process must be supplied together"@),
{
    match (parent_agent, parent_process) {
        (None, None) => Ok(()),
        (Some(_), Some(_)) => Ok(()),
        _ => Err(
            control_error(
                AgentControlErrorKind::InvalidRequest,
                "parent Agent and parent Process must be supplied together",
            ),
        ),
    }
}

/// Who may see a workspace candidate.
#[derive(Debug, Clone, Copy, PartialEq, Eq, Structural)]
pub enum VisibilityScope {
    PrivateProcess { process: u128 },
    AgentTree { root: u128 },
    Session,
}

/// A broadcast item a child was given: its workspace, epoch and content.
#[derive(Debug, Clone)]
pub struct BroadcastRef {
    pub space: String,
    pub epoch: u64,
    pub content_id: u128,
}

/// Whether a run referenced the candidate `(space, epoch, id)` when it was
/// spawned.
pub open spec fn references(refs: Seq<BroadcastRef>, space: Seq<char>, epoch: u64, id: u128) -> bool {
    exists|i: int|
        0 <= i < refs.len() && (#[trigger] refs[i]).space@ == space && refs[i].epoch == epoch
            && refs[i].content_id == id
}

/// Whether a run may observe a broadcast candidate: the candidate is valid,
/// the run was given exactly this space, epoch and content, and the
/// candidate's visibility admits the run.
pub open spec fn observable(
    run: AgentLink,
    refs: Seq<BroadcastRef>,
    epoch: u64,
    space: Seq<char>,
    id: u128,
    visibility: VisibilityScope,
    candidate_valid: bool,
) -> bool {
    &&& candidate_valid
    &&& references(refs, space, epoch, id)
    &&& match visibility {
        VisibilityScope::PrivateProcess { process } => process == run.process_id,
        VisibilityScope::AgentTree { root } => root == run.root_process_id,
        VisibilityScope::Session => true,
    }
}

/// Decides whether `run`, given `refs` at spawn, may observe the candidate
/// `id` of `space` broadcast at `epoch` (see `observable`).
pub fn can_observe_broadcast(
    run: &AgentLink,
    refs: &Vec<BroadcastRef>,
    epoch: u64,
    space: &str,
    id: u128,
    visibility: VisibilityScope,
    candidate_valid: bool,
) -> (allowed: bool)
    ensures
        allowed == observable(*run, refs@, epoch, space@, id, visibility, candidate_valid),
{
    let wanted = space.to_owned();
    let mut referenced = false;
    let mut i: usize = 0;
    while i < refs.len()
        invariant
            0 <= i <= refs@.len(),
            wanted@ == space@,
            referenced == exists|k: int|
                0 <= k < i && (#[trigger] refs@[k]).space@ == space@ && refs@[k].epoch == epoch
                    && refs@[k].content_id == id,
        decreases refs@.len() - i,
    {
        let r = &refs[i];
        if r.space == wanted && r.epoch == epoch && r.content_id == id {
            referenced = true;
        }
        i = i + 1;
    }
    let admitted = match visibility {
        VisibilityScope::PrivateProcess { process } => process == run.process_id,
        VisibilityScope::AgentTree { root } => root == run.root_process_id,
        VisibilityScope::Session => true,
    };
    candidate_valid && referenced && admitted
}

/// Storage a runtime reserves: a runtime whose id mentions `pi` gets one
/// item of 1 GiB, any other none.
pub open spec fn runtime_storage(runtime_id: Seq<char>) -> AgentStorageRequest {
    if seq_contains(runtime_id, "pi"@) {
        AgentStorageRequest { bytes: 1073741824u64, items: 1u64 }
    } else {
        AgentStorageRequest { bytes: 0, items: 0 }
    }
}

pub fn storage_for_runtime(runtime_id: &str) -> (storage: AgentStorageRequest)
    ensures
        storage == runtime_storage(runtime_id@),
{
    proof {
        reveal_strlit("pi");
    }
    if contains_chars(&chars_of(runtime_id), &chars_of("pi")) {
        AgentStorageRequest { bytes: 1024 * 1024 * 1024, items: 1 }
    } else {
        AgentStorageRequest { bytes: 0, items: 0 }
    }
}

/// Whether three runs form one live parent topology: `from` and `to` are
/// children of `parent`, and none of the three has ended.
pub open spec fn sibling_topology(parent: AgentLink, from: AgentLink, to: AgentLink) -> bool {
    &&& from.parent_agent_id == Some(parent.agent_id)
    &&& to.parent_agent_id == Some(parent.agent_id)
    &&& !is_terminal(parent.status)
    &&& !is_terminal(from.status)
    &&& !is_terminal(to.status)
}

/// The sibling routes that parents allowed: `(parent, from, to)`.
#[derive(Debug)]
pub struct SiblingRoutes {
    routes: Vec<(u128, u128, u128)>,
}

impl View for SiblingRoutes {
    type V = Set<(u128, u128, u128)>;

    closed spec fn view(&self) -> Set<(u128, u128, u128)> {
        self.routes@.to_set()
    }
}

impl SiblingRoutes {
    pub fn new() -> (routes: Self)
        ensures
            routes@ == Set::<(u128, u128, u128)>::empty(),
    {
        let routes = SiblingRoutes { routes: Vec::new() };
        proof {
            assert(routes@ =~= Set::<(u128, u128, u128)>::empty());
        }
        routes
    }

    /// Whether `parent` allowed `from` to message `to`.
    pub fn contains(&self, parent: u128, from: u128, to: u128) -> (allowed: bool)
        ensures
            allowed == self@.contains((parent, from, to)),
    {
        let mut i: usize = 0;
        while i < self.routes.len()
            invariant
                0 <= i <= self.routes@.len(),
                forall|j: int| 0 <= j < i ==> self.routes@[j] != (parent, from, to),
            decreases self.routes@.len() - i,
        {
            let r = self.routes[i];
            if r.0 == parent && r.1 == from && r.2 == to {
                proof {
                    assert(self.routes@[i as int] == (parent, from, to));
                }
                return true;
            }
            i = i + 1;
        }
        proof {
            if self@.contains((parent, from, to)) {
                let j = choose|j: int|
                    0 <= j < self.routes@.len() && self.routes@[j] == (parent, from, to);
                assert(self.routes@[j] != (parent, from, to));
            }
        }
        false
    }

    /// Lets `from` message its sibling `to` under `parent` (all three
    /// already authorized for the caller's root): refused unless they form
    /// one live parent topology.
    pub fn permit(&mut self, parent: &AgentLink, from: &AgentLink, to: &AgentLink) -> (outcome:
        Result<(), AgentControlError>)
        ensures
            sibling_topology(*parent, *from, *to) ==> outcome is Ok && final(self)@ == old(
                self,
            )@.insert((parent.agent_id, from.agent_id, to.agent_id)),
            !sibling_topology(*parent, *from, *to) ==> (outcome matches Err(e) && e.kind
                == AgentControlErrorKind::Forbidden && e.message@
                == "sibling route does not match one live parent topology"@ && final(self)@ == old(
                self,
            )@),
    {
        if from.parent_agent_id != Some(parent.agent_id) || to.parent_agent_id != Some(
            parent.agent_id,
        ) || terminal(parent.status) || terminal(from.status) || terminal(to.status) {
            return Err(
                control_error(
                    AgentControlErrorKind::Forbidden,
                    "sibling route does not match one live parent topology",
                ),
            );
        }
        let ghost before = self.routes@;
        self.routes.push((parent.agent_id, from.agent_id, to.agent_id));
        proof {
            assert(self.routes@ == before.push((parent.agent_id, from.agent_id, to.agent_id)));
            assert(self@ =~= before.to_set().insert((parent.agent_id, from.agent_id, to.agent_id)))
                by {
                broadcast use vstd::seq_lib::group_seq_properties;

            }
        }
        Ok(())
    }
}

/// Once a parent allowed a sibling route (`permit` puts it in the routes),
/// the sibling may message its sibling.
pub proof fn law_permitted_route_admits_sibling(
    caller_root: u128,
    parent: AgentLink,
    from: AgentLink,
    to: AgentLink,
    routes: Set<(u128, u128, u128)>,
)
    requires
        parent.root_agent_id == caller_root,
        from.root_agent_id == caller_root,
        to.root_agent_id == caller_root,
        sibling_topology(parent, from, to),
        routes.contains((parent.agent_id, from.agent_id, to.agent_id)),
    ensures
        message_sender(
            Some(from.agent_id),
            caller_root,
            to,
            Some(from),
            routes.contains((parent.agent_id, from.agent_id, to.agent_id)),
        ) == Ok::<u128, (AgentControlErrorKind, Seq<char>)>(from.agent_id),
{
}

/// Whether a run may receive a broadcast item, or why not: the candidate
/// must be valid (`candidate_error` holds its validation error), the run's
/// Kernel context must be bound to its workspace, and the run must be able
/// to observe the candidate (see `observable`).
pub fn authorize_broadcast(
    run: &AgentLink,
    refs: &Vec<BroadcastRef>,
    bound_to_workspace: bool,
    epoch: u64,
    space: &str,
    id: u128,
    visibility: VisibilityScope,
    candidate_error: Option<String>,
) -> (outcome: Result<(), AgentControlError>)
    ensures
        match candidate_error {
            Some(message) => outcome matches Err(e) && e.kind
                == AgentControlErrorKind::InvalidRequest && e.message@ == message@,
            None => if bound_to_workspace && observable(
                *run,
                refs@,
                epoch,
                space@,
                id,
                visibility,
                true,
            ) {
                outcome is Ok
            } else {
                outcome matches Err(e) && e.kind == AgentControlErrorKind::Forbidden && e.message@
                    == "broadcast is not permitted by Agent workspace receipt"@
            },
        },
{
    match candidate_error {
        Some(message) => {
            return Err(AgentControlError { kind: AgentControlErrorKind::InvalidRequest, message });
        },
        None => {},
    }
    if !bound_to_workspace || !can_observe_broadcast(run, refs, epoch, space, id, visibility, true) {
        return Err(
            control_error(
                AgentControlErrorKind::Forbidden,
                "broadcast is not permitted by Agent workspace receipt",
            ),
        );
    }
    Ok(())
}

/// How a child runtime ended: it returned a result, it was cancelled (a
/// terminal control error), or it failed with a message.
#[derive(Debug, Clone)]
pub enum RuntimeOutcome {
    Completed,
    Cancelled { message: String },
    Failed { message: String },
}

/// What is recorded when a child run ends: its terminal status, the error
/// kept on the run, the process exit and the label of the stop hook.
#[derive(Debug, Clone)]
pub struct TerminalPlan {
    pub status: AgentRunStatus,
    pub error: Option<String>,
    pub process_exit: ExitReason,
    pub hook_label: &'static str,
}

/// The terminal plan of an outcome: a result succeeds, a cancellation is
/// recorded as cancelled (the process exits cancelled), and any other error
/// fails the run and its process with the error's message.
pub fn terminal_plan(outcome: RuntimeOutcome) -> (plan: TerminalPlan)
    ensures
        match outcome {
            RuntimeOutcome::Completed => plan.status == AgentRunStatus::Succeeded && plan.error
                is None && plan.process_exit == ExitReason::Completed && plan.hook_label@
                == "succeeded"@,
            RuntimeOutcome::Cancelled { message } => plan.status == AgentRunStatus::Cancelled
                && plan.error == Some(message) && (plan.process_exit matches ExitReason::Cancelled(
                m,
            ) && m@ == "Agent runtime cancelled"@) && plan.hook_label@ == "cancelled"@,
            RuntimeOutcome::Failed { message } => plan.status == AgentRunStatus::Failed
                && (plan.error matches Some(e) && e@ == message@) && (
            plan.process_exit matches ExitReason::Failed(m) && m@ == message@)
                && plan.hook_label@ == "failed"@,
        },
{
    match outcome {
        RuntimeOutcome::Completed => TerminalPlan {
            status: AgentRunStatus::Succeeded,
            error: None,
            process_exit: ExitReason::Completed,
            hook_label: "succeeded",
        },
        RuntimeOutcome::Cancelled { message } => TerminalPlan {
            status: AgentRunStatus::Cancelled,
            error: Some(message),
            process_exit: ExitReason::Cancelled("Agent runtime cancelled".to_owned()),
            hook_label: "cancelled",
        },
        RuntimeOutcome::Failed { message } => {
            let kept = message.clone();
            TerminalPlan {
                status: AgentRunStatus::Failed,
                error: Some(kept),
                process_exit: ExitReason::Failed(message),
                hook_label: "failed",
            }
        },
    }
}

/// Whether the child's unused budget moves to its parent at settlement: a
/// parent exists, the child reported its usage, the parent's authority
/// covers the child's, and the child declared a resource that survives it.
pub fn transfers_budget_to_parent(
    parent: Option<u128>,
    has_usage: bool,
    parent_authority_covers: bool,
    wants_reparent: bool,
) -> (transfer: bool)
    ensures
        transfer == (parent is Some && has_usage && parent_authority_covers && wants_reparent),
{
    parent.is_some() && has_usage && parent_authority_covers && wants_reparent
}

/// `label` followed by a colon and the UUID text of `id`.
pub open spec fn labelled(label: Seq<char>, id: u128) -> Seq<char> {
    label + ":"@ + uuid_text(id)
}

fn labelled_text(label: &str, id: u128) -> (text: String)
    ensures
        text@ == labelled(label@, id),
{
    let mut text = label.to_owned();
    text.append(":");
    text.append(uuid_string(id).as_str());
    text
}

/// The owner of a child's resource leases: its process.
pub fn lease_owner(process: u128) -> (owner: String)
    ensures
        owner@ == labelled("process"@, process),
{
    proof {
        reveal_strlit("process");
    }
    labelled_text("process", process)
}

/// The keys of the three leases a child holds: admission, mailbox and
/// execution, each under the Agent's id.
pub fn settlement_lease_keys(agent: u128) -> (keys: Vec<String>)
    ensures
        keys@.len() == 3,
        keys@[0]@ == labelled("admission"@, agent),
        keys@[1]@ == labelled("mailbox"@, agent),
        keys@[2]@ == labelled("execution"@, agent),
{
    let mut keys: Vec<String> = Vec::new();
    keys.push(labelled_text("admission", agent));
    keys.push(labelled_text("mailbox", agent));
    keys.push(labelled_text("execution", agent));
    keys
}

/// Whether `id` descends from `target` through `k` parent links of the
/// live runs (each given as its agent and its parent).
pub open spec fn descends(live: Seq<(u128, Option<u128>)>, target: u128, id: u128, k: nat) -> bool
    decreases k,
{
    if k == 0 {
        id == target
    } else {
        exists|i: int|
            0 <= i < live.len() && (#[trigger] live[i]).0 == id && match live[i].1 {
                Some(parent) => descends(live, target, parent, (k - 1) as nat),
                None => false,
            }
    }
}

/// Whether `id` is `target` or one of its live descendants.
pub open spec fn in_subtree(live: Seq<(u128, Option<u128>)>, target: u128, id: u128) -> bool {
    exists|k: nat| descends(live, target, id, k)
}

/// Whether every live run whose parent is in `ids` is in `ids` too.
pub open spec fn closed_under_children(live: Seq<(u128, Option<u128>)>, ids: Seq<u128>) -> bool {
    forall|m: int|
        0 <= m < live.len() ==> match (#[trigger] live[m]).1 {
            Some(parent) => ids.contains(parent) ==> ids.contains(live[m].0),
            None => true,
        }
}

/// How many live runs are not in `ids`.
pub open spec fn outside(live: Seq<(u128, Option<u128>)>, ids: Seq<u128>) -> nat
    decreases live.len(),
{
    if live.len() == 0 {
        0
    } else {
        outside(live.drop_last(), ids) + if ids.contains(live.last().0) {
            0nat
        } else {
            1nat
        }
    }
}

proof fn lemma_outside_shrinks(live: Seq<(u128, Option<u128>)>, small: Seq<u128>, large: Seq<u128>)
    requires
        forall|x: u128| small.contains(x) ==> large.contains(x),
    ensures
        outside(live, large) <= outside(live, small),
        (exists|i: int|
            0 <= i < live.len() && !small.contains((#[trigger] live[i]).0) && large.contains(live[i].0))
            ==> outside(live, large) < outside(live, small),
    decreases live.len(),
{
    if live.len() > 0 {
        lemma_outside_shrinks(live.drop_last(), small, large);
        if exists|i: int|
            0 <= i < live.len() && !small.contains((#[trigger] live[i]).0) && large.contains(live[i].0) {
            let i = choose|i: int|
                0 <= i < live.len() && !small.contains((#[trigger] live[i]).0) && large.contains(live[i].0);
            if i < live.len() - 1 {
                assert(live.drop_last()[i] == live[i]);
            }
        }
    }
}

proof fn lemma_closed_holds_subtree(
    live: Seq<(u128, Option<u128>)>,
    target: u128,
    ids: Seq<u128>,
    id: u128,
    k: nat,
)
    requires
        ids.contains(target),
        closed_under_children(live, ids),
        descends(live, target, id, k),
    ensures
        ids.contains(id),
    decreases k,
{
    if k > 0 {
        let i = choose|i: int|
            0 <= i < live.len() && (#[trigger] live[i]).0 == id && match live[i].1 {
                Some(parent) => descends(live, target, parent, (k - 1) as nat),
                None => false,
            };
        let parent = live[i].1.unwrap();
        lemma_closed_holds_subtree(live, target, ids, parent, (k - 1) as nat);
    }
}

pub(crate) fn holds_id(ids: &Vec<u128>, id: u128) -> (found: bool)
    ensures
        found == ids@.contains(id),
{
    let mut i: usize = 0;
    while i < ids.len()
        invariant
            0 <= i <= ids@.len(),
            forall|j: int| 0 <= j < i ==> ids@[j] != id,
        decreases ids@.len() - i,
    {
        if ids[i] == id {
            return true;
        }
        i = i + 1;
    }
    false
}

/// The runs that cancelling `target` stops: `target` first, then every
/// live run that descends from it, each once; runs outside its live
/// subtree are left alone.
pub fn cancellation_subtree(target: u128, live: &Vec<(u128, Option<u128>)>) -> (cancelled: Vec<u128>)
    ensures
        cancelled@.len() > 0,
        cancelled@[0] == target,
        forall|i: int, j: int| 0 <= i < j < cancelled@.len() ==> cancelled@[i] != cancelled@[j],
        forall|id: u128| cancelled@.contains(id) <==> in_subtree(live@, target, id),
{
    let mut cancelled: Vec<u128> = Vec::new();
    cancelled.push(target);
    proof {
        assert(descends(live@, target, target, 0));
        assert(cancelled@[0] == target);
    }
    let mut changed = true;
    while changed
        invariant
            cancelled@.len() > 0,
            cancelled@[0] == target,
            forall|i: int, j: int| 0 <= i < j < cancelled@.len() ==> cancelled@[i] != cancelled@[j],
            forall|x: u128| cancelled@.contains(x) ==> in_subtree(live@, target, x),
            !changed ==> closed_under_children(live@, cancelled@),
        decreases 2 * outside(live@, cancelled@) + if changed {
            1int
        } else {
            0int
        },
    {
        let ghost before = cancelled@;
        changed = false;
        let mut i: usize = 0;
        while i < live.len()
            invariant
                0 <= i <= live@.len(),
                cancelled@.len() > 0,
                cancelled@[0] == target,
                forall|a: int, b: int| 0 <= a < b < cancelled@.len() ==> cancelled@[a] != cancelled@[b],
                forall|x: u128| cancelled@.contains(x) ==> in_subtree(live@, target, x),
                forall|x: u128| before.contains(x) ==> cancelled@.contains(x),
                changed ==> outside(live@, cancelled@) < outside(live@, before),
                !changed ==> cancelled@ == before,
                !changed ==> forall|m: int|
                    0 <= m < i ==> match (#[trigger] live@[m]).1 {
                        Some(parent) => cancelled@.contains(parent) ==> cancelled@.contains(live@[m].0),
                        None => true,
                    },
            decreases live@.len() - i,
        {
            let (id, parent) = live[i];
            if let Some(p) = parent {
                if holds_id(&cancelled, p) && !holds_id(&cancelled, id) {
                    let ghost previous = cancelled@;
                    assert(forall|x: u128| previous.contains(x) ==> in_subtree(live@, target, x));
                    proof {
                        let k = choose|k: nat| descends(live@, target, p, k);
                        assert(live@[i as int].0 == id);
                        assert(descends(live@, target, id, k + 1));
                        assert(in_subtree(live@, target, id));
                    }
                    cancelled.push(id);
                    proof {
                        assert forall|x: u128| previous.contains(x) implies cancelled@.contains(x) by {
                            let j = choose|j: int| 0 <= j < previous.len() && previous[j] == x;
                            assert(cancelled@[j] == x);
                        }
                        assert(cancelled@[cancelled@.len() - 1] == id);
                        assert forall|x: u128| cancelled@.contains(x) implies in_subtree(live@, target, x) by {
                            let j = choose|j: int| 0 <= j < cancelled@.len() && cancelled@[j] == x;
                            if j < previous.len() {
                                assert(previous[j] == x);
                                assert(previous.contains(x));
                            } else {
                                assert(x == id);
                            }
                        }
                        lemma_outside_shrinks(live@, previous, cancelled@);
                        assert(!previous.contains(live@[i as int].0) && cancelled@.contains(
                            live@[i as int].0,
                        ));
                        lemma_outside_shrinks(live@, before, previous);
                    }
                    changed = true;
                }
            }
            i = i + 1;
        }
        proof {
            if changed {
                assert(outside(live@, cancelled@) < outside(live@, before));
            }
        }
    }
    proof {
        assert forall|id: u128| in_subtree(live@, target, id) implies cancelled@.contains(id) by {
            let k = choose|k: nat| descends(live@, target, id, k);
            assert(cancelled@[0] == target);
            lemma_closed_holds_subtree(live@, target, cancelled@, id, k);
        }
    }
    cancelled
}

/// The hook context of an agent lifecycle point, as far as the run fills
/// it: the session (the root agent), the turn count (none yet), the task as
/// the message, and the metadata pairs.
#[derive(Debug, Clone)]
pub struct LifecycleHookContext {
    pub session_id: String,
    pub turn_count: u64,
    pub message: String,
    pub metadata: Vec<(String, String)>,
}

pub open spec fn text_option(text: Option<String>) -> Option<Seq<char>> {
    match text {
        Some(t) => Some(t@),
        None => None,
    }
}

pub open spec fn pairs_view(pairs: Seq<(String, String)>) -> Seq<(Seq<char>, Seq<char>)> {
    pairs.map_values(|p: (String, String)| (p.0@, p.1@))
}

/// The metadata of a lifecycle hook: the agent, its parent (empty for a
/// root), its operation, the lifecycle status and the workspace root
/// (empty without a workspace).
pub open spec fn lifecycle_metadata(
    agent: u128,
    parent: Option<u128>,
    operation: u128,
    status: Seq<char>,
    workspace_root: Option<Seq<char>>,
) -> Seq<(Seq<char>, Seq<char>)> {
    seq![
        ("agent_id"@, uuid_text(agent)),
        ("parent_agent_id"@, match parent {
            Some(p) => uuid_text(p),
            None => Seq::empty(),
        }),
        ("operation_id"@, uuid_text(operation)),
        ("status"@, status),
        ("workspace_root"@, match workspace_root {
            Some(root) => root,
            None => Seq::empty(),
        }),
    ]
}

/// The context handed to lifecycle hooks of an agent run (see
/// `lifecycle_metadata`); ids are written as hyphenated UUIDs.
pub fn agent_lifecycle_hook_context(
    root_agent: u128,
    agent: u128,
    parent: Option<u128>,
    operation: u128,
    task: &str,
    status: &str,
    workspace_root: Option<String>,
) -> (context: LifecycleHookContext)
    ensures
        context.session_id@ == uuid_text(root_agent),
        context.turn_count == 0,
        context.message@ == task@,
        pairs_view(context.metadata@) == lifecycle_metadata(
            agent,
            parent,
            operation,
            status@,
            text_option(workspace_root),
        ),
{
    let ghost root_view = text_option(workspace_root);
    let mut metadata: Vec<(String, String)> = Vec::new();
    metadata.push(("agent_id".to_owned(), uuid_string(agent)));
    let parent_text = match parent {
        Some(p) => uuid_string(p),
        None => String::new(),
    };
    metadata.push(("parent_agent_id".to_owned(), parent_text));
    metadata.push(("operation_id".to_owned(), uuid_string(operation)));
    metadata.push(("status".to_owned(), String::from_str(status)));
    let root_text = match workspace_root {
        Some(root) => root,
        None => String::new(),
    };
    metadata.push(("workspace_root".to_owned(), root_text));
    proof {
        assert(pairs_view(metadata@) =~= lifecycle_metadata(agent, parent, operation, status@, root_view));
    }
    LifecycleHookContext {
        session_id: uuid_string(root_agent),
        turn_count: 0,
        message: String::from_str(task),
        metadata,
    }
}

/// A run that has finished takes no new messages.
pub fn reject_terminal_target(target: &AgentLink) -> (outcome: Result<(), AgentControlError>)
    ensures
        is_terminal(target.status) ==> (outcome matches Err(e) && e.kind
            == AgentControlErrorKind::Terminal && e.message@
            == "terminal Agent rejects new messages"@),
        !is_terminal(target.status) ==> outcome is Ok,
{
    if terminal(target.status) {
        return Err(control_error(AgentControlErrorKind::Terminal, "terminal Agent rejects new messages"));
    }
    Ok(())
}

/// Who a validated spawn is: its agent, the process and workspace of its
/// root (none for a root itself), its depth and its parent's profile.
#[derive(Debug, Clone)]
pub struct ValidatedAgentIdentity {
    pub agent_id: u128,
    pub root_process_id: Option<u128>,
    pub root_workspace_id: Option<String>,
    pub depth: u16,
    pub parent_profile: Option<String>,
}

/// A spawn that names no parent starts a root: the agent is the root agent
/// itself, at depth zero, with no root process, root workspace or parent
/// profile.
pub fn root_identity(root_agent_id: u128) -> (identity: ValidatedAgentIdentity)
    ensures
        identity.agent_id == root_agent_id,
        identity.root_process_id is None,
        identity.root_workspace_id is None,
        identity.depth == 0,
        identity.parent_profile is None,
{
    ValidatedAgentIdentity {
        agent_id: root_agent_id,
        root_process_id: None,
        root_workspace_id: None,
        depth: 0,
        parent_profile: None,
    }
}

/// The workspace of a child's root: the one bound to the root process, else
/// the space of the first broadcast item the spawn carries, else the root
/// agent's own id (the canonical id of a turn workspace).
pub open spec fn root_workspace_of(
    bound: Option<Seq<char>>,
    first_broadcast_space: Option<Seq<char>>,
    root_agent_id: u128,
) -> Seq<char> {
    match bound {
        Some(space) => space,
        None => match first_broadcast_space {
            Some(space) => space,
            None => uuid_text(root_agent_id),
        },
    }
}

/// Chooses the root workspace of a child (see `root_workspace_of`).
pub fn root_workspace(bound: Option<String>, first_broadcast_space: Option<String>, root_agent_id: u128) -> (workspace: String)
    ensures
        workspace@ == root_workspace_of(
            text_option(bound),
            text_option(first_broadcast_space),
            root_agent_id,
        ),
{
    match bound {
        Some(space) => space,
        None => match first_broadcast_space {
            Some(space) => space,
            None => uuid_string(root_agent_id),
        },
    }
}

/// What startup recovery decided for an open run.
#[derive(Debug, Clone, Copy, PartialEq, Eq, Structural)]
pub enum AgentRecoveryDecision {
    Interrupt,
    Resume,
    Finalize,
}

/// The tally of a startup recovery.
#[derive(Debug, Clone, Copy, PartialEq, Eq, Structural)]
pub struct AgentRecoveryReport {
    pub open_rows: usize,
    pub interrupted: usize,
    pub resumed: usize,
    pub finalized: usize,
    pub recovery_failed: usize,
    pub unreconciled: usize,
}

/// The counter one recovered run adds to: 0 interrupted, 1 resumed,
/// 2 finalized, 3 failed. A run is resumed only when its runtime resumed it
/// from its checkpoint; a decision that could not be made counts as failed.
pub open spec fn recovery_class(decision: Option<AgentRecoveryDecision>, resumed: bool) -> int {
    match decision {
        Some(AgentRecoveryDecision::Interrupt) => 0,
        Some(AgentRecoveryDecision::Resume) => if resumed {
            1
        } else {
            3
        },
        Some(AgentRecoveryDecision::Finalize) => 2,
        None => 3,
    }
}

/// How many of `runs` (each its decision and whether its runtime resumed
/// it) count towards `class`.
pub open spec fn count_class(runs: Seq<(Option<AgentRecoveryDecision>, bool)>, class: int) -> nat
    decreases runs.len(),
{
    if runs.len() == 0 {
        0
    } else {
        count_class(runs.drop_last(), class) + if recovery_class(runs.last().0, runs.last().1)
            == class {
            1nat
        } else {
            0nat
        }
    }
}

/// How many runs still open after recovery have no recorded `Resume`
/// decision.
pub open spec fn count_unreconciled(recorded: Seq<Option<AgentRecoveryDecision>>) -> nat
    decreases recorded.len(),
{
    if recorded.len() == 0 {
        0
    } else {
        count_unreconciled(recorded.drop_last()) + if recorded.last() == Some(
            AgentRecoveryDecision::Resume,
        ) {
            0nat
        } else {
            1nat
        }
    }
}

proof fn lemma_count_class_bound(runs: Seq<(Option<AgentRecoveryDecision>, bool)>, class: int)
    ensures
        count_class(runs, class) <= runs.len(),
    decreases runs.len(),
{
    if runs.len() > 0 {
        lemma_count_class_bound(runs.drop_last(), class);
    }
}

proof fn lemma_count_unreconciled_bound(recorded: Seq<Option<AgentRecoveryDecision>>)
    ensures
        count_unreconciled(recorded) <= recorded.len(),
    decreases recorded.len(),
{
    if recorded.len() > 0 {
        lemma_count_unreconciled_bound(recorded.drop_last());
    }
}

/// Tallies a startup recovery: `runs` are the open runs found, each with
/// the decision made for it (`None` when none could be made) and whether
/// its runtime resumed it; `reopened` are the recorded decisions of the runs
/// still open afterwards.
pub fn tally_recovery(
    runs: &Vec<(Option<AgentRecoveryDecision>, bool)>,
    reopened: &Vec<Option<AgentRecoveryDecision>>,
) -> (report: AgentRecoveryReport)
    ensures
        report.open_rows == runs@.len(),
        report.interrupted == count_class(runs@, 0),
        report.resumed == count_class(runs@, 1),
        report.finalized == count_class(runs@, 2),
        report.recovery_failed == count_class(runs@, 3),
        report.unreconciled == count_unreconciled(reopened@),
{
    let mut report = AgentRecoveryReport {
        open_rows: runs.len(),
        interrupted: 0,
        resumed: 0,
        finalized: 0,
        recovery_failed: 0,
        unreconciled: 0,
    };
    let mut i: usize = 0;
    while i < runs.len()
        invariant
            0 <= i <= runs@.len(),
            report.open_rows == runs@.len(),
            report.unreconciled == 0,
            report.interrupted == count_class(runs@.take(i as int), 0),
            report.resumed == count_class(runs@.take(i as int), 1),
            report.finalized == count_class(runs@.take(i as int), 2),
            report.recovery_failed == count_class(runs@.take(i as int), 3),
        decreases runs@.len() - i,
    {
        proof {
            assert(runs@.take(i + 1).drop_last() =~= runs@.take(i as int));
            assert(runs@.take(i + 1).last() == runs@[i as int]);
            lemma_count_class_bound(runs@.take(i as int), 0);
            lemma_count_class_bound(runs@.take(i as int), 1);
            lemma_count_class_bound(runs@.take(i as int), 2);
            lemma_count_class_bound(runs@.take(i as int), 3);
        }
        let (decision, resumed) = runs[i];
        match decision {
            Some(AgentRecoveryDecision::Interrupt) => report.interrupted = report.interrupted + 1,
            Some(AgentRecoveryDecision::Resume) => {
                if resumed {
                    report.resumed = report.resumed + 1;
                } else {
                    report.recovery_failed = report.recovery_failed + 1;
                }
            },
            Some(AgentRecoveryDecision::Finalize) => report.finalized = report.finalized + 1,
            None => report.recovery_failed = report.recovery_failed + 1,
        }
        i = i + 1;
    }
    proof {
        assert(runs@.take(runs@.len() as int) =~= runs@);
    }
    let mut k: usize = 0;
    while k < reopened.len()
        invariant
            0 <= k <= reopened@.len(),
            report.open_rows == runs@.len(),
            report.interrupted == count_class(runs@, 0),
            report.resumed == count_class(runs@, 1),
            report.finalized == count_class(runs@, 2),
            report.recovery_failed == count_class(runs@, 3),
            report.unreconciled == count_unreconciled(reopened@.take(k as int)),
        decreases reopened@.len() - k,
    {
        proof {
            assert(reopened@.take(k + 1).drop_last() =~= reopened@.take(k as int));
            assert(reopened@.take(k + 1).last() == reopened@[k as int]);
            lemma_count_unreconciled_bound(reopened@.take(k as int));
        }
        if reopened[k] != Some(AgentRecoveryDecision::Resume) {
            report.unreconciled = report.unreconciled + 1;
        }
        k = k + 1;
    }
    proof {
        assert(reopened@.take(reopened@.len() as int) =~= reopened@);
    }
    report
}

} // verus!
