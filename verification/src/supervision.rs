//! Supervision policies for process failures.
//!
//! Each supervised process has a restart policy; processes may also belong
//! to a group whose OTP-style strategy decides which siblings restart with
//! a failed member:
//!
//! - `OneForOne`: only the failed process restarts (default);
//! - `OneForAll`: every other member restarts too;
//! - `RestForOne`: the members started after the failed one restart too.

use vstd::prelude::*;
use crate::keyed::{IdMap, TextMap};

verus! {

/// Why a process exited.
#[derive(Debug, Clone, PartialEq, Eq)]
pub enum ExitReason {
    Completed,
    Cancelled(String),
    Failed(String),
    Panic(String),
    DeadlineExceeded,
}

/// Whether an exit counts as a failure (failed, panicked, missed its
/// deadline).
pub open spec fn is_failure(reason: ExitReason) -> bool {
    reason is Failed || reason is Panic || reason is DeadlineExceeded
}

/// Restart policy of one process.
#[derive(Debug, Clone, Copy, PartialEq, Eq, Structural)]
pub enum RestartPolicy {
    Never,
    RestartOnFailure { max_restarts: usize },
}

/// What the supervisor decided about an exit.
#[derive(Debug, Clone, PartialEq, Eq)]
pub enum RestartDecision {
    DoNotRestart,
    Restart { attempt: usize },
    FailedLimitReached,
    /// The failed process and these siblings restart together.
    RestartGroup { attempt: usize, siblings: Vec<u128> },
}

/// How a group handles the failure of a member.
#[derive(Debug, Clone, Copy, PartialEq, Eq, Structural)]
pub enum GroupStrategy {
    OneForOne,
    OneForAll,
    RestForOne,
}

/// A supervised group: its strategy and its members in start order.
#[derive(Debug, Clone)]
pub struct SupervisorGroup {
    pub strategy: GroupStrategy,
    pub members: Vec<u128>,
}

/// Position of the first occurrence of `id` in `members`.
pub open spec fn first_position(members: Seq<u128>, id: u128) -> int {
    choose|i: int|
        0 <= i < members.len() && members[i] == id && forall|j: int|
            0 <= j < i ==> #[trigger] members[j] != id
}

/// Every process but `id`.
pub open spec fn other_than(id: u128) -> spec_fn(u128) -> bool {
    |p: u128| p != id
}

/// The siblings that restart with `id` under `strategy`.
pub open spec fn siblings_for(strategy: GroupStrategy, members: Seq<u128>, id: u128) -> Seq<u128> {
    match strategy {
        GroupStrategy::OneForOne => Seq::empty(),
        GroupStrategy::OneForAll => members.filter(other_than(id)),
        GroupStrategy::RestForOne => if members.contains(id) {
            members.subrange(first_position(members, id) + 1, members.len() as int)
        } else {
            Seq::empty()
        },
    }
}

/// Supervisor of process restarts and groups.
#[derive(Debug)]
pub struct SupervisorTree {
    policies: IdMap<RestartPolicy>,
    restarts: IdMap<usize>,
    process_groups: IdMap<String>,
    groups: TextMap<SupervisorGroup>,
}

impl SupervisorTree {
    pub closed spec fn policies(&self) -> Map<u128, RestartPolicy> {
        self.policies@
    }

    /// Restarts counted so far per process.
    pub closed spec fn restarts(&self) -> Map<u128, usize> {
        self.restarts@
    }

    /// Group name of each grouped process.
    pub closed spec fn process_groups(&self) -> Map<u128, Seq<char>> {
        self.process_groups@.map_values(|name: String| name@)
    }

    /// Strategy of each group.
    pub closed spec fn group_strategies(&self) -> Map<Seq<char>, GroupStrategy> {
        self.groups@.map_values(|g: SupervisorGroup| g.strategy)
    }

    /// Members of each group, in start order.
    pub closed spec fn group_members(&self) -> Map<Seq<char>, Seq<u128>> {
        self.groups@.map_values(|g: SupervisorGroup| g.members@)
    }

    pub closed spec fn wf(&self) -> bool {
        &&& self.policies.wf()
        &&& self.restarts.wf()
        &&& self.process_groups.wf()
        &&& self.groups.wf()
    }

    /// The policy of `id`; unsupervised processes never restart.
    pub open spec fn policy_of(&self, id: u128) -> RestartPolicy {
        if self.policies().contains_key(id) {
            self.policies()[id]
        } else {
            RestartPolicy::Never
        }
    }

    /// Restarts counted so far for `id`.
    pub open spec fn restarts_of(&self, id: u128) -> int {
        if self.restarts().contains_key(id) {
            self.restarts()[id] as int
        } else {
            0
        }
    }

    /// The siblings that restart with `id` (empty when it is in no
    /// existing group).
    pub open spec fn group_siblings(&self, id: u128) -> Seq<u128> {
        if self.process_groups().contains_key(id) && self.group_strategies().contains_key(
            self.process_groups()[id],
        ) {
            let name = self.process_groups()[id];
            siblings_for(self.group_strategies()[name], self.group_members()[name], id)
        } else {
            Seq::empty()
        }
    }

    /// An empty supervisor.
    pub fn new() -> (tree: Self)
        ensures
            tree.wf(),
            tree.policies() == Map::<u128, RestartPolicy>::empty(),
            tree.restarts() == Map::<u128, usize>::empty(),
            tree.process_groups() == Map::<u128, Seq<char>>::empty(),
            tree.group_strategies() == Map::<Seq<char>, GroupStrategy>::empty(),
            tree.group_members() == Map::<Seq<char>, Seq<u128>>::empty(),
    {
        let tree = SupervisorTree {
            policies: IdMap::new(),
            restarts: IdMap::new(),
            process_groups: IdMap::new(),
            groups: TextMap::new(),
        };
        proof {
            assert(tree.process_groups() =~= Map::<u128, Seq<char>>::empty());
            assert(tree.group_strategies() =~= Map::<Seq<char>, GroupStrategy>::empty());
            assert(tree.group_members() =~= Map::<Seq<char>, Seq<u128>>::empty());
        }
        tree
    }

    /// Registers `id` under `policy`.
    pub fn supervise(&mut self, id: u128, policy: RestartPolicy)
        requires
            old(self).wf(),
        ensures
            final(self).wf(),
            final(self).policies() == old(self).policies().insert(id, policy),
            final(self).restarts() == old(self).restarts(),
            final(self).process_groups() == old(self).process_groups(),
            final(self).group_strategies() == old(self).group_strategies(),
            final(self).group_members() == old(self).group_members(),
    {
        self.policies.insert(id, policy);
    }

    /// Creates (or resets to empty) the group `name` with `strategy`.
    pub fn create_group(&mut self, name: &str, strategy: GroupStrategy)
        requires
            old(self).wf(),
        ensures
            final(self).wf(),
            final(self).group_strategies() == old(self).group_strategies().insert(name@, strategy),
            final(self).group_members() == old(self).group_members().insert(
                name@,
                Seq::<u128>::empty(),
            ),
            final(self).policies() == old(self).policies(),
            final(self).restarts() == old(self).restarts(),
            final(self).process_groups() == old(self).process_groups(),
    {
        let group = SupervisorGroup { strategy, members: Vec::new() };
        self.groups.insert(name.to_owned(), group);
        proof {
            assert(self.group_strategies() =~= old(self).group_strategies().insert(
                name@,
                strategy,
            ));
            assert(self.group_members() =~= old(self).group_members().insert(
                name@,
                Seq::<u128>::empty(),
            ));
        }
    }

    /// Puts `id` in group `name`; it joins the group's start order when the
    /// group exists.
    pub fn add_to_group(&mut self, name: &str, id: u128)
        requires
            old(self).wf(),
        ensures
            final(self).wf(),
            final(self).process_groups() == old(self).process_groups().insert(id, name@),
            final(self).group_strategies() == old(self).group_strategies(),
            old(self).group_members().contains_key(name@) ==> final(self).group_members()
                == old(self).group_members().insert(
                name@,
                old(self).group_members()[name@].push(id),
            ),
            !old(self).group_members().contains_key(name@) ==> final(self).group_members()
                == old(self).group_members(),
            final(self).policies() == old(self).policies(),
            final(self).restarts() == old(self).restarts(),
    {
        self.process_groups.insert(id, name.to_owned());
        proof {
            assert(self.process_groups() =~= old(self).process_groups().insert(id, name@));
        }
        match self.groups.remove(name) {
            Some(group) => {
                let mut members = group.members;
                members.push(id);
                let updated = SupervisorGroup { strategy: group.strategy, members };
                self.groups.insert(name.to_owned(), updated);
                proof {
                    assert(self.group_strategies() =~= old(self).group_strategies());
                    assert(self.group_members() =~= old(self).group_members().insert(
                        name@,
                        old(self).group_members()[name@].push(id),
                    ));
                }
            },
            None => {
                proof {
                    assert(self.group_strategies() =~= old(self).group_strategies());
                    assert(self.group_members() =~= old(self).group_members());
                }
            },
        }
    }

    /// The group `id` belongs to, if any.
    pub fn group_of(&self, id: u128) -> (name: Option<&str>)
        requires
            self.wf(),
        ensures
            match name {
                Some(n) => self.process_groups().contains_key(id) && self.process_groups()[id]
                    == n@,
                None => !self.process_groups().contains_key(id),
            },
    {
        match self.process_groups.get(id) {
            Some(name) => Some(name.as_str()),
            None => None,
        }
    }

    /// The siblings restarting with `id`, computed from its group.
    fn siblings_of(&self, id: u128) -> (siblings: Vec<u128>)
        requires
            self.wf(),
        ensures
            siblings@ == self.group_siblings(id),
    {
        let name = match self.process_groups.get(id) {
            Some(name) => name,
            None => {
                return Vec::new();
            },
        };
        let group = match self.groups.get(name.as_str()) {
            Some(group) => group,
            None => {
                return Vec::new();
            },
        };
        proof {
            assert(self.process_groups@.contains_key(id));
            assert(self.process_groups().contains_key(id));
            assert(self.groups@.contains_key(name@));
            assert(self.group_strategies().contains_key(name@));
            assert(self.process_groups()[id] == name@);
            assert(self.group_strategies()[name@] == group.strategy);
            assert(self.group_members()[name@] == group.members@);
        }
        let members = &group.members;
        match group.strategy {
            GroupStrategy::OneForOne => {
                let empty: Vec<u128> = Vec::new();
                proof {
                    assert(empty@ =~= Seq::<u128>::empty());
                    assert(self.group_strategies()[self.process_groups()[id]]
                        == GroupStrategy::OneForOne);
                    assert(self.group_siblings(id) == Seq::<u128>::empty());
                }
                empty
            },
            GroupStrategy::OneForAll => {
                let mut out: Vec<u128> = Vec::new();
                let ghost keep = other_than(id);
                let mut i: usize = 0;
                while i < members.len()
                    invariant
                        0 <= i <= members@.len(),
                        out@ == members@.take(i as int).filter(keep),
                        keep == other_than(id),
                    decreases members@.len() - i,
                {
                    let p = members[i];
                    if p != id {
                        out.push(p);
                    }
                    proof {
                        lemma_filter_prefix_step(members@, i as int, keep);
                    }
                    i = i + 1;
                }
                proof {
                    assert(members@.take(members@.len() as int) =~= members@);
                }
                out
            },
            GroupStrategy::RestForOne => {
                let mut pos: usize = 0;
                while pos < members.len()
                    invariant
                        0 <= pos <= members@.len(),
                        forall|j: int| 0 <= j < pos ==> #[trigger] members@[j] != id,
                    ensures
                        0 <= pos <= members@.len(),
                        forall|j: int| 0 <= j < pos ==> #[trigger] members@[j] != id,
                        pos < members@.len() ==> members@[pos as int] == id,
                    decreases members@.len() - pos,
                {
                    if members[pos] == id {
                        break;
                    }
                    pos = pos + 1;
                }
                if pos == members.len() {
                    proof {
                        assert(!members@.contains(id)) by {
                            if members@.contains(id) {
                                let j = choose|j: int| 0 <= j < members@.len() && members@[j] == id;
                                assert(members@[j] != id);
                            }
                        }
                    }
                    let empty: Vec<u128> = Vec::new();
                    proof {
                        assert(empty@ =~= Seq::<u128>::empty());
                    }
                    return empty;
                }
                proof {
                    assert(members@[pos as int] == id);
                    assert(members@.contains(id));
                    let f = first_position(members@, id);
                    assert(0 <= f < members@.len() && members@[f] == id && forall|j: int|
                        0 <= j < f ==> #[trigger] members@[j] != id);
                    if f < pos {
                        assert(members@[f] != id);
                    }
                    if pos < f {
                        assert(members@[pos as int] != id);
                    }
                    assert(f == pos);
                }
                let mut out: Vec<u128> = Vec::new();
                let mut k: usize = pos + 1;
                while k < members.len()
                    invariant
                        pos + 1 <= k <= members@.len(),
                        out@ == members@.subrange(pos + 1, k as int),
                    decreases members@.len() - k,
                {
                    out.push(members[k]);
                    proof {
                        assert(members@.subrange(pos + 1, k + 1) =~= members@.subrange(
                            pos + 1,
                            k as int,
                        ).push(members@[k as int]));
                    }
                    k = k + 1;
                }
                out
            },
        }
    }

    /// Records the exit of `id` and decides whether and how it restarts.
    ///
    /// Only failures (failed, panicked, deadline exceeded) of processes under
    /// `RestartOnFailure` restart, each time counting one more attempt, until
    /// the attempts would exceed the policy's maximum. A restart in a group
    /// whose strategy names siblings becomes a group restart, and the
    /// siblings' restart counts start over.
    pub fn record_exit(&mut self, id: u128, reason: &ExitReason) -> (decision: RestartDecision)
        requires
            old(self).wf(),
            is_failure(*reason) && old(self).policy_of(id) is RestartOnFailure ==> old(self).restarts_of(
                id,
            ) < usize::MAX,
        ensures
            final(self).wf(),
            exit_recorded(*old(self), id, *reason, *final(self), decision),
    {
        let failure = match reason {
            ExitReason::Failed(_) | ExitReason::Panic(_) | ExitReason::DeadlineExceeded => true,
            _ => false,
        };
        if !failure {
            return RestartDecision::DoNotRestart;
        }
        let policy = match self.policies.get(id) {
            Some(p) => *p,
            None => RestartPolicy::Never,
        };
        let max_restarts = match policy {
            RestartPolicy::Never => {
                return RestartDecision::DoNotRestart;
            },
            RestartPolicy::RestartOnFailure { max_restarts } => max_restarts,
        };
        let count = match self.restarts.get(id) {
            Some(c) => *c,
            None => 0,
        };
        let next = count + 1;
        if next > max_restarts {
            return RestartDecision::FailedLimitReached;
        }
        self.restarts.insert(id, next);
        let siblings = self.siblings_of(id);
        if siblings.len() == 0 {
            return RestartDecision::Restart { attempt: next };
        }
        let ghost base = self.restarts@;
        let ghost policies = self.policies;
        let ghost process_groups = self.process_groups;
        let ghost groups = self.groups;
        let mut k: usize = 0;
        while k < siblings.len()
            invariant
                0 <= k <= siblings@.len(),
                self.restarts.wf(),
                self.policies == policies,
                self.process_groups == process_groups,
                self.groups == groups,
                self.restarts@ == base.remove_keys(siblings@.take(k as int).to_set()),
            decreases siblings@.len() - k,
        {
            self.restarts.remove(siblings[k]);
            proof {
                assert(siblings@.take(k + 1).to_set() =~= siblings@.take(k as int).to_set().insert(
                    siblings@[k as int],
                )) by {
                    assert(siblings@.take(k + 1) =~= siblings@.take(k as int).push(
                        siblings@[k as int],
                    ));
                    lemma_push_to_set(siblings@.take(k as int), siblings@[k as int]);
                }
                assert(self.restarts@ =~= base.remove_keys(siblings@.take(k + 1).to_set()));
            }
            k = k + 1;
        }
        proof {
            assert(siblings@.take(siblings@.len() as int) =~= siblings@);
        }
        RestartDecision::RestartGroup { attempt: next, siblings }
    }
}

/// One more step of filtering a prefix.
pub proof fn lemma_filter_prefix_step(s: Seq<u128>, i: int, p: spec_fn(u128) -> bool)
    requires
        0 <= i < s.len(),
    ensures
        s.take(i + 1).filter(p) == if p(s[i]) {
            s.take(i).filter(p).push(s[i])
        } else {
            s.take(i).filter(p)
        },
{
    reveal(Seq::filter);
    assert(s.take(i + 1).drop_last() =~= s.take(i));
}

/// The set of a sequence with one more element.
pub proof fn lemma_push_to_set(s: Seq<u128>, x: u128)
    ensures
        s.push(x).to_set() == s.to_set().insert(x),
{
    assert forall|y: u128| #[trigger] s.push(x).to_set().contains(y) <==> s.to_set().insert(
        x,
    ).contains(y) by {
        if s.push(x).contains(y) {
            let j = choose|j: int| 0 <= j < s.push(x).len() && s.push(x)[j] == y;
            if j < s.len() {
                assert(s[j] == y);
                assert(s.contains(y));
            }
        }
        if s.contains(y) {
            let j = choose|j: int| 0 <= j < s.len() && s[j] == y;
            assert(s.push(x)[j] == y);
        }
        if y == x {
            assert(s.push(x)[s.len() as int] == x);
        }
    }
    assert(s.push(x).to_set() =~= s.to_set().insert(x));
}

/// What recording the exit of `id` for `reason` does to the tree `before`,
/// giving `after` and `decision`. Only failures (failed, panicked, deadline
/// exceeded) of processes under `RestartOnFailure` restart, each time
/// counting one more attempt, until the attempts would exceed the policy's
/// maximum; a restart in a group whose strategy names siblings becomes a
/// group restart, and the siblings' restart counts start over. Nothing but
/// the restart counts ever changes.
pub open spec fn exit_recorded(
    before: SupervisorTree,
    id: u128,
    reason: ExitReason,
    after: SupervisorTree,
    decision: RestartDecision,
) -> bool {
    &&& after.policies() == before.policies()
    &&& after.process_groups() == before.process_groups()
    &&& after.group_strategies() == before.group_strategies()
    &&& after.group_members() == before.group_members()
    &&& !is_failure(reason) ==> decision == RestartDecision::DoNotRestart && after.restarts()
        == before.restarts()
    &&& is_failure(reason) ==> match before.policy_of(id) {
        RestartPolicy::Never => decision == RestartDecision::DoNotRestart && after.restarts()
            == before.restarts(),
        RestartPolicy::RestartOnFailure { max_restarts } => {
            let next = (before.restarts_of(id) + 1) as usize;
            let siblings = before.group_siblings(id);
            if before.restarts_of(id) + 1 > max_restarts {
                decision == RestartDecision::FailedLimitReached && after.restarts()
                    == before.restarts()
            } else if siblings.len() == 0 {
                decision == (RestartDecision::Restart { attempt: next }) && after.restarts()
                    == before.restarts().insert(id, next)
            } else {
                &&& decision matches RestartDecision::RestartGroup { attempt, siblings: s }
                    && attempt == next && s@ == siblings
                &&& after.restarts() == before.restarts().insert(id, next).remove_keys(
                    siblings.to_set(),
                )
            }
        },
    }
}

/// An exit that is no failure, or of a process that never restarts (one
/// never supervised included), is answered `DoNotRestart` and leaves the
/// whole tree as it was, group siblings' counts included.
pub proof fn law_non_failure_changes_nothing(
    before: SupervisorTree,
    id: u128,
    reason: ExitReason,
    after: SupervisorTree,
    decision: RestartDecision,
)
    requires
        exit_recorded(before, id, reason, after, decision),
        !is_failure(reason) || before.policy_of(id) is Never,
    ensures
        decision == RestartDecision::DoNotRestart,
        after.restarts() == before.restarts(),
        after.policies() == before.policies(),
        after.process_groups() == before.process_groups(),
        after.group_strategies() == before.group_strategies(),
        after.group_members() == before.group_members(),
{
}

/// The smaller of `a` and `b`.
pub open spec fn min_count(a: int, b: int) -> int {
    if a <= b {
        a
    } else {
        b
    }
}

/// Whether `trees[j + 1]` and `decisions[j]` come from recording a failing
/// exit of `id` on `trees[j]`, for every `j`.
pub open spec fn failing_exits(
    trees: Seq<SupervisorTree>,
    decisions: Seq<RestartDecision>,
    reasons: Seq<ExitReason>,
    id: u128,
) -> bool {
    &&& trees.len() == decisions.len() + 1
    &&& reasons.len() == decisions.len()
    &&& forall|j: int|
        0 <= j < decisions.len() ==> is_failure(#[trigger] reasons[j]) && exit_recorded(
            trees[j],
            id,
            reasons[j],
            trees[j + 1],
            decisions[j],
        )
}

proof fn lemma_failing_prefix(
    trees: Seq<SupervisorTree>,
    decisions: Seq<RestartDecision>,
    reasons: Seq<ExitReason>,
    id: u128,
    max_restarts: usize,
    n: int,
)
    requires
        failing_exits(trees, decisions, reasons, id),
        trees[0].policy_of(id) == (RestartPolicy::RestartOnFailure { max_restarts }),
        trees[0].group_siblings(id).len() == 0,
        trees[0].restarts_of(id) == 0,
        0 <= n <= decisions.len(),
    ensures
        trees[n].policy_of(id) == (RestartPolicy::RestartOnFailure { max_restarts }),
        trees[n].group_siblings(id) == trees[0].group_siblings(id),
        trees[n].restarts_of(id) == min_count(n, max_restarts as int),
    decreases n,
{
    if n > 0 {
        lemma_failing_prefix(trees, decisions, reasons, id, max_restarts, n - 1);
        let j = n - 1;
        assert(is_failure(reasons[j]) && exit_recorded(trees[j], id, reasons[j], trees[j + 1], decisions[j]));
        assert(trees[n].group_siblings(id) == trees[j].group_siblings(id));
    }
}

/// The `k`-th failing exit of a process under `RestartOnFailure { max }`
/// that restarts alone (no group siblings), counted from a fresh count, is
/// answered `Restart { attempt: k }` while `k <= max` and
/// `FailedLimitReached` afterwards, and the count then stays at `max`.
pub proof fn law_failures_count_up_to_the_limit(
    trees: Seq<SupervisorTree>,
    decisions: Seq<RestartDecision>,
    reasons: Seq<ExitReason>,
    id: u128,
    max_restarts: usize,
)
    requires
        failing_exits(trees, decisions, reasons, id),
        trees[0].policy_of(id) == (RestartPolicy::RestartOnFailure { max_restarts }),
        trees[0].group_siblings(id).len() == 0,
        trees[0].restarts_of(id) == 0,
    ensures
        forall|k: int|
            1 <= k <= decisions.len() ==> #[trigger] decisions[k - 1] == if k <= max_restarts {
                RestartDecision::Restart { attempt: k as usize }
            } else {
                RestartDecision::FailedLimitReached
            },
        forall|k: int|
            0 <= k <= decisions.len() ==> #[trigger] trees[k].restarts_of(id) == min_count(
                k,
                max_restarts as int,
            ),
{
    assert forall|k: int| 1 <= k <= decisions.len() implies #[trigger] decisions[k - 1] == if k
        <= max_restarts {
        RestartDecision::Restart { attempt: k as usize }
    } else {
        RestartDecision::FailedLimitReached
    } by {
        lemma_failing_prefix(trees, decisions, reasons, id, max_restarts, k - 1);
        assert(is_failure(reasons[k - 1]) && exit_recorded(
            trees[k - 1],
            id,
            reasons[k - 1],
            trees[k],
            decisions[k - 1],
        ));
    }
    assert forall|k: int| 0 <= k <= decisions.len() implies #[trigger] trees[k].restarts_of(id)
        == min_count(k, max_restarts as int) by {
        lemma_failing_prefix(trees, decisions, reasons, id, max_restarts, k);
    }
}

/// Under `OneForAll` every other member restarts with the failed one, and
/// the failed one is not named among its siblings.
pub proof fn law_one_for_all_siblings(members: Seq<u128>, id: u128)
    ensures
        !siblings_for(GroupStrategy::OneForAll, members, id).contains(id),
        forall|p: u128| #[trigger] members.contains(p) && p != id ==> siblings_for(
            GroupStrategy::OneForAll,
            members,
            id,
        ).contains(p),
{
    let sib = siblings_for(GroupStrategy::OneForAll, members, id);
    if sib.contains(id) {
        let i = choose|i: int| 0 <= i < sib.len() && sib[i] == id;
        members.lemma_filter_pred(other_than(id), i);
    }
    assert forall|p: u128| #[trigger] members.contains(p) && p != id implies sib.contains(p) by {
        members.lemma_filter_contains_rev(other_than(id), p);
    }
}

/// Under `RestForOne` the siblings are the members started after the
/// failed one; a member that is not in the group has none.
pub proof fn law_rest_for_one_siblings(members: Seq<u128>, id: u128, k: int)
    requires
        0 <= k < members.len(),
        members[k] == id,
        forall|j: int| 0 <= j < k ==> #[trigger] members[j] != id,
    ensures
        siblings_for(GroupStrategy::RestForOne, members, id) == members.subrange(
            k + 1,
            members.len() as int,
        ),
{
    assert(members.contains(id));
    let f = first_position(members, id);
    if f < k {
        assert(members[f] != id);
    }
    if k < f {
        assert(members[k] != id);
    }
}

} // verus!
