//! Root-scoped Agent topology, role and storage admission.
//!
//! The admission state tracks, per root Agent, how many Agents are resident,
//! queued and running and how much storage they reserved, plus the global
//! pool of running slots and the FIFO of waiters for a slot. The async
//! waiting and the rollout budget live outside; every decision on the state
//! is taken here.

use vstd::prelude::*;
use std::collections::VecDeque;
use crate::control_error::{AgentControlError, AgentControlErrorKind, control_error};
use crate::text::{chars_of, ascii_lowercase, contains_chars, seq_ascii_lowercase, seq_contains};

verus! {

/// Limits that govern Agent admission.
#[derive(Debug, Clone, Copy)]
pub struct AgentAdmissionConfig {
    pub max_agents_per_root: usize,
    pub max_running_agents: usize,
    pub max_queued_per_root: usize,
    pub max_depth: u16,
    pub max_child_tokens: u64,
    pub max_child_cost_micro: Option<u64>,
    pub max_storage_bytes: u64,
    pub max_storage_items: u64,
    pub sibling_fairness_quantum: u64,
    pub root_max_tokens: u64,
    pub root_max_cost_micro: Option<u64>,
}

/// Storage a child Agent asks to reserve.
#[derive(Debug, Clone, Copy, Default, PartialEq, Eq, Structural)]
pub struct AgentStorageRequest {
    pub bytes: u64,
    pub items: u64,
}

/// A child's cost allowance, already converted from dollars to
/// micro-dollars (rounded up). `Invalid` stands for an amount that is not a
/// finite, non-negative value representable in micro-dollars.
#[derive(Debug, Clone, Copy, PartialEq, Eq, Structural)]
pub enum CostRequest {
    Unbounded,
    Micro(u64),
    Invalid,
}

/// The budget part of a spawn request that admission inspects.
#[derive(Debug, Clone, Copy)]
pub struct AgentBudgetRequest {
    pub max_input_tokens: u64,
    pub max_output_tokens: u64,
    pub max_depth: u16,
    pub cost: CostRequest,
}

/// One admission request: the root whose tree grows, the child's budget,
/// its depth, the profile of its parent and the storage it reserves.
#[derive(Debug, Clone)]
pub struct AgentAdmissionRequest {
    pub root: u128,
    pub budget: AgentBudgetRequest,
    pub depth: u16,
    pub parent_profile: Option<String>,
    pub storage: AgentStorageRequest,
}

impl AgentAdmissionRequest {
    pub fn new(
        root: u128,
        budget: AgentBudgetRequest,
        depth: u16,
        parent_profile: Option<String>,
        storage: AgentStorageRequest,
    ) -> (request: Self)
        ensures
            request.root == root,
            request.budget == budget,
            request.depth == depth,
            request.parent_profile == parent_profile,
            request.storage == storage,
    {
        AgentAdmissionRequest { root, budget, depth, parent_profile, storage }
    }
}

/// Counters over all roots.
#[derive(Debug, Clone, Copy, Default, PartialEq, Eq, Structural)]
pub struct AgentAdmissionMetrics {
    pub roots: usize,
    pub resident_agents: usize,
    pub queued_agents: usize,
    pub running_agents: usize,
    pub resident_idle_agents: usize,
    pub reserved_storage_bytes: u64,
    pub reserved_storage_items: u64,
}

/// Whether a requested optional amount exceeds an optional limit. An
/// unbounded request exceeds any bounded limit; nothing exceeds an
/// unbounded limit.
pub open spec fn spec_exceeds_optional(requested: Option<u64>, limit: Option<u64>) -> bool {
    match (requested, limit) {
        (Some(_), None) => false,
        (Some(requested), Some(limit)) => requested > limit,
        (None, Some(_)) => true,
        (None, None) => false,
    }
}

pub fn exceeds_optional(requested: Option<u64>, limit: Option<u64>) -> (exceeds: bool)
    ensures
        exceeds == spec_exceeds_optional(requested, limit),
{
    match (requested, limit) {
        (Some(_), None) => false,
        (Some(requested), Some(limit)) => requested > limit,
        (None, Some(_)) => true,
        (None, None) => false,
    }
}

/// Role fragments of the internal memory and consolidation Agents.
pub open spec fn non_delegating_fragments() -> Seq<Seq<char>> {
    seq!["memory"@, "mnemosyne"@, "consolidat"@, "internal-recall"@]
}

/// Whether a profile names an internal memory/consolidation role, compared
/// case-insensitively for ASCII letters.
pub open spec fn spec_is_non_delegating_role(profile: Seq<char>) -> bool {
    exists|k: int|
        0 <= k < non_delegating_fragments().len() && seq_contains(
            seq_ascii_lowercase(profile),
            #[trigger] non_delegating_fragments()[k],
        )
}

pub fn is_non_delegating_role(profile: &str) -> (internal: bool)
    ensures
        internal == spec_is_non_delegating_role(profile@),
{
    let lowered = ascii_lowercase(&chars_of(profile));
    let roles: [&str; 4] = ["memory", "mnemosyne", "consolidat", "internal-recall"];
    let ghost fragments = non_delegating_fragments();
    assert(roles@.map_values(|r: &str| r@) =~= fragments);
    let mut k: usize = 0;
    while k < 4
        invariant
            0 <= k <= 4,
            roles@.map_values(|r: &str| r@) == fragments,
            lowered@ == seq_ascii_lowercase(profile@),
            fragments == non_delegating_fragments(),
            forall|j: int| 0 <= j < k ==> !seq_contains(lowered@, #[trigger] fragments[j]),
        decreases 4 - k,
    {
        let needle = chars_of(roles[k]);
        assert(needle@ == fragments[k as int]);
        if contains_chars(&lowered, &needle) {
            return true;
        }
        k = k + 1;
    }
    false
}

/// Token total asked for by a child, when it fits in `u64`.
pub open spec fn requested_tokens(budget: AgentBudgetRequest) -> int {
    budget.max_input_tokens + budget.max_output_tokens
}

/// The verdict of the admission policy on a request: `None` when it may be
/// admitted, or the kind and message of the refusal, checked in this order.
pub open spec fn policy_refusal(
    config: AgentAdmissionConfig,
    budget: AgentBudgetRequest,
    depth: u16,
    parent_profile: Option<Seq<char>>,
    storage: AgentStorageRequest,
) -> Option<(AgentControlErrorKind, Seq<char>)> {
    if requested_tokens(budget) > u64::MAX {
        Some((AgentControlErrorKind::InvalidRequest, "Agent token request overflow"@))
    } else if depth > config.max_depth || depth > budget.max_depth {
        Some((AgentControlErrorKind::Capacity, "Agent tree depth is exhausted"@))
    } else if requested_tokens(budget) > config.max_child_tokens {
        Some((AgentControlErrorKind::Capacity, "Agent child token allowance is exhausted"@))
    } else if budget.cost is Invalid {
        Some((AgentControlErrorKind::InvalidRequest, "Agent cost budget is invalid"@))
    } else if spec_exceeds_optional(
        match budget.cost {
            CostRequest::Micro(m) => Some(m),
            _ => None,
        },
        config.max_child_cost_micro,
    ) {
        Some((AgentControlErrorKind::Capacity, "Agent child cost allowance is exhausted"@))
    } else if storage.bytes > config.max_storage_bytes || storage.items
        > config.max_storage_items {
        Some((AgentControlErrorKind::Capacity, "Agent storage request exceeds policy"@))
    } else if parent_profile matches Some(p) && spec_is_non_delegating_role(p) {
        Some(
            (
                AgentControlErrorKind::Forbidden,
                "internal memory/consolidation Agent roles cannot delegate"@,
            ),
        )
    } else {
        None
    }
}

/// The view of an optional profile name.
pub open spec fn profile_view(profile: Option<String>) -> Option<Seq<char>> {
    match profile {
        Some(p) => Some(p@),
        None => None,
    }
}

/// Checks a request against the topology-independent policy: token, depth,
/// cost and storage allowances, and the rule that internal memory roles do
/// not delegate.
pub fn validate_policy(config: &AgentAdmissionConfig, request: &AgentAdmissionRequest) -> (verdict:
    Result<(), AgentControlError>)
    ensures
        match policy_refusal(
            *config,
            request.budget,
            request.depth,
            profile_view(request.parent_profile),
            request.storage,
        ) {
            None => verdict is Ok,
            Some((kind, message)) => verdict matches Err(e) && e.kind == kind && e.message@
                == message,
        },
{
    let budget = &request.budget;
    let requested = budget.max_input_tokens.checked_add(budget.max_output_tokens);
    let requested_tokens = match requested {
        Some(t) => t,
        None => {
            return Err(
                control_error(AgentControlErrorKind::InvalidRequest, "Agent token request overflow"),
            );
        },
    };
    if request.depth > config.max_depth || request.depth > budget.max_depth {
        return Err(control_error(AgentControlErrorKind::Capacity, "Agent tree depth is exhausted"));
    }
    if requested_tokens > config.max_child_tokens {
        return Err(
            control_error(
                AgentControlErrorKind::Capacity,
                "Agent child token allowance is exhausted",
            ),
        );
    }
    let requested_cost = match budget.cost {
        CostRequest::Unbounded => None,
        CostRequest::Micro(m) => Some(m),
        CostRequest::Invalid => {
            return Err(
                control_error(AgentControlErrorKind::InvalidRequest, "Agent cost budget is invalid"),
            );
        },
    };
    if exceeds_optional(requested_cost, config.max_child_cost_micro) {
        return Err(
            control_error(AgentControlErrorKind::Capacity, "Agent child cost allowance is exhausted"),
        );
    }
    if request.storage.bytes > config.max_storage_bytes || request.storage.items
        > config.max_storage_items {
        return Err(
            control_error(AgentControlErrorKind::Capacity, "Agent storage request exceeds policy"),
        );
    }
    match &request.parent_profile {
        Some(profile) => {
            if is_non_delegating_role(profile.as_str()) {
                return Err(
                    control_error(
                        AgentControlErrorKind::Forbidden,
                        "internal memory/consolidation Agent roles cannot delegate",
                    ),
                );
            }
        },
        None => {},
    }
    Ok(())
}

/// Admission counters of one root Agent tree.
#[derive(Debug, Clone, Copy, PartialEq, Eq, Structural)]
pub struct RootAdmissionState {
    pub root: u128,
    pub budget_scope: Option<u128>,
    pub resident: usize,
    pub queued: usize,
    pub running: usize,
    pub storage_bytes: u64,
    pub storage_items: u64,
    pub next_ticket: u64,
}

/// A root that nothing was admitted under yet.
pub open spec fn fresh_root(root: u128) -> RootAdmissionState {
    RootAdmissionState {
        root,
        budget_scope: None,
        resident: 0,
        queued: 0,
        running: 0,
        storage_bytes: 0,
        storage_items: 0,
        next_ticket: 0,
    }
}

/// Whether `roots` holds an entry for `root`.
pub open spec fn has_root(roots: Seq<RootAdmissionState>, root: u128) -> bool {
    exists|i: int| 0 <= i < roots.len() && (#[trigger] roots[i]).root == root
}

/// The position of the entry of `root` (meaningful when `has_root`).
pub open spec fn root_index(roots: Seq<RootAdmissionState>, root: u128) -> int {
    choose|i: int| 0 <= i < roots.len() && (#[trigger] roots[i]).root == root
}

/// No two entries share a root.
pub open spec fn unique_roots(roots: Seq<RootAdmissionState>) -> bool {
    forall|i: int, j: int|
        0 <= i < roots.len() && 0 <= j < roots.len() && #[trigger] roots[i].root
            == #[trigger] roots[j].root ==> i == j
}

/// `roots` with an entry for `root`, a fresh one appended when it had none.
pub open spec fn with_root(roots: Seq<RootAdmissionState>, root: u128) -> Seq<RootAdmissionState> {
    if has_root(roots, root) {
        roots
    } else {
        roots.push(fresh_root(root))
    }
}

/// Why a root refuses one more child, checked in this order.
pub open spec fn topology_refusal(
    config: AgentAdmissionConfig,
    r: RootAdmissionState,
    storage: AgentStorageRequest,
) -> Option<Seq<char>> {
    if r.resident >= config.max_agents_per_root {
        Some("Agent root tree capacity is exhausted"@)
    } else if r.queued >= config.max_queued_per_root {
        Some("Agent root queue capacity is exhausted"@)
    } else if r.storage_bytes + storage.bytes > config.max_storage_bytes || r.storage_items
        + storage.items > config.max_storage_items {
        Some("Agent root storage capacity is exhausted"@)
    } else {
        None
    }
}

/// `a + b`, or `u64::MAX` when that overflows.
pub open spec fn sat_add(a: u64, b: u64) -> u64 {
    if a + b > u64::MAX {
        u64::MAX
    } else {
        (a + b) as u64
    }
}

/// `a - b`, or zero when that underflows.
pub open spec fn sat_sub_usize(a: usize, b: usize) -> usize {
    if a >= b {
        (a - b) as usize
    } else {
        0
    }
}

pub open spec fn sat_sub_u64(a: u64, b: u64) -> u64 {
    if a >= b {
        (a - b) as u64
    } else {
        0
    }
}

/// A root after one more child was queued under it.
pub open spec fn enqueued_root(
    config: AgentAdmissionConfig,
    r: RootAdmissionState,
    storage: AgentStorageRequest,
) -> RootAdmissionState {
    RootAdmissionState {
        resident: (r.resident + 1) as usize,
        queued: (r.queued + 1) as usize,
        storage_bytes: (r.storage_bytes + storage.bytes) as u64,
        storage_items: (r.storage_items + storage.items) as u64,
        next_ticket: sat_add(r.next_ticket, config.sibling_fairness_quantum),
        ..r
    }
}

/// How far a lease has progressed.
#[derive(Debug, Clone, Copy, PartialEq, Eq, Structural)]
pub enum LeasePhase {
    Queued,
    Running,
    Closed,
}

/// A root after a lease in `phase` let go of its place and storage.
pub open spec fn released_root(
    r: RootAdmissionState,
    storage: AgentStorageRequest,
    phase: LeasePhase,
) -> RootAdmissionState {
    RootAdmissionState {
        resident: sat_sub_usize(r.resident, 1),
        queued: if phase is Queued {
            sat_sub_usize(r.queued, 1)
        } else {
            r.queued
        },
        running: if phase is Running {
            sat_sub_usize(r.running, 1)
        } else {
            r.running
        },
        storage_bytes: sat_sub_u64(r.storage_bytes, storage.bytes),
        storage_items: sat_sub_u64(r.storage_items, storage.items),
        ..r
    }
}

/// `roots` with the entry of `root` transformed by `f`, when there is one.
pub open spec fn update_root(
    roots: Seq<RootAdmissionState>,
    root: u128,
    new_entry: RootAdmissionState,
) -> Seq<RootAdmissionState> {
    if has_root(roots, root) {
        roots.update(root_index(roots, root), new_entry)
    } else {
        roots
    }
}

/// Sum of a per-root quantity over the roots.
pub open spec fn sum_roots(roots: Seq<RootAdmissionState>, f: spec_fn(RootAdmissionState) -> int) -> int
    decreases roots.len(),
{
    if roots.len() == 0 {
        0
    } else {
        sum_roots(roots.drop_last(), f) + f(roots.last())
    }
}

pub open spec fn resident_of() -> spec_fn(RootAdmissionState) -> int {
    |r: RootAdmissionState| r.resident as int
}

pub open spec fn queued_of() -> spec_fn(RootAdmissionState) -> int {
    |r: RootAdmissionState| r.queued as int
}

pub open spec fn running_of() -> spec_fn(RootAdmissionState) -> int {
    |r: RootAdmissionState| r.running as int
}

/// Resident Agents of a root that are neither queued nor running.
pub open spec fn idle_of() -> spec_fn(RootAdmissionState) -> int {
    |r: RootAdmissionState|
        if r.resident >= r.queued + r.running {
            r.resident - (r.queued + r.running)
        } else {
            0
        }
}

pub open spec fn storage_bytes_of() -> spec_fn(RootAdmissionState) -> int {
    |r: RootAdmissionState| r.storage_bytes as int
}

pub open spec fn storage_items_of() -> spec_fn(RootAdmissionState) -> int {
    |r: RootAdmissionState| r.storage_items as int
}

/// A prefix sum of non-negative quantities never exceeds the whole sum.
pub proof fn lemma_prefix_sum_bounded(
    roots: Seq<RootAdmissionState>,
    f: spec_fn(RootAdmissionState) -> int,
    n: int,
)
    requires
        0 <= n <= roots.len(),
        forall|r: RootAdmissionState| #[trigger] f(r) >= 0,
    ensures
        0 <= sum_roots(roots.take(n), f) <= sum_roots(roots, f),
    decreases roots.len() - n,
{
    if n < roots.len() {
        lemma_prefix_sum_bounded(roots, f, n + 1);
        assert(roots.take(n + 1).drop_last() =~= roots.take(n));
    } else {
        assert(roots.take(n) =~= roots);
    }
    lemma_sum_nonneg(roots.take(n), f);
}

pub proof fn lemma_sum_nonneg(roots: Seq<RootAdmissionState>, f: spec_fn(RootAdmissionState) -> int)
    requires
        forall|r: RootAdmissionState| #[trigger] f(r) >= 0,
    ensures
        sum_roots(roots, f) >= 0,
    decreases roots.len(),
{
    if roots.len() > 0 {
        lemma_sum_nonneg(roots.drop_last(), f);
    }
}

/// One more step of filtering a prefix.
pub proof fn lemma_filter_step(s: Seq<u64>, i: int, p: spec_fn(u64) -> bool)
    requires
        0 <= i < s.len(),
    ensures
        s.take(i + 1).filter(p) == if p(s[i]) {
            s.take(i).filter(p).push(s[i])
        } else {
            s.take(i).filter(p)
        },
{
    reveal(Seq::filter);
    assert(s.take(i + 1).drop_last() =~= s.take(i));
}

/// Mutable admission state: per-root counters, the running slots in use,
/// the FIFO of waiters for a slot and the next waiter id.
#[derive(Debug)]
pub struct AdmissionState {
    roots: Vec<RootAdmissionState>,
    running_slots: usize,
    waiters: VecDeque<u64>,
    next_waiter: u64,
}

impl AdmissionState {
    pub closed spec fn roots(&self) -> Seq<RootAdmissionState> {
        self.roots@
    }

    pub closed spec fn running_slots(&self) -> usize {
        self.running_slots
    }

    pub closed spec fn waiters(&self) -> Seq<u64> {
        self.waiters@
    }

    pub closed spec fn next_waiter(&self) -> u64 {
        self.next_waiter
    }

    /// Each root appears at most once.
    pub open spec fn wf(&self) -> bool {
        unique_roots(self.roots())
    }

    /// The sums reported by `metrics` fit their machine types.
    pub open spec fn metrics_fit(&self) -> bool {
        &&& sum_roots(self.roots(), resident_of()) <= usize::MAX
        &&& sum_roots(self.roots(), queued_of()) <= usize::MAX
        &&& sum_roots(self.roots(), running_of()) <= usize::MAX
        &&& sum_roots(self.roots(), idle_of()) <= usize::MAX
        &&& sum_roots(self.roots(), storage_bytes_of()) <= u64::MAX
        &&& sum_roots(self.roots(), storage_items_of()) <= u64::MAX
        &&& forall|i: int|
            0 <= i < self.roots().len() ==> #[trigger] self.roots()[i].queued
                + self.roots()[i].running <= usize::MAX
    }

    /// An empty state.
    pub fn new() -> (state: Self)
        ensures
            state.wf(),
            state.roots() == Seq::<RootAdmissionState>::empty(),
            state.running_slots() == 0,
            state.waiters() == Seq::<u64>::empty(),
            state.next_waiter() == 0,
    {
        AdmissionState {
            roots: Vec::new(),
            running_slots: 0,
            waiters: VecDeque::new(),
            next_waiter: 0,
        }
    }

    /// Position of `root`, if it has an entry.
    fn find_root(&self, root: u128) -> (index: Option<usize>)
        requires
            self.wf(),
        ensures
            match index {
                Some(i) => has_root(self.roots(), root) && i == root_index(self.roots(), root)
                    && i < self.roots().len(),
                None => !has_root(self.roots(), root),
            },
    {
        let mut i: usize = 0;
        while i < self.roots.len()
            invariant
                0 <= i <= self.roots.len(),
                self.wf(),
                forall|j: int| 0 <= j < i ==> (#[trigger] self.roots@[j]).root != root,
            decreases self.roots.len() - i,
        {
            if self.roots[i].root == root {
                assert(has_root(self.roots(), root));
                let ghost k = root_index(self.roots(), root);
                assert(self.roots@[k].root == root);
                assert(unique_roots(self.roots@));
                assert(self.roots@[i as int].root == self.roots@[k].root);
                return Some(i);
            }
            i = i + 1;
        }
        None
    }

    /// The counters of `root`, if it has an entry.
    pub fn root_state(&self, root: u128) -> (entry: Option<RootAdmissionState>)
        requires
            self.wf(),
        ensures
            match entry {
                Some(r) => has_root(self.roots(), root) && r == self.roots()[root_index(
                    self.roots(),
                    root,
                )],
                None => !has_root(self.roots(), root),
            },
    {
        match self.find_root(root) {
            Some(i) => Some(self.roots[i]),
            None => None,
        }
    }

    /// Ensures `root` has an entry and returns its position.
    fn entry(&mut self, root: u128) -> (index: usize)
        requires
            old(self).wf(),
        ensures
            final(self).wf(),
            final(self).roots() == with_root(old(self).roots(), root),
            has_root(final(self).roots(), root),
            index == root_index(final(self).roots(), root),
            index < final(self).roots().len(),
            final(self).running_slots() == old(self).running_slots(),
            final(self).waiters() == old(self).waiters(),
            final(self).next_waiter() == old(self).next_waiter(),
    {
        match self.find_root(root) {
            Some(i) => i,
            None => {
                let fresh = RootAdmissionState {
                    root,
                    budget_scope: None,
                    resident: 0,
                    queued: 0,
                    running: 0,
                    storage_bytes: 0,
                    storage_items: 0,
                    next_ticket: 0,
                };
                self.roots.push(fresh);
                let i = self.roots.len() - 1;
                assert(self.roots@[i as int].root == root);
                assert(has_root(self.roots(), root));
                let ghost k = root_index(self.roots(), root);
                assert(self.roots@[k].root == root);
                i
            },
        }
    }

    /// Queues one more child under `root`: refuses when the root's tree, its
    /// queue or its storage is full; otherwise counts the child as resident
    /// and queued, reserves its storage, hands out the root's next fairness
    /// ticket and appends a new waiter for a running slot. The root gets an
    /// entry in either case.
    pub fn enqueue(
        &mut self,
        config: &AgentAdmissionConfig,
        root: u128,
        storage: AgentStorageRequest,
    ) -> (outcome: Result<(u64, u64), AgentControlError>)
        requires
            old(self).wf(),
        ensures
            final(self).wf(),
            ({
                let pre = with_root(old(self).roots(), root);
                let i = root_index(pre, root);
                let r = pre[i];
                &&& has_root(pre, root)
                &&& final(self).running_slots() == old(self).running_slots()
                &&& match topology_refusal(*config, r, storage) {
                    Some(message) => {
                        &&& outcome matches Err(e) && e.kind == AgentControlErrorKind::Capacity
                            && e.message@ == message
                        &&& final(self).roots() == pre
                        &&& final(self).waiters() == old(self).waiters()
                        &&& final(self).next_waiter() == old(self).next_waiter()
                    },
                    None => {
                        &&& outcome matches Ok((waiter, ticket)) && waiter == old(
                            self,
                        ).next_waiter() && ticket == r.next_ticket
                        &&& final(self).roots() == pre.update(
                            i,
                            enqueued_root(*config, r, storage),
                        )
                        &&& final(self).waiters() == old(self).waiters().push(
                            old(self).next_waiter(),
                        )
                        &&& final(self).next_waiter() == sat_add(old(self).next_waiter(), 1)
                    },
                }
            }),
    {
        let i = self.entry(root);
        let r = self.roots[i];
        if r.resident >= config.max_agents_per_root {
            return Err(
                control_error(
                    AgentControlErrorKind::Capacity,
                    "Agent root tree capacity is exhausted",
                ),
            );
        }
        if r.queued >= config.max_queued_per_root {
            return Err(
                control_error(
                    AgentControlErrorKind::Capacity,
                    "Agent root queue capacity is exhausted",
                ),
            );
        }
        let bytes_fit = match r.storage_bytes.checked_add(storage.bytes) {
            Some(total) => total <= config.max_storage_bytes,
            None => false,
        };
        let items_fit = match r.storage_items.checked_add(storage.items) {
            Some(total) => total <= config.max_storage_items,
            None => false,
        };
        if !bytes_fit || !items_fit {
            return Err(
                control_error(
                    AgentControlErrorKind::Capacity,
                    "Agent root storage capacity is exhausted",
                ),
            );
        }
        let ticket = r.next_ticket;
        let updated = RootAdmissionState {
            resident: r.resident + 1,
            queued: r.queued + 1,
            storage_bytes: r.storage_bytes + storage.bytes,
            storage_items: r.storage_items + storage.items,
            next_ticket: r.next_ticket.saturating_add(config.sibling_fairness_quantum),
            ..r
        };
        self.roots.set(i, updated);
        let waiter = self.next_waiter;
        self.next_waiter = self.next_waiter.saturating_add(1);
        self.waiters.push_back(waiter);
        proof {
            assert forall|a: int, b: int|
                0 <= a < self.roots@.len() && 0 <= b < self.roots@.len()
                    && #[trigger] self.roots@[a].root == #[trigger] self.roots@[b].root implies a
                == b by {
                assert(old(self).roots@.len() <= self.roots@.len());
            }
        }
        Ok((waiter, ticket))
    }

    /// Grants a running slot to `waiter` when it is first in line and a slot
    /// is free.
    pub fn try_admit(&mut self, config: &AgentAdmissionConfig, waiter: u64) -> (admitted: bool)
        requires
            old(self).wf(),
        ensures
            final(self).wf(),
            admitted == admits(
                old(self).waiters(),
                old(self).running_slots(),
                config.max_running_agents,
                waiter,
            ),
            final(self).roots() == old(self).roots(),
            final(self).next_waiter() == old(self).next_waiter(),
            admitted ==> final(self).waiters() == old(self).waiters().drop_first()
                && final(self).running_slots() == old(self).running_slots() + 1,
            !admitted ==> final(self).waiters() == old(self).waiters()
                && final(self).running_slots() == old(self).running_slots(),
    {
        let first = if self.waiters.len() > 0 {
            Some(self.waiters[0])
        } else {
            None
        };
        if first == Some(waiter) && self.running_slots < config.max_running_agents {
            let _ = self.waiters.pop_front();
            self.running_slots = self.running_slots + 1;
            true
        } else {
            false
        }
    }

    /// Running slots still free.
    pub fn available_permits(&self, config: &AgentAdmissionConfig) -> (free: usize)
        ensures
            free == sat_sub_usize(config.max_running_agents, self.running_slots()),
    {
        config.max_running_agents.saturating_sub(self.running_slots)
    }

    /// Gives back what a lease in `phase` held under `root`: its resident
    /// place, its queued or running place, its storage, and one running
    /// slot. Counters saturate at zero.
    pub fn release(&mut self, root: u128, storage: AgentStorageRequest, phase: LeasePhase)
        requires
            old(self).wf(),
        ensures
            final(self).wf(),
            final(self).roots() == update_root(
                old(self).roots(),
                root,
                released_root(
                    old(self).roots()[root_index(old(self).roots(), root)],
                    storage,
                    phase,
                ),
            ),
            final(self).running_slots() == sat_sub_usize(old(self).running_slots(), 1),
            final(self).waiters() == old(self).waiters(),
            final(self).next_waiter() == old(self).next_waiter(),
    {
        match self.find_root(root) {
            Some(i) => {
                let r = self.roots[i];
                let updated = RootAdmissionState {
                    resident: r.resident.saturating_sub(1),
                    queued: match phase {
                        LeasePhase::Queued => r.queued.saturating_sub(1),
                        _ => r.queued,
                    },
                    running: match phase {
                        LeasePhase::Running => r.running.saturating_sub(1),
                        _ => r.running,
                    },
                    storage_bytes: r.storage_bytes.saturating_sub(storage.bytes),
                    storage_items: r.storage_items.saturating_sub(storage.items),
                    ..r
                };
                self.roots.set(i, updated);
            },
            None => {},
        }
        self.running_slots = self.running_slots.saturating_sub(1);
    }

    /// Moves one child of `root` from queued to running.
    pub fn mark_root_running(&mut self, root: u128)
        requires
            old(self).wf(),
            has_root(old(self).roots(), root),
            old(self).roots()[root_index(old(self).roots(), root)].running < usize::MAX,
        ensures
            final(self).wf(),
            ({
                let r = old(self).roots()[root_index(old(self).roots(), root)];
                final(self).roots() == old(self).roots().update(
                    root_index(old(self).roots(), root),
                    RootAdmissionState {
                        queued: sat_sub_usize(r.queued, 1),
                        running: (r.running + 1) as usize,
                        ..r
                    },
                )
            }),
            final(self).running_slots() == old(self).running_slots(),
            final(self).waiters() == old(self).waiters(),
            final(self).next_waiter() == old(self).next_waiter(),
    {
        let i = match self.find_root(root) {
            Some(i) => i,
            None => {
                return;
            },
        };
        let r = self.roots[i];
        let updated = RootAdmissionState {
            queued: r.queued.saturating_sub(1),
            running: r.running + 1,
            ..r
        };
        self.roots.set(i, updated);
    }

    /// Records the rollout budget scope of `root` unless it already has one,
    /// and returns the scope in force.
    pub fn bind_budget_scope(&mut self, root: u128, scope: u128) -> (bound: u128)
        requires
            old(self).wf(),
            has_root(old(self).roots(), root),
        ensures
            final(self).wf(),
            ({
                let i = root_index(old(self).roots(), root);
                let r = old(self).roots()[i];
                &&& bound == match r.budget_scope {
                    Some(existing) => existing,
                    None => scope,
                }
                &&& final(self).roots() == old(self).roots().update(
                    i,
                    RootAdmissionState { budget_scope: Some(bound), ..r },
                )
            }),
            final(self).running_slots() == old(self).running_slots(),
            final(self).waiters() == old(self).waiters(),
            final(self).next_waiter() == old(self).next_waiter(),
    {
        let i = match self.find_root(root) {
            Some(i) => i,
            None => {
                return scope;
            },
        };
        let r = self.roots[i];
        let bound = match r.budget_scope {
            Some(existing) => existing,
            None => scope,
        };
        self.roots.set(i, RootAdmissionState { budget_scope: Some(bound), ..r });
        bound
    }

    /// Drops `waiter` from the FIFO.
    fn remove_waiter(&mut self, waiter: u64)
        ensures
            final(self).waiters() == old(self).waiters().filter(|w: u64| w != waiter),
            final(self).roots() == old(self).roots(),
            final(self).running_slots() == old(self).running_slots(),
            final(self).next_waiter() == old(self).next_waiter(),
    {
        let mut kept: VecDeque<u64> = VecDeque::new();
        let mut i: usize = 0;
        let ghost keep = |w: u64| w != waiter;
        while i < self.waiters.len()
            invariant
                0 <= i <= self.waiters@.len(),
                kept@ == self.waiters@.take(i as int).filter(keep),
                keep == (|w: u64| w != waiter),
            decreases self.waiters@.len() - i,
        {
            let w = self.waiters[i];
            if w != waiter {
                kept.push_back(w);
            }
            proof {
                lemma_filter_step(self.waiters@, i as int, keep);
            }
            i = i + 1;
        }
        assert(self.waiters@.take(self.waiters@.len() as int) =~= self.waiters@);
        self.waiters = kept;
    }

    /// Undoes a queued admission that never became a lease: a waiter leaves
    /// the FIFO, an admitted one gives back its running slot, and the root
    /// gives back the resident and queued places and the storage.
    pub fn abandon_pending(
        &mut self,
        waiter: u64,
        root: u128,
        storage: AgentStorageRequest,
        phase: PendingPhase,
    )
        requires
            old(self).wf(),
        ensures
            final(self).wf(),
            phase is Closed ==> final(self).roots() == old(self).roots()
                && final(self).waiters() == old(self).waiters() && final(self).running_slots()
                == old(self).running_slots(),
            phase is Waiting ==> final(self).waiters() == old(self).waiters().filter(
                |w: u64| w != waiter,
            ) && final(self).running_slots() == old(self).running_slots(),
            phase is Admitted ==> final(self).waiters() == old(self).waiters()
                && final(self).running_slots() == sat_sub_usize(old(self).running_slots(), 1),
            !(phase is Closed) ==> final(self).roots() == update_root(
                old(self).roots(),
                root,
                released_root(
                    old(self).roots()[root_index(old(self).roots(), root)],
                    storage,
                    LeasePhase::Queued,
                ),
            ),
            final(self).next_waiter() == old(self).next_waiter(),
    {
        match phase {
            PendingPhase::Closed => {
                return;
            },
            PendingPhase::Waiting => {
                self.remove_waiter(waiter);
            },
            PendingPhase::Admitted => {
                self.running_slots = self.running_slots.saturating_sub(1);
            },
        }
        match self.find_root(root) {
            Some(i) => {
                let r = self.roots[i];
                let updated = RootAdmissionState {
                    resident: r.resident.saturating_sub(1),
                    queued: r.queued.saturating_sub(1),
                    storage_bytes: r.storage_bytes.saturating_sub(storage.bytes),
                    storage_items: r.storage_items.saturating_sub(storage.items),
                    ..r
                };
                self.roots.set(i, updated);
            },
            None => {},
        }
    }

    /// Whether the sums `metrics` reports fit their machine types (see
    /// `metrics_fit`); callers test this before asking for the metrics.
    pub fn metrics_fit_now(&self) -> (fit: bool)
        ensures
            fit == self.metrics_fit(),
    {
        let ghost roots = self.roots@;
        let mut resident: usize = 0;
        let mut queued: usize = 0;
        let mut running: usize = 0;
        let mut idle: usize = 0;
        let mut bytes: u64 = 0;
        let mut items: u64 = 0;
        let mut i: usize = 0;
        while i < self.roots.len()
            invariant
                0 <= i <= roots.len(),
                roots == self.roots@,
                resident == sum_roots(roots.take(i as int), resident_of()),
                queued == sum_roots(roots.take(i as int), queued_of()),
                running == sum_roots(roots.take(i as int), running_of()),
                idle == sum_roots(roots.take(i as int), idle_of()),
                bytes == sum_roots(roots.take(i as int), storage_bytes_of()),
                items == sum_roots(roots.take(i as int), storage_items_of()),
                forall|j: int| 0 <= j < i ==> #[trigger] roots[j].queued + roots[j].running <= usize::MAX,
            decreases roots.len() - i,
        {
            let r = self.roots[i];
            proof {
                let next = roots.take(i + 1);
                assert(next.drop_last() =~= roots.take(i as int));
                assert(next.last() == r);
                lemma_prefix_sum_bounded(roots, resident_of(), i + 1);
                lemma_prefix_sum_bounded(roots, queued_of(), i + 1);
                lemma_prefix_sum_bounded(roots, running_of(), i + 1);
                lemma_prefix_sum_bounded(roots, idle_of(), i + 1);
                lemma_prefix_sum_bounded(roots, storage_bytes_of(), i + 1);
                lemma_prefix_sum_bounded(roots, storage_items_of(), i + 1);
            }
            let busy = match r.queued.checked_add(r.running) {
                Some(b) => b,
                None => {
                    return false;
                },
            };
            resident = match resident.checked_add(r.resident) {
                Some(v) => v,
                None => {
                    return false;
                },
            };
            queued = match queued.checked_add(r.queued) {
                Some(v) => v,
                None => {
                    return false;
                },
            };
            running = match running.checked_add(r.running) {
                Some(v) => v,
                None => {
                    return false;
                },
            };
            idle = match idle.checked_add(r.resident.saturating_sub(busy)) {
                Some(v) => v,
                None => {
                    return false;
                },
            };
            bytes = match bytes.checked_add(r.storage_bytes) {
                Some(v) => v,
                None => {
                    return false;
                },
            };
            items = match items.checked_add(r.storage_items) {
                Some(v) => v,
                None => {
                    return false;
                },
            };
            i = i + 1;
        }
        proof {
            assert(roots.take(roots.len() as int) =~= roots);
        }
        true
    }

    /// Counters summed over all roots.
    pub fn metrics(&self) -> (metrics: AgentAdmissionMetrics)
        requires
            self.metrics_fit(),
        ensures
            metrics.roots == self.roots().len(),
            metrics.resident_agents == sum_roots(self.roots(), resident_of()),
            metrics.queued_agents == sum_roots(self.roots(), queued_of()),
            metrics.running_agents == sum_roots(self.roots(), running_of()),
            metrics.resident_idle_agents == sum_roots(self.roots(), idle_of()),
            metrics.reserved_storage_bytes == sum_roots(self.roots(), storage_bytes_of()),
            metrics.reserved_storage_items == sum_roots(self.roots(), storage_items_of()),
    {
        let ghost roots = self.roots@;
        let mut resident: usize = 0;
        let mut queued: usize = 0;
        let mut running: usize = 0;
        let mut idle: usize = 0;
        let mut bytes: u64 = 0;
        let mut items: u64 = 0;
        let mut i: usize = 0;
        while i < self.roots.len()
            invariant
                0 <= i <= roots.len(),
                roots == self.roots@,
                self.metrics_fit(),
                resident == sum_roots(roots.take(i as int), resident_of()),
                queued == sum_roots(roots.take(i as int), queued_of()),
                running == sum_roots(roots.take(i as int), running_of()),
                idle == sum_roots(roots.take(i as int), idle_of()),
                bytes == sum_roots(roots.take(i as int), storage_bytes_of()),
                items == sum_roots(roots.take(i as int), storage_items_of()),
            decreases roots.len() - i,
        {
            let r = self.roots[i];
            proof {
                let next = roots.take(i + 1);
                assert(next.drop_last() =~= roots.take(i as int));
                assert(next.last() == r);
                lemma_prefix_sum_bounded(roots, resident_of(), i + 1);
                lemma_prefix_sum_bounded(roots, queued_of(), i + 1);
                lemma_prefix_sum_bounded(roots, running_of(), i + 1);
                lemma_prefix_sum_bounded(roots, idle_of(), i + 1);
                lemma_prefix_sum_bounded(roots, storage_bytes_of(), i + 1);
                lemma_prefix_sum_bounded(roots, storage_items_of(), i + 1);
                assert(self.roots()[i as int].queued + self.roots()[i as int].running <= usize::MAX);
            }
            resident = resident + r.resident;
            queued = queued + r.queued;
            running = running + r.running;
            idle = idle + r.resident.saturating_sub(r.queued + r.running);
            bytes = bytes + r.storage_bytes;
            items = items + r.storage_items;
            i = i + 1;
        }
        proof {
            assert(roots.take(roots.len() as int) =~= roots);
        }
        AgentAdmissionMetrics {
            roots: self.roots.len(),
            resident_agents: resident,
            queued_agents: queued,
            running_agents: running,
            resident_idle_agents: idle,
            reserved_storage_bytes: bytes,
            reserved_storage_items: items,
        }
    }
}

/// How far a pending admission has progressed.
#[derive(Debug, Clone, Copy, PartialEq, Eq, Structural)]
pub enum PendingPhase {
    Waiting,
    Admitted,
    Closed,
}

/// The queued admission of one child, from the moment it enters the FIFO
/// until it becomes a lease or is given up.
#[derive(Debug)]
pub struct PendingAdmission {
    waiter: u64,
    root: u128,
    storage: AgentStorageRequest,
    phase: PendingPhase,
}

impl PendingAdmission {
    pub closed spec fn waiter(&self) -> u64 {
        self.waiter
    }

    pub closed spec fn root(&self) -> u128 {
        self.root
    }

    pub closed spec fn storage(&self) -> AgentStorageRequest {
        self.storage
    }

    pub closed spec fn phase(&self) -> PendingPhase {
        self.phase
    }

    pub fn new(waiter: u64, root: u128, storage: AgentStorageRequest) -> (pending: Self)
        ensures
            pending.waiter() == waiter,
            pending.root() == root,
            pending.storage() == storage,
            pending.phase() == PendingPhase::Waiting,
    {
        PendingAdmission { waiter, root, storage, phase: PendingPhase::Waiting }
    }

    /// The waiter got a running slot.
    pub fn mark_admitted(&mut self)
        ensures
            final(self).phase() == PendingPhase::Admitted,
            final(self).waiter() == old(self).waiter(),
            final(self).root() == old(self).root(),
            final(self).storage() == old(self).storage(),
    {
        self.phase = PendingPhase::Admitted;
    }

    /// The admission became a lease: nothing is left to undo.
    pub fn disarm(&mut self)
        ensures
            final(self).phase() == PendingPhase::Closed,
            final(self).waiter() == old(self).waiter(),
            final(self).root() == old(self).root(),
            final(self).storage() == old(self).storage(),
    {
        self.phase = PendingPhase::Closed;
    }

    /// Gives the admission up (timeout, budget refusal, cancellation):
    /// undoes what it still holds and closes it.
    pub fn abandon(&mut self, state: &mut AdmissionState)
        requires
            old(state).wf(),
        ensures
            final(state).wf(),
            old(self).phase() is Closed ==> final(state).roots() == old(state).roots()
                && final(state).waiters() == old(state).waiters()
                && final(state).running_slots() == old(state).running_slots(),
            old(self).phase() is Waiting ==> final(state).waiters() == old(state).waiters().filter(
                |w: u64| w != old(self).waiter(),
            ) && final(state).running_slots() == old(state).running_slots(),
            old(self).phase() is Admitted ==> final(state).waiters() == old(state).waiters()
                && final(state).running_slots() == sat_sub_usize(old(state).running_slots(), 1),
            !(old(self).phase() is Closed) ==> final(state).roots() == update_root(
                old(state).roots(),
                old(self).root(),
                released_root(
                    old(state).roots()[root_index(old(state).roots(), old(self).root())],
                    old(self).storage(),
                    LeasePhase::Queued,
                ),
            ),
            final(state).next_waiter() == old(state).next_waiter(),
            final(self).phase() == PendingPhase::Closed,
            final(self).waiter() == old(self).waiter(),
            final(self).root() == old(self).root(),
            final(self).storage() == old(self).storage(),
    {
        state.abandon_pending(self.waiter, self.root, self.storage, self.phase);
        self.phase = PendingPhase::Closed;
    }
}

/// An admitted child's hold on its root's topology and on its rollout
/// budget reservation.
#[derive(Debug)]
pub struct AdmissionLease {
    root: u128,
    storage: AgentStorageRequest,
    reservation: Option<u128>,
    phase: LeasePhase,
}

impl AdmissionLease {
    pub closed spec fn root(&self) -> u128 {
        self.root
    }

    pub closed spec fn storage(&self) -> AgentStorageRequest {
        self.storage
    }

    pub closed spec fn reservation(&self) -> Option<u128> {
        self.reservation
    }

    pub closed spec fn phase(&self) -> LeasePhase {
        self.phase
    }

    /// A queued lease holding `reservation`.
    pub fn new(root: u128, storage: AgentStorageRequest, reservation: u128) -> (lease: Self)
        ensures
            lease.root() == root,
            lease.storage() == storage,
            lease.reservation() == Some(reservation),
            lease.phase() == LeasePhase::Queued,
    {
        AdmissionLease { root, storage, reservation: Some(reservation), phase: LeasePhase::Queued }
    }

    pub fn current_phase(&self) -> (phase: LeasePhase)
        ensures
            phase == self.phase(),
    {
        self.phase
    }

    /// The child starts running: only a queued lease may.
    pub fn mark_running(&mut self, state: &mut AdmissionState) -> (outcome: Result<
        (),
        AgentControlError,
    >)
        requires
            old(state).wf(),
            has_root(old(state).roots(), old(self).root()),
            old(state).roots()[root_index(old(state).roots(), old(self).root())].running
                < usize::MAX,
        ensures
            final(state).wf(),
            final(self).root() == old(self).root(),
            final(self).storage() == old(self).storage(),
            final(self).reservation() == old(self).reservation(),
            !(old(self).phase() is Queued) ==> (outcome matches Err(e) && e.kind
                == AgentControlErrorKind::Conflict && e.message@
                == "Agent admission lease is not queued"@ && *final(state) == *old(state)
                && final(self).phase() == old(self).phase()),
            old(self).phase() is Queued ==> outcome is Ok && final(self).phase()
                == LeasePhase::Running && ({
                let i = root_index(old(state).roots(), old(self).root());
                let r = old(state).roots()[i];
                final(state).roots() == old(state).roots().update(
                    i,
                    RootAdmissionState {
                        queued: sat_sub_usize(r.queued, 1),
                        running: (r.running + 1) as usize,
                        ..r
                    },
                )
            }) && final(state).running_slots() == old(state).running_slots()
                && final(state).waiters() == old(state).waiters() && final(state).next_waiter()
                == old(state).next_waiter(),
    {
        match self.phase {
            LeasePhase::Queued => {},
            _ => {
                return Err(
                    control_error(
                        AgentControlErrorKind::Conflict,
                        "Agent admission lease is not queued",
                    ),
                );
            },
        }
        state.mark_root_running(self.root);
        self.phase = LeasePhase::Running;
        Ok(())
    }

    /// Checks that the lease may be settled and returns the reservation to
    /// settle the usage against.
    pub fn settlement_reservation(&self) -> (outcome: Result<u128, AgentControlError>)
        ensures
            self.phase() is Closed ==> (outcome matches Err(e) && e.kind
                == AgentControlErrorKind::Conflict && e.message@
                == "Agent admission lease is already closed"@),
            !(self.phase() is Closed) && self.reservation() is None ==> (outcome matches Err(e)
                && e.kind == AgentControlErrorKind::Conflict && e.message@
                == "Agent admission lease has no live budget reservation"@),
            !(self.phase() is Closed) && self.reservation() is Some ==> (outcome matches Ok(r)
                && r == self.reservation().unwrap()),
    {
        if let LeasePhase::Closed = self.phase {
            return Err(
                control_error(
                    AgentControlErrorKind::Conflict,
                    "Agent admission lease is already closed",
                ),
            );
        }
        match self.reservation {
            Some(r) => Ok(r),
            None => Err(
                control_error(
                    AgentControlErrorKind::Conflict,
                    "Agent admission lease has no live budget reservation",
                ),
            ),
        }
    }

    /// Hands the budget reservation out (to settle or revoke it); the lease
    /// no longer holds one.
    pub fn take_reservation(&mut self) -> (reservation: Option<u128>)
        ensures
            reservation == old(self).reservation(),
            final(self).reservation() is None,
            final(self).root() == old(self).root(),
            final(self).storage() == old(self).storage(),
            final(self).phase() == old(self).phase(),
    {
        let r = self.reservation;
        self.reservation = None;
        r
    }

    /// Lets go of the topology the lease holds; a closed lease holds none.
    pub fn close(&mut self, state: &mut AdmissionState)
        requires
            old(state).wf(),
        ensures
            final(state).wf(),
            old(self).phase() is Closed ==> *final(state) == *old(state),
            !(old(self).phase() is Closed) ==> final(state).roots() == update_root(
                old(state).roots(),
                old(self).root(),
                released_root(
                    old(state).roots()[root_index(old(state).roots(), old(self).root())],
                    old(self).storage(),
                    old(self).phase(),
                ),
            ) && final(state).running_slots() == sat_sub_usize(old(state).running_slots(), 1)
                && final(state).waiters() == old(state).waiters() && final(state).next_waiter()
                == old(state).next_waiter(),
            final(self).phase() == LeasePhase::Closed,
            final(self).root() == old(self).root(),
            final(self).storage() == old(self).storage(),
            final(self).reservation() == old(self).reservation(),
    {
        match self.phase {
            LeasePhase::Closed => {
                return;
            },
            _ => {},
        }
        state.release(self.root, self.storage, self.phase);
        self.phase = LeasePhase::Closed;
    }
}

/// Giving up a queued child restores its root's counters and storage,
/// whatever fairness ticket it had drawn.
pub proof fn law_abandon_restores_root(
    config: AgentAdmissionConfig,
    r: RootAdmissionState,
    storage: AgentStorageRequest,
)
    requires
        topology_refusal(config, r, storage) is None,
    ensures
        released_root(enqueued_root(config, r, storage), storage, LeasePhase::Queued) == (
        RootAdmissionState { next_ticket: sat_add(r.next_ticket, config.sibling_fairness_quantum), ..r }),
{
}

/// A waiter that joined the FIFO and then gave up leaves it as it was.
pub proof fn law_abandon_restores_waiters(waiters: Seq<u64>, waiter: u64)
    requires
        !waiters.contains(waiter),
    ensures
        (waiters.push(waiter).filter(|w: u64| w != waiter)) == waiters,
{
    let p = |w: u64| w != waiter;
    let s = waiters.push(waiter);
    assert(s.take(s.len() as int) =~= s);
    assert(s.take(waiters.len() as int) =~= waiters);
    lemma_filter_step(s, waiters.len() as int, p);
    lemma_filter_keeps_all(waiters, p);
}

/// Filtering with a predicate that holds of every element changes nothing.
pub proof fn lemma_filter_keeps_all(s: Seq<u64>, p: spec_fn(u64) -> bool)
    requires
        forall|i: int| 0 <= i < s.len() ==> #[trigger] p(s[i]),
    ensures
        s.filter(p) == s,
    decreases s.len(),
{
    reveal(Seq::filter);
    if s.len() > 0 {
        lemma_filter_keeps_all(s.drop_last(), p);
        assert(s.drop_last().push(s.last()) =~= s);
    }
}

/// A running slot granted and then released is free again.
pub proof fn law_release_returns_slot(slots: usize)
    requires
        slots < usize::MAX,
    ensures
        sat_sub_usize((slots + 1) as usize, 1) == slots,
{
}

/// When no root counts more Agents as queued or running than resident, the
/// resident total is the queued, running and idle totals together.
pub proof fn law_resident_split(roots: Seq<RootAdmissionState>)
    requires
        forall|i: int| 0 <= i < roots.len() ==> #[trigger] roots[i].queued + roots[i].running
            <= roots[i].resident,
    ensures
        sum_roots(roots, resident_of()) == sum_roots(roots, queued_of()) + sum_roots(
            roots,
            running_of(),
        ) + sum_roots(roots, idle_of()),
    decreases roots.len(),
{
    if roots.len() > 0 {
        let rest = roots.drop_last();
        assert forall|i: int| 0 <= i < rest.len() implies #[trigger] rest[i].queued
            + rest[i].running <= rest[i].resident by {
            assert(rest[i] == roots[i]);
        }
        law_resident_split(rest);
        assert(roots.last() == roots[roots.len() - 1]);
    }
}

/// Replacing one root entry changes a sum by the difference of the entry.
proof fn lemma_sum_update(
    roots: Seq<RootAdmissionState>,
    i: int,
    entry: RootAdmissionState,
    f: spec_fn(RootAdmissionState) -> int,
)
    requires
        0 <= i < roots.len(),
    ensures
        sum_roots(roots.update(i, entry), f) == sum_roots(roots, f) - f(roots[i]) + f(entry),
    decreases roots.len(),
{
    let updated = roots.update(i, entry);
    if i == roots.len() - 1 {
        assert(updated.drop_last() =~= roots.drop_last());
    } else {
        lemma_sum_update(roots.drop_last(), i, entry, f);
        assert(updated.drop_last() =~= roots.drop_last().update(i, entry));
    }
}

/// The entry of `root` in `with_root(roots, root)`, and that giving a root
/// its entry adds nothing to any of the counted sums.
proof fn lemma_with_root_sums(roots: Seq<RootAdmissionState>, root: u128)
    ensures
        has_root(with_root(roots, root), root),
        sum_roots(with_root(roots, root), resident_of()) == sum_roots(roots, resident_of()),
        sum_roots(with_root(roots, root), queued_of()) == sum_roots(roots, queued_of()),
        sum_roots(with_root(roots, root), running_of()) == sum_roots(roots, running_of()),
        sum_roots(with_root(roots, root), storage_bytes_of()) == sum_roots(roots, storage_bytes_of()),
        sum_roots(with_root(roots, root), storage_items_of()) == sum_roots(roots, storage_items_of()),
{
    if !has_root(roots, root) {
        let pushed = roots.push(fresh_root(root));
        assert(pushed.drop_last() =~= roots);
        assert(pushed[roots.len() as int].root == root);
    }
}

/// The five sums `metrics` reports of the roots' counters.
pub open spec fn counted(roots: Seq<RootAdmissionState>) -> (int, int, int, int, int) {
    (
        sum_roots(roots, resident_of()),
        sum_roots(roots, queued_of()),
        sum_roots(roots, running_of()),
        sum_roots(roots, storage_bytes_of()),
        sum_roots(roots, storage_items_of()),
    )
}

/// The roots once `enqueue` accepted a child of `root` with `storage`.
pub open spec fn enqueued_roots(
    config: AgentAdmissionConfig,
    roots: Seq<RootAdmissionState>,
    root: u128,
    storage: AgentStorageRequest,
) -> Seq<RootAdmissionState> {
    let pre = with_root(roots, root);
    let i = root_index(pre, root);
    pre.update(i, enqueued_root(config, pre[i], storage))
}

/// Whether `enqueue` accepts a child of `root` with `storage`.
pub open spec fn enqueue_accepts(
    config: AgentAdmissionConfig,
    roots: Seq<RootAdmissionState>,
    root: u128,
    storage: AgentStorageRequest,
) -> bool {
    let pre = with_root(roots, root);
    topology_refusal(config, pre[root_index(pre, root)], storage) is None
}

/// A successful reservation (a child queued under its root, then granted
/// a running slot) counts one more resident and one more queued Agent,
/// leaves the running Agents as they were, reserves the child's storage,
/// and takes one free running slot.
pub proof fn law_reservation_metrics(
    config: AgentAdmissionConfig,
    roots: Seq<RootAdmissionState>,
    root: u128,
    storage: AgentStorageRequest,
    running_slots: usize,
)
    requires
        unique_roots(roots),
        enqueue_accepts(config, roots, root, storage),
        running_slots < config.max_running_agents,
    ensures
        ({
            let (resident, queued, running, bytes, items) = counted(roots);
            counted(enqueued_roots(config, roots, root, storage)) == (
                resident + 1,
                queued + 1,
                running,
                bytes + storage.bytes,
                items + storage.items,
            )
        }),
        sat_sub_usize(config.max_running_agents, (running_slots + 1) as usize) == sat_sub_usize(
            config.max_running_agents,
            running_slots,
        ) - 1,
{
    lemma_with_root_sums(roots, root);
    let pre = with_root(roots, root);
    let i = root_index(pre, root);
    let r = pre[i];
    let e = enqueued_root(config, r, storage);
    lemma_sum_update(pre, i, e, resident_of());
    lemma_sum_update(pre, i, e, queued_of());
    lemma_sum_update(pre, i, e, running_of());
    lemma_sum_update(pre, i, e, storage_bytes_of());
    lemma_sum_update(pre, i, e, storage_items_of());
}

/// A reservation that fails after its child was queued rolls back: once
/// the pending admission is abandoned (as a waiter, or after it was granted
/// a slot), the counted sums, the FIFO of waiters and the running slots are
/// as before the reservation. At most an empty entry for the root remains.
pub proof fn law_failed_reservation_rolls_back(
    config: AgentAdmissionConfig,
    roots: Seq<RootAdmissionState>,
    root: u128,
    storage: AgentStorageRequest,
    waiters: Seq<u64>,
    waiter: u64,
    running_slots: usize,
)
    requires
        unique_roots(roots),
        enqueue_accepts(config, roots, root, storage),
        !waiters.contains(waiter),
        running_slots < usize::MAX,
    ensures
        ({
            let queued = enqueued_roots(config, roots, root, storage);
            let back = update_root(
                queued,
                root,
                released_root(queued[root_index(queued, root)], storage, LeasePhase::Queued),
            );
            counted(back) == counted(roots)
        }),
        waiters.push(waiter).filter(|w: u64| w != waiter) == waiters,
        sat_sub_usize((running_slots + 1) as usize, 1) == running_slots,
{
    lemma_with_root_sums(roots, root);
    let pre = with_root(roots, root);
    let i = root_index(pre, root);
    let r = pre[i];
    let e = enqueued_root(config, r, storage);
    let queued = pre.update(i, e);
    assert(queued[i].root == root);
    assert(has_root(queued, root));
    let j = root_index(queued, root);
    assert(queued[j].root == root);
    assert(unique_roots(pre)) by {
        if !has_root(roots, root) {
            assert forall|a: int, b: int|
                0 <= a < pre.len() && 0 <= b < pre.len() && #[trigger] pre[a].root
                    == #[trigger] pre[b].root implies a == b by {
                if a < roots.len() && b == roots.len() {
                    assert(roots[a].root == root);
                }
                if b < roots.len() && a == roots.len() {
                    assert(roots[b].root == root);
                }
            }
        }
    }
    assert(j == i) by {
        if j != i {
            assert(pre[j].root == queued[j].root);
        }
    }
    law_abandon_restores_root(config, r, storage);
    let back_entry = released_root(e, storage, LeasePhase::Queued);
    assert(queued.update(i, back_entry) == pre.update(i, back_entry));
    lemma_sum_update(pre, i, back_entry, resident_of());
    lemma_sum_update(pre, i, back_entry, queued_of());
    lemma_sum_update(pre, i, back_entry, running_of());
    lemma_sum_update(pre, i, back_entry, storage_bytes_of());
    lemma_sum_update(pre, i, back_entry, storage_items_of());
    law_abandon_restores_waiters(waiters, waiter);
}

/// Whether `try_admit` grants waiter `waiter` a running slot.
pub open spec fn admits(waiters: Seq<u64>, running_slots: usize, max_running: usize, waiter: u64) -> bool {
    waiters.len() > 0 && waiters[0] == waiter && running_slots < max_running
}

/// Running slots go out in strict FIFO order across all roots: while a
/// waiter that queued earlier is still waiting, a later one is never
/// admitted, and a waiter joins behind everyone already waiting.
pub proof fn law_fifo_admission(
    waiters: Seq<u64>,
    earlier: int,
    later: int,
    running_slots: usize,
    max_running: usize,
    newcomer: u64,
)
    requires
        0 <= earlier < later < waiters.len(),
        forall|a: int, b: int| 0 <= a < b < waiters.len() ==> waiters[a] != waiters[b],
    ensures
        !admits(waiters, running_slots, max_running, waiters[later]),
        forall|k: int| 0 <= k < waiters.len() ==> #[trigger] waiters.push(newcomer)[k] == waiters[k],
        waiters.push(newcomer)[waiters.len() as int] == newcomer,
{
    assert(waiters[0] != waiters[later]);
}


/// The policy admits a request exactly when its token total fits in `u64`
/// and within the child allowance, its depth is within both the configured
/// maximum and its own budget's depth allowance, its cost is valid and,
/// under a child cost allowance, bounded and within it, its storage within the policy, and its
/// parent is not an internal memory role.
pub proof fn law_policy_admits_only_within_allowances(
    config: AgentAdmissionConfig,
    budget: AgentBudgetRequest,
    depth: u16,
    parent_profile: Option<Seq<char>>,
    storage: AgentStorageRequest,
)
    ensures
        (policy_refusal(config, budget, depth, parent_profile, storage) is None) <==> {
            &&& budget.max_input_tokens + budget.max_output_tokens <= u64::MAX
            &&& budget.max_input_tokens + budget.max_output_tokens <= config.max_child_tokens
            &&& depth <= config.max_depth
            &&& depth <= budget.max_depth
            &&& !(budget.cost is Invalid)
            &&& (config.max_child_cost_micro matches Some(limit) ==> (budget.cost matches CostRequest::Micro(
                m,
            ) && m <= limit))
            &&& storage.bytes <= config.max_storage_bytes
            &&& storage.items <= config.max_storage_items
            &&& !(parent_profile matches Some(p) && spec_is_non_delegating_role(p))
        },
{
}

/// A request deeper than its own budget's depth allowance is refused as
/// depth-exhausted, whatever the configured maximum depth, once its token
/// total is well-formed; so is one deeper than the configured maximum.
pub proof fn law_depth_beyond_allowance_is_refused(
    config: AgentAdmissionConfig,
    budget: AgentBudgetRequest,
    depth: u16,
    parent_profile: Option<Seq<char>>,
    storage: AgentStorageRequest,
)
    requires
        budget.max_input_tokens + budget.max_output_tokens <= u64::MAX,
        depth > budget.max_depth || depth > config.max_depth,
    ensures
        policy_refusal(config, budget, depth, parent_profile, storage) == Some(
            (AgentControlErrorKind::Capacity, "Agent tree depth is exhausted"@),
        ),
{
}

} // verus!
