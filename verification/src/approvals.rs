//! Pending tool approvals and the approvals granted for a whole thread.
//!
//! A pending approval belongs to an owner (principal and thread) and to the
//! transport connection that asked for it. Only its owner may resolve it;
//! a legacy response that names no thread is checked against the
//! principal and the connection instead. When a connection goes away, its
//! pending approvals are closed. The channel that carries the decision
//! back to the waiting turn is kept by the caller, under the approval id.

use vstd::prelude::*;
use crate::ids::{random_uuid, uuid_string, uuid_text};

verus! {

/// Who an approval belongs to.
#[derive(Debug, Clone)]
pub struct ApprovalOwner {
    pub principal_id: String,
    pub thread_id: String,
}

/// One pending approval.
#[derive(Debug, Clone)]
pub struct PendingApproval {
    pub owner: ApprovalOwner,
    pub turn_id: u128,
    pub call_id: String,
    pub approval_id: String,
    pub connection_id: u128,
    pub tool: String,
}

/// Abstract pending approval.
pub struct ApprovalView {
    pub principal: Seq<char>,
    pub thread: Seq<char>,
    pub turn_id: u128,
    pub call_id: Seq<char>,
    pub approval_id: Seq<char>,
    pub connection_id: u128,
    pub tool: Seq<char>,
}

impl PendingApproval {
    pub open spec fn view(&self) -> ApprovalView {
        ApprovalView {
            principal: self.owner.principal_id@,
            thread: self.owner.thread_id@,
            turn_id: self.turn_id,
            call_id: self.call_id@,
            approval_id: self.approval_id@,
            connection_id: self.connection_id,
            tool: self.tool@,
        }
    }
}

/// Why a pending approval could not be resolved.
#[derive(Debug, Clone, Copy, PartialEq, Eq, Structural)]
pub enum PendingApprovalError {
    /// The approval is not owned by the authenticated principal.
    WrongOwner,
    /// No such approval is pending.
    NotFound,
}

/// Whether the decision reached the waiting turn.
#[derive(Debug, Clone, Copy, PartialEq, Eq, Structural)]
pub enum ApprovalDecisionDelivery {
    Delivered,
    ConsumerGone,
}

/// A resolved approval: its owner, its tool and the fate of the decision.
#[derive(Debug, Clone)]
pub struct ResolvedPendingApproval {
    pub owner: ApprovalOwner,
    pub tool: String,
    pub delivery: ApprovalDecisionDelivery,
}

/// Whether two entries have the same key (owner, turn, call, approval id).
pub open spec fn same_key(a: ApprovalView, b: ApprovalView) -> bool {
    a.principal == b.principal && a.thread == b.thread && a.turn_id == b.turn_id && a.call_id
        == b.call_id && a.approval_id == b.approval_id
}

/// Whether `a` is pending approval `approval_id` owned by the owner given.
pub open spec fn owned_match(
    a: ApprovalView,
    principal: Seq<char>,
    thread: Seq<char>,
    approval_id: Seq<char>,
) -> bool {
    a.approval_id == approval_id && a.principal == principal && a.thread == thread
}

/// Position of the first entry satisfying `p`, if any.
#[verifier::opaque]
pub open spec fn first_match(entries: Seq<ApprovalView>, p: spec_fn(ApprovalView) -> bool) -> Option<
    int,
> {
    if exists|i: int| 0 <= i < entries.len() && p(#[trigger] entries[i]) {
        Some(
            choose|i: int|
                0 <= i < entries.len() && p(entries[i]) && forall|j: int|
                    0 <= j < i ==> !p(#[trigger] entries[j]),
        )
    } else {
        None
    }
}

/// What `first_match` gives: the least position that satisfies `p`.
pub proof fn lemma_first_match(entries: Seq<ApprovalView>, p: spec_fn(ApprovalView) -> bool)
    ensures
        match first_match(entries, p) {
            Some(i) => 0 <= i < entries.len() && p(entries[i]) && forall|j: int|
                0 <= j < i ==> !p(#[trigger] entries[j]),
            None => forall|j: int| 0 <= j < entries.len() ==> !p(#[trigger] entries[j]),
        },
{
    reveal(first_match);
    if exists|i: int| 0 <= i < entries.len() && p(#[trigger] entries[i]) {
        let k = choose|i: int| 0 <= i < entries.len() && p(#[trigger] entries[i]);
        lemma_least_match(entries, p, k);
    }
}

/// A position that satisfies `p` has a least such position at or before it.
proof fn lemma_least_match(entries: Seq<ApprovalView>, p: spec_fn(ApprovalView) -> bool, k: int)
    requires
        0 <= k < entries.len(),
        p(entries[k]),
    ensures
        exists|i: int|
            0 <= i < entries.len() && p(#[trigger] entries[i]) && forall|j: int|
                0 <= j < i ==> !p(#[trigger] entries[j]),
    decreases k,
{
    if exists|j: int| 0 <= j < k && p(#[trigger] entries[j]) {
        let j = choose|j: int| 0 <= j < k && p(#[trigger] entries[j]);
        lemma_least_match(entries, p, j);
    } else {
        assert(forall|j: int| 0 <= j < k ==> !p(#[trigger] entries[j]));
        assert(p(entries[k]));
    }
}

/// A position that satisfies `p` with none before it is the first match.
pub proof fn lemma_first_match_at(entries: Seq<ApprovalView>, p: spec_fn(ApprovalView) -> bool, i: int)
    requires
        0 <= i < entries.len(),
        p(entries[i]),
        forall|j: int| 0 <= j < i ==> !p(#[trigger] entries[j]),
    ensures
        first_match(entries, p) == Some(i),
{
    reveal(first_match);
    lemma_first_match(entries, p);
    let f = first_match(entries, p).unwrap();
    if f < i {
        assert(!p(entries[f]));
    }
    if i < f {
        assert(!p(entries[i]));
    }
}

/// With no position satisfying `p`, there is no first match.
pub proof fn lemma_first_match_none(entries: Seq<ApprovalView>, p: spec_fn(ApprovalView) -> bool)
    requires
        forall|j: int| 0 <= j < entries.len() ==> !p(#[trigger] entries[j]),
    ensures
        first_match(entries, p) is None,
{
    reveal(first_match);
}

pub open spec fn same_key_as(a: ApprovalView) -> spec_fn(ApprovalView) -> bool {
    |e: ApprovalView| same_key(e, a)
}

pub open spec fn owned_by(principal: Seq<char>, thread: Seq<char>, approval_id: Seq<char>) -> spec_fn(
    ApprovalView,
) -> bool {
    |a: ApprovalView| owned_match(a, principal, thread, approval_id)
}

pub open spec fn with_id(approval_id: Seq<char>) -> spec_fn(ApprovalView) -> bool {
    |a: ApprovalView| a.approval_id == approval_id
}

pub open spec fn on_connection(connection_id: u128) -> spec_fn(ApprovalView) -> bool {
    |a: ApprovalView| a.connection_id == connection_id
}

pub open spec fn not_on_connection(connection_id: u128) -> spec_fn(ApprovalView) -> bool {
    |a: ApprovalView| a.connection_id != connection_id
}

/// The pending approvals, in the order they were requested.
#[derive(Debug, Default)]
pub struct PendingApprovals {
    entries: Vec<PendingApproval>,
}

impl View for PendingApprovals {
    type V = Seq<ApprovalView>;

    closed spec fn view(&self) -> Seq<ApprovalView> {
        self.entries@.map_values(|e: PendingApproval| e.view())
    }
}

/// No two entries share a key.
pub open spec fn distinct_keys(entries: Seq<ApprovalView>) -> bool {
    forall|i: int, j: int|
        0 <= i < entries.len() && 0 <= j < entries.len() && i != j ==> !same_key(
            #[trigger] entries[i],
            #[trigger] entries[j],
        )
}

/// `entries` after recording `a`: an entry with the same key is replaced in
/// place, otherwise `a` comes last.
pub open spec fn recorded(entries: Seq<ApprovalView>, a: ApprovalView) -> Seq<ApprovalView> {
    match first_match(entries, same_key_as(a)) {
        Some(i) => entries.update(i, a),
        None => entries.push(a),
    }
}

fn same_owner(a: &ApprovalOwner, b: &ApprovalOwner) -> (same: bool)
    ensures
        same == (a.principal_id@ == b.principal_id@ && a.thread_id@ == b.thread_id@),
{
    a.principal_id == b.principal_id && a.thread_id == b.thread_id
}

fn copy_owner(owner: &ApprovalOwner) -> (copy: ApprovalOwner)
    ensures
        copy.principal_id@ == owner.principal_id@,
        copy.thread_id@ == owner.thread_id@,
{
    ApprovalOwner { principal_id: owner.principal_id.clone(), thread_id: owner.thread_id.clone() }
}

impl PendingApprovals {
    pub closed spec fn wf(&self) -> bool {
        distinct_keys(self@)
    }

    pub fn new() -> (pending: Self)
        ensures
            pending.wf(),
            pending@ == Seq::<ApprovalView>::empty(),
    {
        let pending = PendingApprovals { entries: Vec::new() };
        proof {
            assert(pending@ =~= Seq::<ApprovalView>::empty());
        }
        pending
    }

    /// Position of the first entry for which `same` holds.
    fn position_of_key(&self, approval: &PendingApproval) -> (index: Option<usize>)
        ensures
            index == match first_match(self@, same_key_as(approval.view())) {
                Some(i) => Some(i as usize),
                None => None::<usize>,
            },
            index matches Some(i) ==> i < self@.len() && same_key(self@[i as int], approval.view()),
    {
        let ghost p = same_key_as(approval.view());
        let mut i: usize = 0;
        while i < self.entries.len()
            invariant
                0 <= i <= self@.len(),
                self@.len() == self.entries@.len(),
                p == same_key_as(approval.view()),
                forall|j: int| 0 <= j < i ==> !p(#[trigger] self@[j]),
            decreases self@.len() - i,
        {
            let e = &self.entries[i];
            if same_owner(&e.owner, &approval.owner) && e.turn_id == approval.turn_id && e.call_id
                == approval.call_id && e.approval_id == approval.approval_id {
                proof {
                    assert(self@[i as int] == e.view());
                    assert(p(self@[i as int]));
                    lemma_first_match_at(self@, p, i as int);
                }
                return Some(i);
            }
            proof {
                assert(self@[i as int] == e.view());
            }
            i = i + 1;
        }
        proof {
            lemma_first_match_none(self@, p);
        }
        None
    }

    /// Records `approval`; an approval with the same key is replaced.
    pub fn insert_with_id(&mut self, approval: PendingApproval)
        requires
            old(self).wf(),
        ensures
            final(self).wf(),
            final(self)@ == recorded(old(self)@, approval.view()),
    {
        let ghost a = approval.view();
        proof {
            lemma_first_match(old(self)@, same_key_as(a));
        }
        match self.position_of_key(&approval) {
            Some(i) => {
                self.entries.set(i, approval);
                proof {
                    assert(self@ =~= old(self)@.update(i as int, a));
                    assert forall|x: int, y: int|
                        0 <= x < self@.len() && 0 <= y < self@.len() && x != y implies !same_key(
                        #[trigger] self@[x],
                        #[trigger] self@[y],
                    ) by {
                        if x != i && y != i {
                            assert(self@[x] == old(self)@[x]);
                            assert(self@[y] == old(self)@[y]);
                        } else if x == i {
                            assert(same_key(old(self)@[i as int], a));
                            assert(self@[y] == old(self)@[y]);
                            assert(!same_key(old(self)@[i as int], old(self)@[y]));
                        } else {
                            assert(same_key(old(self)@[i as int], a));
                            assert(self@[x] == old(self)@[x]);
                            assert(!same_key(old(self)@[x], old(self)@[i as int]));
                        }
                    }
                }
            },
            None => {
                self.entries.push(approval);
                proof {
                    assert(self@ =~= old(self)@.push(a));
                    assert forall|x: int, y: int|
                        0 <= x < self@.len() && 0 <= y < self@.len() && x != y implies !same_key(
                        #[trigger] self@[x],
                        #[trigger] self@[y],
                    ) by {
                        let n = old(self)@.len() as int;
                        if x < n && y < n {
                            assert(self@[x] == old(self)@[x]);
                            assert(self@[y] == old(self)@[y]);
                        } else if x == n {
                            assert(self@[y] == old(self)@[y]);
                            assert(!same_key(old(self)@[y], a));
                        } else {
                            assert(self@[x] == old(self)@[x]);
                            assert(!same_key(old(self)@[x], a));
                        }
                    }
                }
            },
        }
    }

    /// Records a pending approval for `owner` under a fresh random id (the
    /// text of a random UUID) and returns the id; see `insert_with_id`.
    pub fn insert(
        &mut self,
        owner: ApprovalOwner,
        turn_id: u128,
        call_id: String,
        tool: String,
        connection_id: u128,
    ) -> (approval_id: String)
        requires
            old(self).wf(),
        ensures
            final(self).wf(),
            final(self)@ == recorded(
                old(self)@,
                ApprovalView {
                    principal: owner.principal_id@,
                    thread: owner.thread_id@,
                    turn_id,
                    call_id: call_id@,
                    approval_id: approval_id@,
                    connection_id,
                    tool: tool@,
                },
            ),
            exists|id: u128| id != 0 && approval_id@ == #[trigger] uuid_text(id),
    {
        let id = random_uuid();
        let approval_id = uuid_string(id);
        let approval = PendingApproval {
            owner,
            turn_id,
            call_id,
            approval_id: approval_id.clone(),
            connection_id,
            tool,
        };
        self.insert_with_id(approval);
        approval_id
    }

    /// Position of the first entry satisfying the given test, checked by
    /// `matches` on each entry.
    fn first_owned(&self, owner: &ApprovalOwner, approval_id: &String) -> (index: Option<usize>)
        ensures
            index == match first_match(
                self@,
                owned_by(owner.principal_id@, owner.thread_id@, approval_id@),
            ) {
                Some(i) => Some(i as usize),
                None => None::<usize>,
            },
            index matches Some(i) ==> i < self@.len() && owned_match(
                self@[i as int],
                owner.principal_id@,
                owner.thread_id@,
                approval_id@,
            ),
    {
        let ghost p = owned_by(owner.principal_id@, owner.thread_id@, approval_id@);
        let mut i: usize = 0;
        while i < self.entries.len()
            invariant
                0 <= i <= self@.len(),
                self@.len() == self.entries@.len(),
                p == owned_by(owner.principal_id@, owner.thread_id@, approval_id@),
                forall|j: int| 0 <= j < i ==> !p(#[trigger] self@[j]),
            decreases self@.len() - i,
        {
            let e = &self.entries[i];
            proof {
                assert(self@[i as int] == e.view());
            }
            if e.approval_id == *approval_id && same_owner(&e.owner, owner) {
                proof {
                    assert(p(self@[i as int]));
                    lemma_first_match_at(self@, p, i as int);
                }
                return Some(i);
            }
            i = i + 1;
        }
        proof {
            lemma_first_match_none(self@, p);
        }
        None
    }

    /// Position of the first entry with `approval_id`.
    fn first_with_id(&self, approval_id: &String) -> (index: Option<usize>)
        ensures
            index == match first_match(self@, with_id(approval_id@)) {
                Some(i) => Some(i as usize),
                None => None::<usize>,
            },
            index matches Some(i) ==> i < self@.len() && self@[i as int].approval_id
                == approval_id@,
            index is None ==> forall|j: int|
                0 <= j < self@.len() ==> (#[trigger] self@[j]).approval_id != approval_id@,
    {
        let ghost p = with_id(approval_id@);
        let mut i: usize = 0;
        while i < self.entries.len()
            invariant
                0 <= i <= self@.len(),
                self@.len() == self.entries@.len(),
                p == with_id(approval_id@),
                forall|j: int| 0 <= j < i ==> !p(#[trigger] self@[j]),
            decreases self@.len() - i,
        {
            let e = &self.entries[i];
            proof {
                assert(self@[i as int] == e.view());
            }
            if e.approval_id == *approval_id {
                proof {
                    assert(p(self@[i as int]));
                    lemma_first_match_at(self@, p, i as int);
                }
                return Some(i);
            }
            i = i + 1;
        }
        proof {
            assert forall|j: int| 0 <= j < self@.len() implies (#[trigger] self@[j]).approval_id
                != approval_id@ by {
                assert(!p(self@[j]));
            }
        }
        proof {
            lemma_first_match_none(self@, p);
        }
        None
    }

    /// Removes the entry at `i` and returns it.
    fn remove_at(&mut self, i: usize) -> (removed: PendingApproval)
        requires
            old(self).wf(),
            i < old(self)@.len(),
        ensures
            final(self).wf(),
            removed.view() == old(self)@[i as int],
            final(self)@ == old(self)@.remove(i as int),
    {
        let removed = self.entries.remove(i);
        proof {
            assert(self@ =~= old(self)@.remove(i as int));
            assert forall|x: int, y: int|
                0 <= x < self@.len() && 0 <= y < self@.len() && x != y implies !same_key(
                #[trigger] self@[x],
                #[trigger] self@[y],
            ) by {
                let x2 = if x < i {
                    x
                } else {
                    x + 1
                };
                let y2 = if y < i {
                    y
                } else {
                    y + 1
                };
                assert(self@[x] == old(self)@[x2]);
                assert(self@[y] == old(self)@[y2]);
            }
        }
        removed
    }

    /// Resolves approval `approval_id` on behalf of `owner`: the first such
    /// approval of that owner is removed and returned. Refused with
    /// `WrongOwner` when the approval is pending only for other owners, and
    /// with `NotFound` when it is not pending at all.
    pub fn resolve(&mut self, owner: &ApprovalOwner, approval_id: &str) -> (outcome: Result<
        PendingApproval,
        PendingApprovalError,
    >)
        requires
            old(self).wf(),
        ensures
            final(self).wf(),
            match first_match(
                old(self)@,
                owned_by(owner.principal_id@, owner.thread_id@, approval_id@),
            ) {
                Some(i) => outcome matches Ok(e) && e.view() == old(self)@[i] && final(self)@
                    == old(self)@.remove(i),
                None => final(self)@ == old(self)@ && outcome == Err::<
                    PendingApproval,
                    PendingApprovalError,
                >(
                    if exists|j: int|
                        0 <= j < old(self)@.len() && (#[trigger] old(self)@[j]).approval_id
                            == approval_id@ {
                        PendingApprovalError::WrongOwner
                    } else {
                        PendingApprovalError::NotFound
                    },
                ),
            },
    {
        let id = approval_id.to_owned();
        proof {
            lemma_first_match(
                old(self)@,
                owned_by(owner.principal_id@, owner.thread_id@, approval_id@),
            );
        }
        match self.first_owned(owner, &id) {
            Some(i) => Ok(self.remove_at(i)),
            None => {
                match self.first_with_id(&id) {
                    Some(j) => {
                        proof {
                            assert(old(self)@[j as int].approval_id == approval_id@);
                        }
                        Err(PendingApprovalError::WrongOwner)
                    },
                    None => Err(PendingApprovalError::NotFound),
                }
            },
        }
    }

    /// Resolves approval `approval_id` for a legacy response that carries
    /// no thread: the first pending approval with that id must belong to
    /// `principal_id` and to connection `connection_id`; it is then removed
    /// and returned.
    pub fn resolve_authenticated(
        &mut self,
        principal_id: &str,
        connection_id: u128,
        approval_id: &str,
    ) -> (outcome: Result<PendingApproval, PendingApprovalError>)
        requires
            old(self).wf(),
        ensures
            final(self).wf(),
            match first_match(old(self)@, with_id(approval_id@)) {
                None => outcome == Err::<PendingApproval, PendingApprovalError>(
                    PendingApprovalError::NotFound,
                ) && final(self)@ == old(self)@,
                Some(j) => if old(self)@[j].principal != principal_id@ || old(self)@[j].connection_id
                    != connection_id {
                    outcome == Err::<PendingApproval, PendingApprovalError>(
                        PendingApprovalError::WrongOwner,
                    ) && final(self)@ == old(self)@
                } else {
                    outcome matches Ok(e) && e.view() == old(self)@[j] && final(self)@ == old(
                        self,
                    )@.remove(j)
                },
            },
    {
        let id = approval_id.to_owned();
        proof {
            lemma_first_match(old(self)@, with_id(approval_id@));
        }
        let j = match self.first_with_id(&id) {
            Some(j) => j,
            None => {
                return Err(PendingApprovalError::NotFound);
            },
        };
        let principal = principal_id.to_owned();
        let owner = {
            let e = &self.entries[j];
            proof {
                assert(self@[j as int] == e.view());
            }
            if e.owner.principal_id != principal || e.connection_id != connection_id {
                return Err(PendingApprovalError::WrongOwner);
            }
            copy_owner(&e.owner)
        };
        let ghost p = owned_by(owner.principal_id@, owner.thread_id@, approval_id@);
        proof {
            let q = with_id(approval_id@);
            lemma_first_match(old(self)@, q);
            assert(p(old(self)@[j as int]));
            assert forall|k: int| 0 <= k < j implies !p(#[trigger] old(self)@[k]) by {
                assert(!q(old(self)@[k]));
            }
            lemma_first_match_at(old(self)@, p, j as int);
        }
        self.resolve(&owner, approval_id)
    }

    /// Closes every approval pending on connection `connection_id` (its
    /// transport went away) and returns them, in order; approvals of other
    /// connections stay.
    pub fn cancel_connection(&mut self, connection_id: u128) -> (cancelled: Vec<PendingApproval>)
        requires
            old(self).wf(),
        ensures
            final(self).wf(),
            cancelled@.map_values(|e: PendingApproval| e.view()) == old(self)@.filter(
                on_connection(connection_id),
            ),
            final(self)@ == old(self)@.filter(not_on_connection(connection_id)),
    {
        let ghost original = self@;
        let mut kept: Vec<PendingApproval> = Vec::new();
        let mut cancelled: Vec<PendingApproval> = Vec::new();
        let mut rest: Vec<PendingApproval> = Vec::new();
        std::mem::swap(&mut rest, &mut self.entries);
        let mut reversed: Vec<PendingApproval> = Vec::new();
        while rest.len() > 0
            invariant
                rest@.map_values(|e: PendingApproval| e.view()) + reversed@.map_values(
                    |e: PendingApproval| e.view(),
                ).reverse() == original,
            decreases rest@.len(),
        {
            let ghost r0 = rest@;
            let ghost v0 = reversed@;
            let e = rest.pop().unwrap();
            reversed.push(e);
            proof {
                assert(r0 =~= rest@.push(e));
                assert(rest@.map_values(|e: PendingApproval| e.view()) + reversed@.map_values(
                    |e: PendingApproval| e.view(),
                ).reverse() =~= r0.map_values(|e: PendingApproval| e.view()) + v0.map_values(
                    |e: PendingApproval| e.view(),
                ).reverse());
            }
        }
        let ghost on = on_connection(connection_id);
        let ghost off = not_on_connection(connection_id);
        let ghost done: int = 0;
        while reversed.len() > 0
            invariant
                reversed@.map_values(|e: PendingApproval| e.view()).reverse() == original.subrange(
                    done,
                    original.len() as int,
                ),
                0 <= done <= original.len(),
                distinct_keys(original),
                on == on_connection(connection_id),
                off == not_on_connection(connection_id),
                cancelled@.map_values(|e: PendingApproval| e.view()) == original.take(done).filter(
                    on,
                ),
                kept@.map_values(|e: PendingApproval| e.view()) == original.take(done).filter(off),
            decreases reversed@.len(),
        {
            let ghost v0 = reversed@;
            let e = reversed.pop().unwrap();
            proof {
                assert(v0 =~= reversed@.push(e));
                let vv = v0.map_values(|e: PendingApproval| e.view());
                assert(vv.reverse() =~= seq![e.view()] + reversed@.map_values(
                    |e: PendingApproval| e.view(),
                ).reverse());
                let whole = original.subrange(done, original.len() as int);
                let tail = reversed@.map_values(|e: PendingApproval| e.view()).reverse();
                assert(whole =~= seq![e.view()] + tail);
                assert(whole[0] == original[done]);
                assert(e.view() == original[done]);
                assert(tail =~= whole.subrange(1, whole.len() as int));
                assert(tail =~= original.subrange(done + 1, original.len() as int));
                reveal(Seq::filter);
                assert(original.take(done + 1).drop_last() =~= original.take(done));
                assert(original.take(done + 1).last() == original[done]);
            }
            if e.connection_id == connection_id {
                cancelled.push(e);
            } else {
                kept.push(e);
            }
            proof {
                done = done + 1;
            }
        }
        proof {
            assert(original.take(original.len() as int) =~= original);
        }
        self.entries = kept;
        proof {
            assert(self@ == original.filter(off));
            let f = original.filter(off);
            assert forall|x: int, y: int|
                0 <= x < f.len() && 0 <= y < f.len() && x != y implies !same_key(
                #[trigger] f[x],
                #[trigger] f[y],
            ) by {
                lemma_filter_distinct(original, off, x, y);
            }
        }
        cancelled
    }
}

/// Entries kept by a filter are distinct entries of the original.
pub proof fn lemma_filter_distinct(s: Seq<ApprovalView>, p: spec_fn(ApprovalView) -> bool, x: int, y: int)
    requires
        distinct_keys(s),
        0 <= x < s.filter(p).len(),
        0 <= y < s.filter(p).len(),
        x != y,
    ensures
        !same_key(s.filter(p)[x], s.filter(p)[y]),
    decreases s.len(),
{
    reveal(Seq::filter);
    if s.len() > 0 {
        let rest = s.drop_last();
        assert(distinct_keys(rest)) by {
            assert forall|a: int, b: int|
                0 <= a < rest.len() && 0 <= b < rest.len() && a != b implies !same_key(
                #[trigger] rest[a],
                #[trigger] rest[b],
            ) by {
                assert(rest[a] == s[a]);
                assert(rest[b] == s[b]);
            }
        }
        let fr = rest.filter(p);
        if p(s.last()) {
            let n = fr.len() as int;
            if x < n && y < n {
                lemma_filter_distinct(rest, p, x, y);
            } else {
                let other = if x < n {
                    x
                } else {
                    y
                };
                rest.lemma_filter_contains_rev(p, fr[other]);
                assert(fr.contains(fr[other]));
                let k = choose|k: int| 0 <= k < rest.len() && rest[k] == fr[other];
                assert(rest[k] == s[k]);
                assert(s.last() == s[s.len() - 1]);
                assert(!same_key(s[k], s[s.len() - 1]));
                assert(!same_key(s[s.len() - 1], s[k]));
            }
        } else {
            lemma_filter_distinct(rest, p, x, y);
        }
    }
}

/// An approval is resolved only on behalf of its owner: the entry that
/// `resolve` removes belongs to the requesting principal and thread and
/// carries the requested id.
pub proof fn law_only_owner_resolves(
    entries: Seq<ApprovalView>,
    principal: Seq<char>,
    thread: Seq<char>,
    approval_id: Seq<char>,
)
    ensures
        match first_match(entries, owned_by(principal, thread, approval_id)) {
            Some(i) => 0 <= i < entries.len() && entries[i].principal == principal
                && entries[i].thread == thread && entries[i].approval_id == approval_id,
            None => true,
        },
{
    lemma_first_match(entries, owned_by(principal, thread, approval_id));
}

/// Closing a connection leaves none of its approvals pending.
pub proof fn law_cancel_leaves_none_pending(entries: Seq<ApprovalView>, connection_id: u128)
    ensures
        forall|i: int|
            0 <= i < entries.filter(not_on_connection(connection_id)).len() ==> (#[trigger] entries.filter(
                not_on_connection(connection_id),
            )[i]).connection_id != connection_id,
{
    assert forall|i: int|
        0 <= i < entries.filter(not_on_connection(connection_id)).len() implies (#[trigger] entries.filter(
        not_on_connection(connection_id),
    )[i]).connection_id != connection_id by {
        entries.lemma_filter_pred(not_on_connection(connection_id), i);
    }
}

impl PendingApproval {
    /// The outcome of resolving this approval, given whether the decision
    /// reached the waiting turn.
    pub fn into_resolution(self, delivered: bool) -> (resolved: ResolvedPendingApproval)
        ensures
            resolved.owner.principal_id@ == self.owner.principal_id@,
            resolved.owner.thread_id@ == self.owner.thread_id@,
            resolved.tool@ == self.tool@,
            resolved.delivery == if delivered {
                ApprovalDecisionDelivery::Delivered
            } else {
                ApprovalDecisionDelivery::ConsumerGone
            },
    {
        ResolvedPendingApproval {
            owner: self.owner,
            tool: self.tool,
            delivery: if delivered {
                ApprovalDecisionDelivery::Delivered
            } else {
                ApprovalDecisionDelivery::ConsumerGone
            },
        }
    }
}

/// Tools approved for the rest of a thread, per principal.
#[derive(Debug, Default)]
pub struct ScopedApprovalCache {
    grants: Vec<(String, String, String)>,
}

impl View for ScopedApprovalCache {
    type V = Set<(Seq<char>, Seq<char>, Seq<char>)>;

    /// The (principal, thread, tool) grants.
    closed spec fn view(&self) -> Set<(Seq<char>, Seq<char>, Seq<char>)> {
        Set::new(
            |g: (Seq<char>, Seq<char>, Seq<char>)|
                exists|i: int|
                    0 <= i < self.grants@.len() && (#[trigger] self.grants@[i]).0@ == g.0
                        && self.grants@[i].1@ == g.1 && self.grants@[i].2@ == g.2,
        )
    }
}

impl ScopedApprovalCache {
    pub fn new() -> (cache: Self)
        ensures
            cache@ == Set::<(Seq<char>, Seq<char>, Seq<char>)>::empty(),
    {
        let cache = ScopedApprovalCache { grants: Vec::new() };
        proof {
            assert(cache@ =~= Set::<(Seq<char>, Seq<char>, Seq<char>)>::empty());
        }
        cache
    }

    /// Forgets every grant.
    pub fn clear(&mut self)
        ensures
            final(self)@ == Set::<(Seq<char>, Seq<char>, Seq<char>)>::empty(),
    {
        self.grants.clear();
        proof {
            assert(self@ =~= Set::<(Seq<char>, Seq<char>, Seq<char>)>::empty());
        }
    }

    fn position(&self, principal_id: &String, thread_id: &String, tool: &String) -> (index: Option<
        usize,
    >)
        ensures
            match index {
                Some(i) => i < self.grants@.len() && self.grants@[i as int].0@ == principal_id@
                    && self.grants@[i as int].1@ == thread_id@ && self.grants@[i as int].2@ == tool@,
                None => !self@.contains((principal_id@, thread_id@, tool@)),
            },
    {
        let mut i: usize = 0;
        while i < self.grants.len()
            invariant
                0 <= i <= self.grants@.len(),
                forall|j: int|
                    0 <= j < i ==> !((#[trigger] self.grants@[j]).0@ == principal_id@
                        && self.grants@[j].1@ == thread_id@ && self.grants@[j].2@ == tool@),
            decreases self.grants@.len() - i,
        {
            let g = &self.grants[i];
            if g.0 == *principal_id && g.1 == *thread_id && g.2 == *tool {
                return Some(i);
            }
            i = i + 1;
        }
        None
    }

    /// Approves `tool` for the rest of `thread_id` of `principal_id`.
    pub fn allow_for_thread(&mut self, principal_id: String, thread_id: String, tool: String)
        ensures
            final(self)@ == old(self)@.insert((principal_id@, thread_id@, tool@)),
    {
        match self.position(&principal_id, &thread_id, &tool) {
            Some(_) => {
                proof {
                    assert(old(self)@.insert((principal_id@, thread_id@, tool@)) =~= old(self)@);
                }
            },
            None => {
                let ghost g = (principal_id@, thread_id@, tool@);
                self.grants.push((principal_id, thread_id, tool));
                proof {
                    assert forall|x: (Seq<char>, Seq<char>, Seq<char>)| #[trigger]
                        self@.contains(x) <==> old(self)@.insert(g).contains(x) by {
                        if old(self)@.contains(x) {
                            let i = choose|i: int|
                                0 <= i < old(self).grants@.len() && (#[trigger] old(
                                    self,
                                ).grants@[i]).0@ == x.0 && old(self).grants@[i].1@ == x.1 && old(
                                    self,
                                ).grants@[i].2@ == x.2;
                            assert(self.grants@[i] == old(self).grants@[i]);
                        }
                        if self@.contains(x) {
                            let i = choose|i: int|
                                0 <= i < self.grants@.len() && (#[trigger] self.grants@[i]).0@
                                    == x.0 && self.grants@[i].1@ == x.1 && self.grants@[i].2@ == x.2;
                            if i < old(self).grants@.len() {
                                assert(self.grants@[i] == old(self).grants@[i]);
                            }
                        }
                        if x == g {
                            let n = old(self).grants@.len() as int;
                            assert(self.grants@[n].0@ == x.0);
                        }
                    }
                    assert(self@ =~= old(self)@.insert(g));
                }
            },
        }
    }

    /// Whether `tool` was approved for the rest of `thread_id` of
    /// `principal_id`.
    pub fn is_allowed(&self, principal_id: &str, thread_id: &str, tool: &str) -> (allowed: bool)
        ensures
            allowed == self@.contains((principal_id@, thread_id@, tool@)),
    {
        let principal = principal_id.to_owned();
        let thread = thread_id.to_owned();
        let tool_name = tool.to_owned();
        match self.position(&principal, &thread, &tool_name) {
            Some(i) => {
                proof {
                    assert(self.grants@[i as int].0@ == principal_id@);
                }
                true
            },
            None => false,
        }
    }
}

} // verus!
