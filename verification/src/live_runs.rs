//! Background resources of a live Agent run: which declarations are
//! accepted, the deterministic order in which settlement handles them, and
//! the ownership of a managed resource while it is reparented.

use vstd::prelude::*;
use crate::context_assembly::{blank, is_blank};
use crate::control_error::{control_error, AgentControlError, AgentControlErrorKind};
use crate::text::chars_of;

verus! {

/// Why a list of resource declarations is refused, checked in order: too
/// many; then, for the first declaration that fails, a blank id or an id
/// that an earlier declaration already has.
pub open spec fn resource_refusal(ids: Seq<Seq<char>>, max: int) -> Option<Seq<char>> {
    if ids.len() > max {
        Some("too many background resources"@)
    } else {
        first_bad_resource(ids, 0)
    }
}

/// The refusal of the first bad declaration at or after `from`.
pub open spec fn first_bad_resource(ids: Seq<Seq<char>>, from: int) -> Option<Seq<char>>
    decreases ids.len() - from,
{
    if from < 0 || from >= ids.len() {
        None
    } else if is_blank(ids[from]) {
        Some("background resource ID must not be empty"@)
    } else if exists|k: int| 0 <= k < from && #[trigger] ids[k] == ids[from] {
        Some("background resource IDs must be unique"@)
    } else {
        first_bad_resource(ids, from + 1)
    }
}

pub open spec fn id_views(ids: Seq<String>) -> Seq<Seq<char>> {
    ids.map_values(|s: String| s@)
}

/// Accepts the ids of a run's background resources: at most `max`, none
/// blank, no two equal.
pub fn validate_background_resources(ids: &Vec<String>, max: usize) -> (outcome: Result<
    (),
    AgentControlError,
>)
    ensures
        match resource_refusal(id_views(ids@), max as int) {
            None => outcome is Ok,
            Some(message) => outcome matches Err(e) && e.kind
                == AgentControlErrorKind::InvalidRequest && e.message@ == message,
        },
{
    let ghost views = id_views(ids@);
    if ids.len() > max {
        return Err(
            control_error(AgentControlErrorKind::InvalidRequest, "too many background resources"),
        );
    }
    let mut i: usize = 0;
    while i < ids.len()
        invariant
            0 <= i <= ids@.len(),
            ids@.len() <= max,
            views == id_views(ids@),
            first_bad_resource(views, 0) == first_bad_resource(views, i as int),
        decreases ids@.len() - i,
    {
        proof {
            assert(views[i as int] == ids@[i as int]@);
        }
        if blank(ids[i].as_str()) {
            return Err(
                control_error(
                    AgentControlErrorKind::InvalidRequest,
                    "background resource ID must not be empty",
                ),
            );
        }
        let mut k: usize = 0;
        while k < i
            invariant
                0 <= k <= i < ids@.len(),
                ids@.len() <= max,
                views == id_views(ids@),
                views[i as int] == ids@[i as int]@,
                !is_blank(views[i as int]),
                first_bad_resource(views, 0) == first_bad_resource(views, i as int),
                forall|j: int| 0 <= j < k ==> #[trigger] views[j] != views[i as int],
            decreases i - k,
        {
            if ids[k] == ids[i] {
                proof {
                    assert(views[k as int] == views[i as int]);
                }
                return Err(
                    control_error(
                        AgentControlErrorKind::InvalidRequest,
                        "background resource IDs must be unique",
                    ),
                );
            }
            k = k + 1;
        }
        i = i + 1;
    }
    Ok(())
}

/// Strict lexicographic order of character sequences (the order of
/// `String`'s comparison).
pub open spec fn lex_lt(a: Seq<char>, b: Seq<char>) -> bool
    decreases a.len(),
{
    if a.len() == 0 {
        b.len() > 0
    } else if b.len() == 0 {
        false
    } else if a[0] != b[0] {
        (a[0] as u32) < (b[0] as u32)
    } else {
        lex_lt(a.drop_first(), b.drop_first())
    }
}

/// `lex_lt` is transitive.
pub proof fn lemma_lex_lt_transitive(a: Seq<char>, b: Seq<char>, c: Seq<char>)
    requires
        lex_lt(a, b),
        lex_lt(b, c),
    ensures
        lex_lt(a, c),
    decreases a.len(),
{
    if a.len() > 0 && b.len() > 0 && c.len() > 0 && a[0] == b[0] && b[0] == c[0] {
        lemma_lex_lt_transitive(a.drop_first(), b.drop_first(), c.drop_first());
    }
}

/// `lex_lt` is irreflexive.
pub proof fn lemma_lex_lt_irreflexive(a: Seq<char>)
    ensures
        !lex_lt(a, a),
    decreases a.len(),
{
    if a.len() > 0 {
        lemma_lex_lt_irreflexive(a.drop_first());
    }
}

/// Whether `a` sorts before `b`.
fn lex_less(a: &String, b: &String) -> (less: bool)
    ensures
        less == lex_lt(a@, b@),
{
    let x = chars_of(a.as_str());
    let y = chars_of(b.as_str());
    let mut i: usize = 0;
    proof {
        assert(a@.skip(0) =~= a@);
        assert(b@.skip(0) =~= b@);
    }
    while i < x.len() && i < y.len()
        invariant
            x@ == a@,
            y@ == b@,
            0 <= i <= x@.len(),
            i <= y@.len(),
            lex_lt(a@, b@) == lex_lt(a@.skip(i as int), b@.skip(i as int)),
        decreases x@.len() - i,
    {
        proof {
            assert(a@.skip(i as int)[0] == x@[i as int]);
            assert(b@.skip(i as int)[0] == y@[i as int]);
            assert(a@.skip(i as int).drop_first() =~= a@.skip(i + 1));
            assert(b@.skip(i as int).drop_first() =~= b@.skip(i + 1));
        }
        if x[i] != y[i] {
            return (x[i] as u32) < (y[i] as u32);
        }
        i = i + 1;
    }
    proof {
        assert(a@.skip(i as int).len() == x@.len() - i);
        assert(b@.skip(i as int).len() == y@.len() - i);
    }
    i == x.len() && i < y.len()
}

/// Sorted by id: no later id sorts before an earlier one.
pub open spec fn sorted_by_id<T>(items: Seq<(String, T)>) -> bool {
    forall|i: int, j: int| 0 <= i < j < items.len() ==> !lex_lt(items[j].0@, items[i].0@)
}

/// The position of a least id in `items` (which is not empty).
fn least_id<T>(items: &Vec<(String, T)>) -> (index: usize)
    requires
        items@.len() > 0,
    ensures
        index < items@.len(),
        forall|k: int| 0 <= k < items@.len() ==> !lex_lt(#[trigger] items@[k].0@, items@[index as int].0@),
{
    let mut best: usize = 0;
    let mut i: usize = 1;
    proof {
        lemma_lex_lt_irreflexive(items@[0].0@);
    }
    while i < items.len()
        invariant
            0 <= best < items@.len(),
            1 <= i <= items@.len(),
            best < i,
            forall|k: int| 0 <= k < i ==> !lex_lt(#[trigger] items@[k].0@, items@[best as int].0@),
        decreases items@.len() - i,
    {
        if lex_less(&items[i].0, &items[best].0) {
            proof {
                assert forall|k: int| 0 <= k < i + 1 implies !lex_lt(
                    #[trigger] items@[k].0@,
                    items@[i as int].0@,
                ) by {
                    if k == i {
                        lemma_lex_lt_irreflexive(items@[i as int].0@);
                    } else if lex_lt(items@[k].0@, items@[i as int].0@) {
                        lemma_lex_lt_transitive(
                            items@[k].0@,
                            items@[i as int].0@,
                            items@[best as int].0@,
                        );
                    }
                }
            }
            best = i;
        }
        i = i + 1;
    }
    best
}

/// The resources in the deterministic order settlement handles them:
/// sorted by id, each declaration kept.
pub fn sort_by_id<T>(items: Vec<(String, T)>) -> (sorted: Vec<(String, T)>)
    ensures
        sorted_by_id(sorted@),
        sorted@.to_multiset() == items@.to_multiset(),
{
    broadcast use vstd::seq_lib::group_to_multiset_ensures, vstd::multiset::group_multiset_axioms;

    let ghost original = items@;
    let mut rest = items;
    let mut sorted: Vec<(String, T)> = Vec::new();
    while rest.len() > 0
        invariant
            sorted_by_id(sorted@),
            sorted@.to_multiset().add(rest@.to_multiset()) == original.to_multiset(),
            forall|i: int, k: int|
                0 <= i < sorted@.len() && 0 <= k < rest@.len() ==> !lex_lt(
                    #[trigger] rest@[k].0@,
                    #[trigger] sorted@[i].0@,
                ),
        decreases rest@.len(),
    {
        let m = least_id(&rest);
        let ghost before_rest = rest@;
        let ghost before_sorted = sorted@;
        let item = rest.remove(m);
        proof {
            assert(item == before_rest[m as int]);
            assert(rest@ == before_rest.remove(m as int));
            assert forall|k: int| 0 <= k < rest@.len() implies #[trigger] before_rest.contains(
                rest@[k],
            ) by {
                if k < m {
                    assert(rest@[k] == before_rest[k]);
                } else {
                    assert(rest@[k] == before_rest[k + 1]);
                }
            }
        }
        sorted.push(item);
        proof {
            assert(sorted@ == before_sorted.push(item));
            assert forall|i: int, k: int|
                0 <= i < sorted@.len() && 0 <= k < rest@.len() implies !lex_lt(
                #[trigger] rest@[k].0@,
                #[trigger] sorted@[i].0@,
            ) by {
                let kk = if k < m {
                    k
                } else {
                    k + 1
                };
                assert(rest@[k] == before_rest[kk]);
                if i < before_sorted.len() {
                    assert(sorted@[i] == before_sorted[i]);
                } else {
                    assert(sorted@[i] == before_rest[m as int]);
                }
            }
            assert forall|i: int, j: int| 0 <= i < j < sorted@.len() implies !lex_lt(
                sorted@[j].0@,
                sorted@[i].0@,
            ) by {
                if j < before_sorted.len() {
                    assert(sorted@[i] == before_sorted[i]);
                    assert(sorted@[j] == before_sorted[j]);
                } else {
                    assert(sorted@[i] == before_sorted[i]);
                    assert(sorted@[j] == before_rest[m as int]);
                }
            }
            vstd::seq_lib::to_multiset_remove(before_rest, m as int);
            vstd::seq_lib::to_multiset_build(before_sorted, item);
            assert(before_rest.remove(m as int).to_multiset() =~= before_rest.to_multiset().remove(
                before_rest[m as int],
            ));
            assert(before_sorted.push(item).to_multiset() =~= before_sorted.to_multiset().insert(
                item,
            ));
            assert(before_rest.contains(item));
            vstd::seq_lib::to_multiset_contains(before_rest, item);
            assert(before_rest.to_multiset().count(item) > 0);
            let sm = before_sorted.to_multiset();
            let rm = before_rest.to_multiset();
            assert forall|x: (String, T)| #[trigger] sm.insert(item).add(rm.remove(item)).count(x)
                == sm.add(rm).count(x) by {
                if x == item {
                    assert(rm.remove(item).count(x) == rm.count(x) - 1);
                }
            }
            assert(sm.insert(item).add(rm.remove(item)) =~= sm.add(rm));
            assert(sorted@.to_multiset().add(rest@.to_multiset()) =~= original.to_multiset());
        }
    }
    proof {
        assert(rest@.to_multiset() =~= vstd::multiset::Multiset::empty());
        assert(sorted@.to_multiset() =~= original.to_multiset());
    }
    sorted
}

/// The ownership of a managed background resource and the settlement
/// actions already applied to it.
#[derive(Debug)]
pub struct ManagedResource {
    owner: String,
    completed: Vec<String>,
}

impl ManagedResource {
    pub closed spec fn owner(&self) -> Seq<char> {
        self.owner@
    }

    /// The keys of the actions applied so far.
    pub closed spec fn completed(&self) -> Set<Seq<char>> {
        Set::new(|k: Seq<char>| exists|i: int| 0 <= i < self.completed@.len() && (#[trigger] self.completed@[i])@ == k)
    }

    /// A resource owned by `owner`, with no action applied.
    pub fn new(owner: String) -> (resource: Self)
        ensures
            resource.owner() == owner@,
            resource.completed() == Set::<Seq<char>>::empty(),
    {
        let resource = ManagedResource { owner, completed: Vec::new() };
        proof {
            assert(resource.completed() =~= Set::<Seq<char>>::empty());
        }
        resource
    }

    fn has_completed(&self, action_key: &String) -> (done: bool)
        ensures
            done == self.completed().contains(action_key@),
    {
        let mut i: usize = 0;
        while i < self.completed.len()
            invariant
                0 <= i <= self.completed@.len(),
                forall|j: int| 0 <= j < i ==> (#[trigger] self.completed@[j])@ != action_key@,
            decreases self.completed@.len() - i,
        {
            if self.completed[i] == *action_key {
                proof {
                    assert(self.completed@[i as int]@ == action_key@);
                }
                return true;
            }
            i = i + 1;
        }
        false
    }

    fn complete(&mut self, action_key: String)
        ensures
            final(self).completed() == old(self).completed().insert(action_key@),
            final(self).owner() == old(self).owner(),
    {
        let ghost key = action_key@;
        self.completed.push(action_key);
        proof {
            assert forall|k: Seq<char>| #[trigger] self.completed().contains(k) == old(
                self,
            ).completed().insert(key).contains(k) by {
                if old(self).completed().contains(k) {
                    let i = choose|i: int|
                        0 <= i < old(self).completed@.len() && (#[trigger] old(
                            self,
                        ).completed@[i])@ == k;
                    assert(self.completed@[i] == old(self).completed@[i]);
                }
                if self.completed().contains(k) {
                    let i = choose|i: int|
                        0 <= i < self.completed@.len() && (#[trigger] self.completed@[i])@ == k;
                    if i < old(self).completed@.len() {
                        assert(self.completed@[i] == old(self).completed@[i]);
                    }
                }
                if k == key {
                    assert(self.completed@[old(self).completed@.len() as int]@ == key);
                }
            }
            assert(self.completed() =~= old(self).completed().insert(key));
        }
    }

    /// Records termination under `action_key`; true when this is the first
    /// time, so the caller cancels the producer exactly once per key.
    pub fn terminate(&mut self, action_key: &str) -> (first: bool)
        ensures
            first == !old(self).completed().contains(action_key@),
            final(self).completed() == old(self).completed().insert(action_key@),
            final(self).owner() == old(self).owner(),
    {
        let key = action_key.to_owned();
        if self.has_completed(&key) {
            proof {
                assert(old(self).completed().insert(action_key@) =~= old(self).completed());
            }
            return false;
        }
        self.complete(key);
        true
    }

    /// Moves the resource from `old_owner` to `new_owner` under
    /// `action_key`. Repeating an applied action does nothing; a resource
    /// owned by neither party is refused.
    pub fn reparent(&mut self, old_owner: &str, new_owner: &str, action_key: &str) -> (outcome:
        Result<(), AgentControlError>)
        ensures
            old(self).completed().contains(action_key@) ==> outcome is Ok && final(self).owner()
                == old(self).owner() && final(self).completed() == old(self).completed(),
            !old(self).completed().contains(action_key@) && old(self).owner() != old_owner@
                && old(self).owner() != new_owner@ ==> (outcome matches Err(e) && e.kind
                == AgentControlErrorKind::InvalidRequest && e.message@
                == "managed settlement resource owner mismatch"@ && final(self).owner() == old(
                self,
            ).owner() && final(self).completed() == old(self).completed()),
            !old(self).completed().contains(action_key@) && (old(self).owner() == old_owner@
                || old(self).owner() == new_owner@) ==> (outcome is Ok && final(self).owner()
                == new_owner@ && final(self).completed() == old(self).completed().insert(
                action_key@,
            )),
    {
        let key = action_key.to_owned();
        if self.has_completed(&key) {
            return Ok(());
        }
        let from = old_owner.to_owned();
        let to = new_owner.to_owned();
        if self.owner != from && self.owner != to {
            return Err(
                control_error(
                    AgentControlErrorKind::InvalidRequest,
                    "managed settlement resource owner mismatch",
                ),
            );
        }
        self.owner = to;
        self.complete(key);
        Ok(())
    }
}

/// The ceilings of a run's budget, as reparenting compares them; the cost
/// ceiling is held in micro-dollars, rounded up, as admission holds it.
#[derive(Debug, Clone, Copy, PartialEq, Eq, Structural)]
pub struct AgentBudget {
    pub max_input_tokens: u64,
    pub max_output_tokens: u64,
    pub max_tool_calls: u32,
    pub max_elapsed_ms: u64,
    pub max_cost_micro: Option<u64>,
    pub max_depth: u16,
}

/// What a run may touch, as far as reparenting compares it: the writable
/// workspace roots (each as its path components), when the run has a
/// workspace, the tools it may call and its budget.
#[derive(Debug, Clone)]
pub struct ReparentAuthority {
    pub writable_roots: Option<Vec<Vec<String>>>,
    pub allowed_tools: Vec<String>,
    pub budget: AgentBudget,
}

/// Whether budget `parent` is at least `child` in every ceiling; a parent
/// without a cost ceiling accepts any child cost, a parent with one refuses
/// a child without one.
pub open spec fn budget_accepts(parent: AgentBudget, child: AgentBudget) -> bool {
    &&& parent.max_input_tokens >= child.max_input_tokens
    &&& parent.max_output_tokens >= child.max_output_tokens
    &&& parent.max_tool_calls >= child.max_tool_calls
    &&& parent.max_elapsed_ms >= child.max_elapsed_ms
    &&& parent.max_depth >= child.max_depth
    &&& match (parent.max_cost_micro, child.max_cost_micro) {
        (None, _) => true,
        (Some(p), Some(c)) => p >= c,
        (Some(_), None) => false,
    }
}

pub open spec fn texts(v: Seq<String>) -> Seq<Seq<char>> {
    v.map_values(|s: String| s@)
}

/// Whether path `child` lies under `parent` (component-wise prefix, as
/// `Path::starts_with`).
pub open spec fn under(child: Seq<Seq<char>>, parent: Seq<Seq<char>>) -> bool {
    parent.len() <= child.len() && child.subrange(0, parent.len() as int) == parent
}

/// Whether `root` lies under one of `parents`.
pub open spec fn root_covered(root: Seq<String>, parents: Seq<Vec<String>>) -> bool {
    exists|j: int| 0 <= j < parents.len() && under(texts(root), texts(#[trigger] parents[j]@))
}

/// Whether `parent` covers `child`: every tool of the child is a tool of
/// the parent, and either both have no workspace or every writable root of
/// the child lies under some writable root of the parent.
pub open spec fn scope_covers(parent: ReparentAuthority, child: ReparentAuthority) -> bool {
    &&& forall|i: int|
        0 <= i < child.allowed_tools@.len() ==> texts(parent.allowed_tools@).contains(
            #[trigger] child.allowed_tools@[i]@,
        )
    &&& match (parent.writable_roots, child.writable_roots) {
        (Some(p), Some(c)) => forall|i: int|
            0 <= i < c@.len() ==> root_covered(#[trigger] c@[i]@, p@),
        (None, None) => true,
        _ => false,
    }
}

fn text_in(hay: &Vec<String>, needle: &String) -> (found: bool)
    ensures
        found == texts(hay@).contains(needle@),
{
    let mut i: usize = 0;
    while i < hay.len()
        invariant
            0 <= i <= hay@.len(),
            forall|j: int| 0 <= j < i ==> (#[trigger] hay@[j])@ != needle@,
        decreases hay@.len() - i,
    {
        if hay[i] == *needle {
            proof {
                assert(texts(hay@)[i as int] == needle@);
            }
            return true;
        }
        i = i + 1;
    }
    proof {
        if texts(hay@).contains(needle@) {
            let j = choose|j: int| 0 <= j < texts(hay@).len() && texts(hay@)[j] == needle@;
            assert(hay@[j]@ != needle@);
        }
    }
    false
}

fn path_under(child: &Vec<String>, parent: &Vec<String>) -> (result: bool)
    ensures
        result == under(texts(child@), texts(parent@)),
{
    if parent.len() > child.len() {
        return false;
    }
    let mut k: usize = 0;
    while k < parent.len()
        invariant
            parent@.len() <= child@.len(),
            0 <= k <= parent@.len(),
            forall|j: int| 0 <= j < k ==> (#[trigger] child@[j])@ == parent@[j]@,
        decreases parent@.len() - k,
    {
        if child[k] != parent[k] {
            proof {
                assert(texts(child@).subrange(0, parent@.len() as int)[k as int] != texts(
                    parent@,
                )[k as int]);
            }
            return false;
        }
        k = k + 1;
    }
    proof {
        assert(texts(child@).subrange(0, parent@.len() as int) =~= texts(parent@));
    }
    true
}

fn under_some(child: &Vec<String>, parents: &Vec<Vec<String>>) -> (found: bool)
    ensures
        found == root_covered(child@, parents@),
{
    let mut j: usize = 0;
    while j < parents.len()
        invariant
            0 <= j <= parents@.len(),
            forall|m: int| 0 <= m < j ==> !under(texts(child@), texts(#[trigger] parents@[m]@)),
        decreases parents@.len() - j,
    {
        if path_under(child, &parents[j]) {
            return true;
        }
        j = j + 1;
    }
    false
}

impl ReparentAuthority {
    pub fn new(
        writable_roots: Option<Vec<Vec<String>>>,
        allowed_tools: Vec<String>,
        budget: AgentBudget,
    ) -> (authority: Self)
        ensures
            authority.writable_roots == writable_roots,
            authority.allowed_tools == allowed_tools,
            authority.budget == budget,
    {
        ReparentAuthority { writable_roots, allowed_tools, budget }
    }

    /// Whether this (parent) budget accepts `child`'s (see `budget_accepts`).
    pub fn accepts_budget(&self, child: &ReparentAuthority) -> (accepted: bool)
        ensures
            accepted == budget_accepts(self.budget, child.budget),
    {
        let p = self.budget;
        let c = child.budget;
        p.max_input_tokens >= c.max_input_tokens && p.max_output_tokens >= c.max_output_tokens
            && p.max_tool_calls >= c.max_tool_calls && p.max_elapsed_ms >= c.max_elapsed_ms
            && p.max_depth >= c.max_depth && match (p.max_cost_micro, c.max_cost_micro) {
            (None, _) => true,
            (Some(pc), Some(cc)) => pc >= cc,
            (Some(_), None) => false,
        }
    }

    /// Whether this (parent) scope covers `child`'s (see `scope_covers`).
    pub fn covers(&self, child: &ReparentAuthority) -> (covered: bool)
        ensures
            covered == scope_covers(*self, *child),
    {
        let mut i: usize = 0;
        while i < child.allowed_tools.len()
            invariant
                0 <= i <= child.allowed_tools@.len(),
                forall|m: int|
                    0 <= m < i ==> texts(self.allowed_tools@).contains(
                        #[trigger] child.allowed_tools@[m]@,
                    ),
            decreases child.allowed_tools@.len() - i,
        {
            if !text_in(&self.allowed_tools, &child.allowed_tools[i]) {
                return false;
            }
            i = i + 1;
        }
        match (&self.writable_roots, &child.writable_roots) {
            (Some(p), Some(c)) => {
                let mut k: usize = 0;
                while k < c.len()
                    invariant
                        0 <= k <= c@.len(),
                        self.writable_roots == Some(*p),
                        child.writable_roots == Some(*c),
                        forall|m: int|
                            0 <= m < child.allowed_tools@.len() ==> texts(
                                self.allowed_tools@,
                            ).contains(#[trigger] child.allowed_tools@[m]@),
                        forall|m: int| 0 <= m < k ==> root_covered(#[trigger] c@[m]@, p@),
                    decreases c@.len() - k,
                {
                    if !under_some(&c[k], p) {
                        proof {
                            let cc = child.writable_roots.unwrap();
                            let pp = self.writable_roots.unwrap();
                            assert(cc == *c && pp == *p);
                            assert(!root_covered(cc@[k as int]@, pp@));
                            assert(!(forall|i: int|
                                0 <= i < cc@.len() ==> root_covered(#[trigger] cc@[i]@, pp@)));
                        }
                        return false;
                    }
                    k = k + 1;
                }
                true
            },
            (None, None) => true,
            _ => false,
        }
    }
}

} // verus!
