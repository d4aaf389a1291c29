//! In-memory budget controller: token and cost budgets per principal.
//!
//! Each principal has an optional token budget and an optional cost budget
//! (in micro-dollars); `None` means unlimited. `reserve` holds part of the
//! budget, `settle` gives back what the actual usage left unused, and
//! `revoke` gives back the whole hold.

use vstd::prelude::*;
use crate::ids::random_uuid;
use crate::keyed::{keyed_map, unique_keys, has_key, lemma_keyed_update, lemma_keyed_push, lemma_keyed_lookup, lemma_keyed_remove, lemma_keyed_absent, lemma_keyed_domain};

verus! {

/// How much one operation may consume at most.
#[derive(Debug, Clone, Copy, PartialEq, Eq, Structural)]
pub struct BudgetRequest {
    pub max_tokens: Option<u64>,
    pub max_cost_micro: Option<u64>,
}

/// What an operation actually consumed.
#[derive(Debug, Clone, Copy, PartialEq, Eq, Structural)]
pub struct UsageReport {
    pub tokens_used: u64,
    pub cost_micro: u64,
    pub wall_time_ms: u64,
}

impl Default for UsageReport {
    fn default() -> (usage: Self)
        ensures
            usage.tokens_used == 0 && usage.cost_micro == 0 && usage.wall_time_ms == 0,
    {
        UsageReport { tokens_used: 0, cost_micro: 0, wall_time_ms: 0 }
    }
}

/// Why admission refused.
#[derive(Debug, Clone, Copy, PartialEq, Eq, Structural)]
pub enum AdmissionError {
    BudgetExceeded,
    AlreadySettled,
}

/// The part of a budget held by one reservation.
#[derive(Debug, Clone, Copy, PartialEq, Eq, Structural)]
pub struct BudgetHold {
    pub tokens: Option<u64>,
    pub cost_micro: Option<u64>,
}

/// The budget state of one principal.
#[derive(Debug, Clone)]
pub struct BudgetAccount {
    pub principal: String,
    pub tokens_remaining: Option<u64>,
    pub cost_remaining_micro: Option<u64>,
    pub reservations: Vec<(u128, BudgetHold)>,
}

/// Abstract account: remaining budgets and the live holds by reservation id.
#[verifier::ext_equal]
pub struct AccountView {
    pub tokens_remaining: Option<u64>,
    pub cost_remaining_micro: Option<u64>,
    pub reservations: Map<u128, BudgetHold>,
}

pub open spec fn sat_add(a: u64, b: u64) -> u64 {
    if a + b > u64::MAX {
        u64::MAX
    } else {
        (a + b) as u64
    }
}

pub open spec fn sat_sub(a: u64, b: u64) -> u64 {
    if a >= b {
        (a - b) as u64
    } else {
        0
    }
}

/// Whether `requested` fits into `remaining` (unlimited on either side fits).
pub open spec fn fits(requested: Option<u64>, remaining: Option<u64>) -> bool {
    match (requested, remaining) {
        (Some(r), Some(left)) => r <= left,
        _ => true,
    }
}

/// Whether both parts of `request` fit.
pub open spec fn affordable(
    tokens_remaining: Option<u64>,
    cost_remaining: Option<u64>,
    request: BudgetRequest,
) -> bool {
    fits(request.max_tokens, tokens_remaining) && fits(request.max_cost_micro, cost_remaining)
}

/// Remaining budget after holding `held`.
pub open spec fn after_hold(remaining: Option<u64>, held: Option<u64>) -> Option<u64> {
    match (held, remaining) {
        (Some(h), Some(left)) => Some(sat_sub(left, h)),
        _ => remaining,
    }
}

/// Remaining budget after a hold of `held` was settled with `used`: the
/// hold is given back and the actual usage is charged instead, so usage
/// beyond the hold is charged too (saturating at zero).
pub open spec fn after_settle(remaining: Option<u64>, held: Option<u64>, used: u64) -> Option<u64> {
    match (held, remaining) {
        (Some(h), Some(left)) => Some(sat_sub(sat_add(left, h), used)),
        _ => remaining,
    }
}

/// Remaining budget after a hold of `held` was given back.
pub open spec fn after_revoke(remaining: Option<u64>, held: Option<u64>) -> Option<u64> {
    match (held, remaining) {
        (Some(h), Some(left)) => Some(sat_add(left, h)),
        _ => remaining,
    }
}

fn hold_amount(remaining: Option<u64>, held: Option<u64>) -> (left: Option<u64>)
    ensures
        left == after_hold(remaining, held),
{
    match (held, remaining) {
        (Some(h), Some(left)) => Some(left.saturating_sub(h)),
        _ => remaining,
    }
}

fn settle_amount(remaining: Option<u64>, held: Option<u64>, used: u64) -> (left: Option<u64>)
    ensures
        left == after_settle(remaining, held, used),
{
    match (held, remaining) {
        (Some(h), Some(left)) => Some(left.saturating_add(h).saturating_sub(used)),
        _ => remaining,
    }
}

fn revoke_amount(remaining: Option<u64>, held: Option<u64>) -> (left: Option<u64>)
    ensures
        left == after_revoke(remaining, held),
{
    match (held, remaining) {
        (Some(h), Some(left)) => Some(left.saturating_add(h)),
        _ => remaining,
    }
}

pub open spec fn hold_key() -> spec_fn((u128, BudgetHold)) -> u128 {
    |e: (u128, BudgetHold)| e.0
}

pub open spec fn hold_val() -> spec_fn((u128, BudgetHold)) -> BudgetHold {
    |e: (u128, BudgetHold)| e.1
}

/// The reservations of a list of `(id, hold)` pairs, as a map.
pub open spec fn holds_map(entries: Seq<(u128, BudgetHold)>) -> Map<u128, BudgetHold> {
    keyed_map(entries, hold_key(), hold_val())
}

impl BudgetAccount {
    pub open spec fn view(&self) -> AccountView {
        AccountView {
            tokens_remaining: self.tokens_remaining,
            cost_remaining_micro: self.cost_remaining_micro,
            reservations: holds_map(self.reservations@),
        }
    }

    pub open spec fn wf(&self) -> bool {
        unique_keys(self.reservations@, hold_key())
    }

    /// A fresh account with the given limits and no reservations.
    pub fn new(principal: String, max_tokens: Option<u64>, max_cost_micro: Option<u64>) -> (account:
        Self)
        ensures
            account.wf(),
            account.principal@ == principal@,
            account.tokens_remaining == max_tokens,
            account.cost_remaining_micro == max_cost_micro,
            account.view().reservations == Map::<u128, BudgetHold>::empty(),
    {
        BudgetAccount {
            principal,
            tokens_remaining: max_tokens,
            cost_remaining_micro: max_cost_micro,
            reservations: Vec::new(),
        }
    }

    /// Whether `request` fits within the remaining budgets.
    pub fn can_afford(&self, request: &BudgetRequest) -> (ok: bool)
        ensures
            ok == affordable(self.tokens_remaining, self.cost_remaining_micro, *request),
    {
        if let Some(max_tokens) = request.max_tokens {
            if let Some(remaining) = self.tokens_remaining {
                if max_tokens > remaining {
                    return false;
                }
            }
        }
        if let Some(max_cost) = request.max_cost_micro {
            if let Some(remaining) = self.cost_remaining_micro {
                if max_cost > remaining {
                    return false;
                }
            }
        }
        true
    }

    /// Takes the requested amounts out of the remaining budgets (saturating
    /// at zero) and returns the hold.
    pub fn reserve(&mut self, request: &BudgetRequest) -> (hold: BudgetHold)
        ensures
            hold == (BudgetHold { tokens: request.max_tokens, cost_micro: request.max_cost_micro }),
            final(self).tokens_remaining == after_hold(
                old(self).tokens_remaining,
                request.max_tokens,
            ),
            final(self).cost_remaining_micro == after_hold(
                old(self).cost_remaining_micro,
                request.max_cost_micro,
            ),
            final(self).reservations == old(self).reservations,
            final(self).principal == old(self).principal,
    {
        self.tokens_remaining = hold_amount(self.tokens_remaining, request.max_tokens);
        self.cost_remaining_micro = hold_amount(self.cost_remaining_micro, request.max_cost_micro);
        BudgetHold { tokens: request.max_tokens, cost_micro: request.max_cost_micro }
    }

    /// Adjusts the account to the actual usage: gives `hold` back and
    /// charges what was used (see `after_settle`).
    pub fn settle(&mut self, hold: BudgetHold, usage: &UsageReport)
        ensures
            final(self).tokens_remaining == after_settle(
                old(self).tokens_remaining,
                hold.tokens,
                usage.tokens_used,
            ),
            final(self).cost_remaining_micro == after_settle(
                old(self).cost_remaining_micro,
                hold.cost_micro,
                usage.cost_micro,
            ),
            final(self).reservations == old(self).reservations,
            final(self).principal == old(self).principal,
    {
        self.tokens_remaining = settle_amount(self.tokens_remaining, hold.tokens, usage.tokens_used);
        self.cost_remaining_micro = settle_amount(
            self.cost_remaining_micro,
            hold.cost_micro,
            usage.cost_micro,
        );
    }

    /// Gives back the whole of `hold`.
    pub fn revoke(&mut self, hold: BudgetHold)
        ensures
            final(self).tokens_remaining == after_revoke(old(self).tokens_remaining, hold.tokens),
            final(self).cost_remaining_micro == after_revoke(
                old(self).cost_remaining_micro,
                hold.cost_micro,
            ),
            final(self).reservations == old(self).reservations,
            final(self).principal == old(self).principal,
    {
        self.tokens_remaining = revoke_amount(self.tokens_remaining, hold.tokens);
        self.cost_remaining_micro = revoke_amount(self.cost_remaining_micro, hold.cost_micro);
    }

    /// Position of reservation `id`, if live.
    fn find_reservation(&self, id: u128) -> (index: Option<usize>)
        requires
            self.wf(),
        ensures
            match index {
                Some(i) => i < self.reservations@.len() && self.reservations@[i as int].0 == id,
                None => forall|j: int|
                    0 <= j < self.reservations@.len() ==> (#[trigger] self.reservations@[j]).0
                        != id,
            },
    {
        let mut i: usize = 0;
        while i < self.reservations.len()
            invariant
                0 <= i <= self.reservations@.len(),
                forall|j: int| 0 <= j < i ==> (#[trigger] self.reservations@[j]).0 != id,
            decreases self.reservations@.len() - i,
        {
            if self.reservations[i].0 == id {
                return Some(i);
            }
            i = i + 1;
        }
        None
    }

    /// Records `hold` under `id`, replacing a live hold with the same id.
    pub fn insert_reservation(&mut self, id: u128, hold: BudgetHold)
        requires
            old(self).wf(),
        ensures
            final(self).wf(),
            final(self).view().reservations == old(self).view().reservations.insert(id, hold),
            final(self).tokens_remaining == old(self).tokens_remaining,
            final(self).cost_remaining_micro == old(self).cost_remaining_micro,
            final(self).principal == old(self).principal,
    {
        let ghost before = self.reservations@;
        match self.find_reservation(id) {
            Some(i) => {
                self.reservations.set(i, (id, hold));
                proof {
                    lemma_keyed_update(before, hold_key(), hold_val(), i as int, (id, hold));
                }
            },
            None => {
                proof {
                    assert(!has_key(before, hold_key(), id));
                    lemma_keyed_push(before, hold_key(), hold_val(), (id, hold));
                }
                self.reservations.push((id, hold));
            },
        }
    }

    /// Removes and returns the live hold of `id`, if any.
    pub fn remove_reservation(&mut self, id: u128) -> (hold: Option<BudgetHold>)
        requires
            old(self).wf(),
        ensures
            final(self).wf(),
            hold == (if old(self).view().reservations.contains_key(id) {
                Some(old(self).view().reservations[id])
            } else {
                None
            }),
            final(self).view().reservations == old(self).view().reservations.remove(id),
            final(self).tokens_remaining == old(self).tokens_remaining,
            final(self).cost_remaining_micro == old(self).cost_remaining_micro,
            final(self).principal == old(self).principal,
    {
        let ghost before = self.reservations@;
        match self.find_reservation(id) {
            Some(i) => {
                proof {
                    lemma_keyed_lookup(before, hold_key(), hold_val(), i as int);
                    lemma_keyed_remove(before, hold_key(), hold_val(), i as int);
                }
                let (_, hold) = self.reservations.remove(i);
                Some(hold)
            },
            None => {
                proof {
                    assert(!has_key(before, hold_key(), id));
                    lemma_keyed_absent(before, hold_key(), hold_val(), id);
                    assert(old(self).view().reservations.remove(id) =~= old(
                        self,
                    ).view().reservations);
                }
                None
            },
        }
    }
}

pub open spec fn account_key() -> spec_fn(BudgetAccount) -> Seq<char> {
    |a: BudgetAccount| a.principal@
}

pub open spec fn account_val() -> spec_fn(BudgetAccount) -> AccountView {
    |a: BudgetAccount| a.view()
}

/// The account a principal gets on first use: unlimited, nothing reserved.
pub open spec fn unlimited_account() -> AccountView {
    AccountView {
        tokens_remaining: None,
        cost_remaining_micro: None,
        reservations: Map::empty(),
    }
}

/// The account of `principal` in `accounts`, or the unlimited one.
pub open spec fn account_or_unlimited(
    accounts: Map<Seq<char>, AccountView>,
    principal: Seq<char>,
) -> AccountView {
    if accounts.contains_key(principal) {
        accounts[principal]
    } else {
        unlimited_account()
    }
}

/// An account after `request` was held under reservation `id`.
pub open spec fn reserved_account(account: AccountView, request: BudgetRequest, id: u128) -> AccountView {
    AccountView {
        tokens_remaining: after_hold(account.tokens_remaining, request.max_tokens),
        cost_remaining_micro: after_hold(account.cost_remaining_micro, request.max_cost_micro),
        reservations: account.reservations.insert(
            id,
            BudgetHold { tokens: request.max_tokens, cost_micro: request.max_cost_micro },
        ),
    }
}

/// An account after reservation `id` was settled with `usage` (unchanged
/// when the reservation is not live).
pub open spec fn settled_account(account: AccountView, id: u128, usage: UsageReport) -> AccountView {
    if account.reservations.contains_key(id) {
        let hold = account.reservations[id];
        AccountView {
            tokens_remaining: after_settle(account.tokens_remaining, hold.tokens, usage.tokens_used),
            cost_remaining_micro: after_settle(
                account.cost_remaining_micro,
                hold.cost_micro,
                usage.cost_micro,
            ),
            reservations: account.reservations.remove(id),
        }
    } else {
        account
    }
}

/// An account after reservation `id` was revoked (unchanged when the
/// reservation is not live).
pub open spec fn revoked_account(account: AccountView, id: u128) -> AccountView {
    if account.reservations.contains_key(id) {
        let hold = account.reservations[id];
        AccountView {
            tokens_remaining: after_revoke(account.tokens_remaining, hold.tokens),
            cost_remaining_micro: after_revoke(account.cost_remaining_micro, hold.cost_micro),
            reservations: account.reservations.remove(id),
        }
    } else {
        account
    }
}

/// Budget controller keyed by principal. A principal without a configured
/// budget is unlimited and always admitted.
#[derive(Debug)]
pub struct InMemoryBudgetController {
    accounts: Vec<BudgetAccount>,
}

impl View for InMemoryBudgetController {
    type V = Map<Seq<char>, AccountView>;

    closed spec fn view(&self) -> Map<Seq<char>, AccountView> {
        keyed_map(self.accounts@, account_key(), account_val())
    }
}

impl InMemoryBudgetController {
    pub closed spec fn wf(&self) -> bool {
        &&& unique_keys(self.accounts@, account_key())
        &&& forall|i: int| 0 <= i < self.accounts@.len() ==> (#[trigger] self.accounts@[i]).wf()
    }

    /// An empty controller: every principal is unlimited.
    pub fn new() -> (controller: Self)
        ensures
            controller.wf(),
            controller@ == Map::<Seq<char>, AccountView>::empty(),
    {
        InMemoryBudgetController { accounts: Vec::new() }
    }

    fn find_account(&self, principal: &String) -> (index: Option<usize>)
        requires
            self.wf(),
        ensures
            match index {
                Some(i) => i < self.accounts@.len() && self.accounts@[i as int].principal@
                    == principal@,
                None => !has_key(self.accounts@, account_key(), principal@),
            },
    {
        let mut i: usize = 0;
        while i < self.accounts.len()
            invariant
                0 <= i <= self.accounts@.len(),
                forall|j: int|
                    0 <= j < i ==> (#[trigger] self.accounts@[j]).principal@ != principal@,
            decreases self.accounts@.len() - i,
        {
            if self.accounts[i].principal == *principal {
                return Some(i);
            }
            i = i + 1;
        }
        proof {
            if has_key(self.accounts@, account_key(), principal@) {
                let j = choose|j: int|
                    0 <= j < self.accounts@.len() && #[trigger] account_key()(self.accounts@[j])
                        == principal@;
                assert(self.accounts@[j].principal@ != principal@);
            }
        }
        None
    }

    /// Replaces the account at `i` by `account`, which keeps its principal.
    fn replace_account(&mut self, i: usize, account: BudgetAccount)
        requires
            old(self).wf(),
            i < old(self).accounts@.len(),
            account.wf(),
            account.principal@ == old(self).accounts@[i as int].principal@,
        ensures
            final(self).wf(),
            final(self)@ == old(self)@.insert(account.principal@, account.view()),
    {
        let ghost before = self.accounts@;
        self.accounts.set(i, account);
        proof {
            lemma_keyed_update(before, account_key(), account_val(), i as int, account);
        }
    }

    /// Adds `account` for a principal that has none.
    fn add_account(&mut self, account: BudgetAccount)
        requires
            old(self).wf(),
            account.wf(),
            !has_key(old(self).accounts@, account_key(), account.principal@),
        ensures
            final(self).wf(),
            final(self)@ == old(self)@.insert(account.principal@, account.view()),
    {
        let ghost before = self.accounts@;
        proof {
            lemma_keyed_push(before, account_key(), account_val(), account);
        }
        self.accounts.push(account);
    }

    /// Removes and returns the account at `i`.
    fn take_account(&mut self, i: usize) -> (account: BudgetAccount)
        requires
            old(self).wf(),
            i < old(self).accounts@.len(),
        ensures
            account == old(self).accounts@[i as int],
            account.wf(),
            old(self)@.contains_key(account.principal@),
            old(self)@[account.principal@] == account.view(),
            final(self).wf(),
            final(self)@ == old(self)@.remove(account.principal@),
            !has_key(final(self).accounts@, account_key(), account.principal@),
    {
        let ghost before = self.accounts@;
        proof {
            lemma_keyed_lookup(before, account_key(), account_val(), i as int);
            lemma_keyed_remove(before, account_key(), account_val(), i as int);
        }
        let account = self.accounts.remove(i);
        proof {
            lemma_keyed_domain(self.accounts@, account_key(), account_val());
            assert(!keyed_map(self.accounts@, account_key(), account_val()).contains_key(
                account.principal@,
            ));
            assert forall|j: int| 0 <= j < self.accounts@.len() implies (#[trigger] self.accounts@[
                j
            ]).wf() by {
                let j2 = if j < i {
                    j
                } else {
                    j + 1
                };
                assert(self.accounts@[j] == before[j2]);
            }
        }
        account
    }

    /// Sets the budget of `principal`, forgetting its previous account and
    /// reservations. `None` means unlimited.
    pub fn set_budget(&mut self, principal: &str, max_tokens: Option<u64>, max_cost_micro: Option<u64>)
        requires
            old(self).wf(),
        ensures
            final(self).wf(),
            final(self)@ == old(self)@.insert(
                principal@,
                AccountView {
                    tokens_remaining: max_tokens,
                    cost_remaining_micro: max_cost_micro,
                    reservations: Map::empty(),
                },
            ),
    {
        let name = principal.to_owned();
        let account = BudgetAccount::new(principal.to_owned(), max_tokens, max_cost_micro);
        match self.find_account(&name) {
            Some(i) => self.replace_account(i, account),
            None => self.add_account(account),
        }
        proof {
            assert(account.view().reservations =~= Map::<u128, BudgetHold>::empty());
        }
    }

    /// The account of `principal`, created unlimited when missing, taken
    /// out of the table.
    fn take_or_create(&mut self, principal: &str) -> (account: BudgetAccount)
        requires
            old(self).wf(),
        ensures
            account.wf(),
            account.principal@ == principal@,
            account.view() == account_or_unlimited(old(self)@, principal@),
            final(self).wf(),
            final(self)@ == old(self)@.remove(principal@),
            !has_key(final(self).accounts@, account_key(), principal@),
    {
        let name = principal.to_owned();
        match self.find_account(&name) {
            Some(i) => self.take_account(i),
            None => {
                proof {
                    lemma_keyed_absent(self.accounts@, account_key(), account_val(), principal@);
                    assert(old(self)@.remove(principal@) =~= old(self)@);
                }
                let account = BudgetAccount::new(name, None, None);
                proof {
                    assert(account.view().reservations =~= Map::<u128, BudgetHold>::empty());
                }
                account
            },
        }
    }

    /// Reserves `request` for `principal` under the reservation id `id`:
    /// refused when it does not fit the principal's remaining budget. A
    /// principal seen for the first time gets an unlimited account, also
    /// when the request is refused.
    pub fn reserve_with_id(&mut self, principal: &str, request: &BudgetRequest, id: u128) -> (outcome:
        Result<u128, AdmissionError>)
        requires
            old(self).wf(),
        ensures
            final(self).wf(),
            ({
                let account = account_or_unlimited(old(self)@, principal@);
                if affordable(account.tokens_remaining, account.cost_remaining_micro, *request) {
                    outcome == Ok::<u128, AdmissionError>(id) && final(self)@ == old(self)@.insert(
                        principal@,
                        reserved_account(account, *request, id),
                    )
                } else {
                    outcome == Err::<u128, AdmissionError>(AdmissionError::BudgetExceeded)
                        && final(self)@ == old(self)@.insert(principal@, account)
                }
            }),
    {
        let mut account = self.take_or_create(principal);
        let ghost removed = self@;
        if !account.can_afford(request) {
            proof {
                assert(removed.insert(principal@, account.view()) =~= old(self)@.insert(
                    principal@,
                    account.view(),
                ));
            }
            self.add_account(account);
            return Err(AdmissionError::BudgetExceeded);
        }
        let ghost before = account.view();
        let hold = account.reserve(request);
        account.insert_reservation(id, hold);
        proof {
            assert(account.view().reservations == before.reservations.insert(id, hold));
            assert(removed.insert(principal@, account.view()) =~= old(self)@.insert(
                principal@,
                account.view(),
            ));
        }
        self.add_account(account);
        Ok(id)
    }

    /// Reserves `request` for `principal` under a fresh random reservation
    /// id; see `reserve_with_id`.
    pub fn reserve(&mut self, principal: &str, request: &BudgetRequest) -> (outcome: Result<
        u128,
        AdmissionError,
    >)
        requires
            old(self).wf(),
        ensures
            final(self).wf(),
            ({
                let account = account_or_unlimited(old(self)@, principal@);
                if affordable(account.tokens_remaining, account.cost_remaining_micro, *request) {
                    outcome matches Ok(id) && id != 0 && final(self)@ == old(self)@.insert(
                        principal@,
                        reserved_account(account, *request, id),
                    )
                } else {
                    outcome == Err::<u128, AdmissionError>(AdmissionError::BudgetExceeded)
                        && final(self)@ == old(self)@.insert(principal@, account)
                }
            }),
    {
        let id = random_uuid();
        self.reserve_with_id(principal, request, id)
    }

    /// Settles reservation `reservation` of `principal` with the actual
    /// usage; nothing happens for an unknown principal or reservation.
    pub fn settle(&mut self, principal: &str, reservation: u128, usage: &UsageReport)
        requires
            old(self).wf(),
        ensures
            final(self).wf(),
            old(self)@.contains_key(principal@) ==> final(self)@ == old(self)@.insert(
                principal@,
                settled_account(old(self)@[principal@], reservation, *usage),
            ),
            !old(self)@.contains_key(principal@) ==> final(self)@ == old(self)@,
    {
        let name = principal.to_owned();
        match self.find_account(&name) {
            Some(i) => {
                let mut account = self.take_account(i);
                let ghost removed = self@;
                let ghost original = account.view();
                match account.remove_reservation(reservation) {
                    Some(hold) => account.settle(hold, usage),
                    None => {
                        proof {
                            assert(original.reservations.remove(reservation)
                                =~= original.reservations);
                        }
                    },
                }
                proof {
                    assert(removed.insert(principal@, account.view()) =~= old(self)@.insert(
                        principal@,
                        account.view(),
                    ));
                }
                self.add_account(account);
                proof {
                    assert(account.view() =~= settled_account(
                        old(self)@[principal@],
                        reservation,
                        *usage,
                    ));
                }
            },
            None => {
                proof {
                    lemma_keyed_absent(self.accounts@, account_key(), account_val(), principal@);
                }
            },
        }
    }

    /// Revokes reservation `reservation` of `principal`, giving the whole
    /// hold back; nothing happens for an unknown principal or reservation.
    pub fn revoke(&mut self, principal: &str, reservation: u128)
        requires
            old(self).wf(),
        ensures
            final(self).wf(),
            old(self)@.contains_key(principal@) ==> final(self)@ == old(self)@.insert(
                principal@,
                revoked_account(old(self)@[principal@], reservation),
            ),
            !old(self)@.contains_key(principal@) ==> final(self)@ == old(self)@,
    {
        let name = principal.to_owned();
        match self.find_account(&name) {
            Some(i) => {
                let mut account = self.take_account(i);
                let ghost removed = self@;
                let ghost original = account.view();
                match account.remove_reservation(reservation) {
                    Some(hold) => account.revoke(hold),
                    None => {
                        proof {
                            assert(original.reservations.remove(reservation)
                                =~= original.reservations);
                        }
                    },
                }
                proof {
                    assert(removed.insert(principal@, account.view()) =~= old(self)@.insert(
                        principal@,
                        account.view(),
                    ));
                }
                self.add_account(account);
                proof {
                    assert(account.view() =~= revoked_account(old(self)@[principal@], reservation));
                }
            },
            None => {
                proof {
                    lemma_keyed_absent(self.accounts@, account_key(), account_val(), principal@);
                }
            },
        }
    }

    /// The remaining token budget of `principal` (`None` for a principal
    /// without account; `Some(None)` for an unlimited one).
    pub fn remaining_tokens(&self, principal: &str) -> (remaining: Option<Option<u64>>)
        requires
            self.wf(),
        ensures
            remaining == (if self@.contains_key(principal@) {
                Some(self@[principal@].tokens_remaining)
            } else {
                None
            }),
    {
        let name = principal.to_owned();
        match self.find_account(&name) {
            Some(i) => {
                proof {
                    lemma_keyed_lookup(self.accounts@, account_key(), account_val(), i as int);
                }
                Some(self.accounts[i].tokens_remaining)
            },
            None => {
                proof {
                    lemma_keyed_absent(self.accounts@, account_key(), account_val(), principal@);
                }
                None
            },
        }
    }

    /// The remaining cost budget (micro-dollars) of `principal`.
    pub fn remaining_cost(&self, principal: &str) -> (remaining: Option<Option<u64>>)
        requires
            self.wf(),
        ensures
            remaining == (if self@.contains_key(principal@) {
                Some(self@[principal@].cost_remaining_micro)
            } else {
                None
            }),
    {
        let name = principal.to_owned();
        match self.find_account(&name) {
            Some(i) => {
                proof {
                    lemma_keyed_lookup(self.accounts@, account_key(), account_val(), i as int);
                }
                Some(self.accounts[i].cost_remaining_micro)
            },
            None => {
                proof {
                    lemma_keyed_absent(self.accounts@, account_key(), account_val(), principal@);
                }
                None
            },
        }
    }
}

/// Revoking a reservation right after making it gives the budget back
/// exactly as it was (the request fitted, and the id was not live).
pub proof fn law_revoke_undoes_reserve(account: AccountView, request: BudgetRequest, id: u128)
    requires
        affordable(account.tokens_remaining, account.cost_remaining_micro, request),
        !account.reservations.contains_key(id),
    ensures
        revoked_account(reserved_account(account, request, id), id) == account,
{
    let after = revoked_account(reserved_account(account, request, id), id);
    assert(after.reservations =~= account.reservations);
}

/// Settling a reservation adjusts the account to the actual usage: a
/// limited budget ends up lowered by what was used, whether that is less or
/// more than was held, and at zero when the usage exceeds it.
pub proof fn law_settle_charges_usage(
    account: AccountView,
    request: BudgetRequest,
    id: u128,
    usage: UsageReport,
)
    requires
        affordable(account.tokens_remaining, account.cost_remaining_micro, request),
        !account.reservations.contains_key(id),
    ensures
        ({
            let after = settled_account(reserved_account(account, request, id), id, usage);
            &&& after.reservations == account.reservations
            &&& match (account.tokens_remaining, request.max_tokens) {
                (Some(left), Some(_)) => after.tokens_remaining == Some(sat_sub(left, usage.tokens_used)),
                _ => after.tokens_remaining == account.tokens_remaining,
            }
            &&& match (account.cost_remaining_micro, request.max_cost_micro) {
                (Some(left), Some(_)) => after.cost_remaining_micro == Some(
                    sat_sub(left, usage.cost_micro),
                ),
                _ => after.cost_remaining_micro == account.cost_remaining_micro,
            }
        }),
{
    let after = settled_account(reserved_account(account, request, id), id, usage);
    assert(after.reservations =~= account.reservations);
}

/// A reservation is settled or revoked at most once: after either, settling
/// or revoking it again changes nothing.
pub proof fn law_close_is_once(account: AccountView, id: u128, usage: UsageReport, again: UsageReport)
    ensures
        settled_account(settled_account(account, id, usage), id, again) == settled_account(
            account,
            id,
            usage,
        ),
        revoked_account(settled_account(account, id, usage), id) == settled_account(
            account,
            id,
            usage,
        ),
        settled_account(revoked_account(account, id), id, again) == revoked_account(account, id),
        revoked_account(revoked_account(account, id), id) == revoked_account(account, id),
{
}

/// A principal without a configured budget is unlimited: every request
/// fits it.
pub proof fn law_unlimited_always_affordable(request: BudgetRequest)
    ensures
        affordable(None, None, request),
{
}

} // verus!
