//! The balance store: which account holds how much.

use crate::account::AccountId;
use crate::model::balance_in;
use vstd::prelude::*;

verus! {

/// Some entry of `entries` is for `account`.
spec fn holds(entries: Seq<(AccountId, i128)>, account: AccountId) -> bool {
    exists|i: int| 0 <= i < entries.len() && (#[trigger] entries[i]).0 == account
}

/// A position at which `entries` has `account`, where it has one.
spec fn position(entries: Seq<(AccountId, i128)>, account: AccountId) -> int {
    choose|i: int| 0 <= i < entries.len() && (#[trigger] entries[i]).0 == account
}

/// No account has two entries.
spec fn distinct(entries: Seq<(AccountId, i128)>) -> bool {
    forall|i: int, j: int|
        0 <= i < entries.len() && 0 <= j < entries.len() && i != j ==> (#[trigger] entries[i]).0
            != (#[trigger] entries[j]).0
}

/// No entry is negative.
spec fn non_negative(entries: Seq<(AccountId, i128)>) -> bool {
    forall|i: int| 0 <= i < entries.len() ==> (#[trigger] entries[i]).1 >= 0
}

/// The sum of all entries.
spec fn sum_of(entries: Seq<(AccountId, i128)>) -> int
    decreases entries.len(),
{
    if entries.len() == 0 {
        0
    } else {
        sum_of(entries.drop_last()) + entries.last().1
    }
}

/// The entries read as a map.
spec fn as_map(entries: Seq<(AccountId, i128)>) -> Map<AccountId, int> {
    Map::new(
        |account: AccountId| holds(entries, account),
        |account: AccountId| entries[position(entries, account)].1 as int,
    )
}

proof fn lemma_as_map_at(entries: Seq<(AccountId, i128)>, i: int)
    requires
        distinct(entries),
        0 <= i < entries.len(),
    ensures
        as_map(entries).dom().contains(entries[i].0),
        as_map(entries)[entries[i].0] == entries[i].1,
{
    assert(holds(entries, entries[i].0));
}

proof fn lemma_as_map_push(entries: Seq<(AccountId, i128)>, entry: (AccountId, i128))
    requires
        distinct(entries),
        !holds(entries, entry.0),
    ensures
        distinct(entries.push(entry)),
        as_map(entries.push(entry)) == as_map(entries).insert(entry.0, entry.1 as int),
{
    let after = entries.push(entry);
    assert(distinct(after)) by {
        assert forall|i: int, j: int|
            0 <= i < after.len() && 0 <= j < after.len() && i != j implies (#[trigger] after[i]).0
            != (#[trigger] after[j]).0 by {
            if i < entries.len() && j < entries.len() {
                assert(entries[i].0 != entries[j].0);
            } else if i < entries.len() {
                assert(entries[i].0 != entry.0);
            } else {
                assert(entries[j].0 != entry.0);
            }
        }
    }
    let want = as_map(entries).insert(entry.0, entry.1 as int);
    assert forall|a: AccountId| as_map(after).dom().contains(a) <==> want.dom().contains(a) by {
        if holds(after, a) {
            let i = position(after, a);
            if i < entries.len() {
                assert(entries[i].0 == a);
            }
        }
        if holds(entries, a) {
            let i = position(entries, a);
            assert(after[i].0 == a);
        }
        if a == entry.0 {
            assert(after[entries.len() as int].0 == a);
        }
    }
    assert forall|a: AccountId| as_map(after).dom().contains(a) implies as_map(after)[a]
        == want[a] by {
        let i = position(after, a);
        lemma_as_map_at(after, i);
        if i < entries.len() {
            assert(entries[i].0 == a);
            lemma_as_map_at(entries, i);
        }
    }
    assert(as_map(after) =~= want);
}

proof fn lemma_as_map_update(entries: Seq<(AccountId, i128)>, i: int, value: i128)
    requires
        distinct(entries),
        0 <= i < entries.len(),
    ensures
        distinct(entries.update(i, (entries[i].0, value))),
        as_map(entries.update(i, (entries[i].0, value))) == as_map(entries).insert(
            entries[i].0,
            value as int,
        ),
{
    let after = entries.update(i, (entries[i].0, value));
    assert(distinct(after)) by {
        assert forall|j: int, k: int|
            0 <= j < after.len() && 0 <= k < after.len() && j != k implies (#[trigger] after[j]).0
            != (#[trigger] after[k]).0 by {
            assert(entries[j].0 != entries[k].0);
        }
    }
    let want = as_map(entries).insert(entries[i].0, value as int);
    assert forall|a: AccountId| as_map(after).dom().contains(a) <==> want.dom().contains(a) by {
        if holds(after, a) {
            let j = position(after, a);
            assert(entries[j].0 == a);
        }
        if holds(entries, a) {
            let j = position(entries, a);
            assert(after[j].0 == a);
        }
        if a == entries[i].0 {
            assert(after[i].0 == a);
        }
    }
    assert forall|a: AccountId| as_map(after).dom().contains(a) implies as_map(after)[a]
        == want[a] by {
        let j = position(after, a);
        lemma_as_map_at(after, j);
        if j != i {
            assert(entries[j].0 == a);
            lemma_as_map_at(entries, j);
        }
    }
    assert(as_map(after) =~= want);
}

proof fn lemma_sum_update(entries: Seq<(AccountId, i128)>, i: int, entry: (AccountId, i128))
    requires
        0 <= i < entries.len(),
    ensures
        sum_of(entries.update(i, entry)) == sum_of(entries) - entries[i].1 + entry.1,
    decreases entries.len(),
{
    let after = entries.update(i, entry);
    if i == entries.len() - 1 {
        assert(after.drop_last() =~= entries.drop_last());
    } else {
        assert(after.drop_last() =~= entries.drop_last().update(i, entry));
        lemma_sum_update(entries.drop_last(), i, entry);
    }
}

proof fn lemma_sum_push(entries: Seq<(AccountId, i128)>, entry: (AccountId, i128))
    ensures
        sum_of(entries.push(entry)) == sum_of(entries) + entry.1,
{
    assert(entries.push(entry).drop_last() =~= entries);
}

proof fn lemma_sum_bounds(entries: Seq<(AccountId, i128)>, i: int)
    requires
        non_negative(entries),
        0 <= i < entries.len(),
    ensures
        0 <= entries[i].1 <= sum_of(entries),
    decreases entries.len(),
{
    lemma_sum_non_negative(entries.drop_last());
    if i < entries.len() - 1 {
        lemma_sum_bounds(entries.drop_last(), i);
    }
}

proof fn lemma_sum_non_negative(entries: Seq<(AccountId, i128)>)
    requires
        non_negative(entries),
    ensures
        0 <= sum_of(entries),
    decreases entries.len(),
{
    if entries.len() > 0 {
        lemma_sum_non_negative(entries.drop_last());
    }
}

proof fn lemma_sum_prefix(entries: Seq<(AccountId, i128)>, n: int)
    requires
        non_negative(entries),
        0 <= n <= entries.len(),
    ensures
        0 <= sum_of(entries.take(n)) <= sum_of(entries),
    decreases entries.len(),
{
    if n == entries.len() {
        assert(entries.take(n) =~= entries);
        lemma_sum_non_negative(entries);
    } else {
        assert(entries.drop_last().take(n) =~= entries.take(n));
        lemma_sum_prefix(entries.drop_last(), n);
    }
}

proof fn lemma_non_negative_kept(
    before: Seq<(AccountId, i128)>,
    after: Seq<(AccountId, i128)>,
    account: AccountId,
    value: i128,
)
    requires
        non_negative(before),
        value >= 0,
        after == before.push((account, value)) || exists|i: int|
            0 <= i < before.len() && after == before.update(i, (account, value)),
    ensures
        non_negative(after),
{
    assert forall|j: int| 0 <= j < after.len() implies (#[trigger] after[j]).1 >= 0 by {
        if j < before.len() {
            assert(before[j].1 >= 0);
        }
    }
}

/// The balance store: for each account that was ever written, the units it
/// holds. An account that was never written holds zero.
///
/// Every store is sound at all times: no account holds a negative balance,
/// and the units in circulation, taken together, fit in an `i128`.
#[derive(Debug, PartialEq, Eq)]
pub struct BalanceStore {
    entries: Vec<(AccountId, i128)>,
}

impl View for BalanceStore {
    type V = Map<AccountId, int>;

    /// The accounts that were written, each with its balance.
    closed spec fn view(&self) -> Map<AccountId, int> {
        as_map(self.entries@)
    }
}

impl Clone for BalanceStore {
    /// A second store with the same balances.
    fn clone(&self) -> (copy: BalanceStore)
        ensures
            copy.wf(),
            copy@ == self@,
            copy.total_supply() == self.total_supply(),
    {
        proof {
            use_type_invariant(self);
        }
        let mut entries: Vec<(AccountId, i128)> = Vec::new();
        let mut i: usize = 0;
        while i < self.entries.len()
            invariant
                i <= self.entries@.len(),
                entries@ == self.entries@.take(i as int),
            decreases self.entries@.len() - i,
        {
            entries.push(self.entries[i]);
            proof {
                assert(entries@ =~= self.entries@.take(i + 1));
            }
            i += 1;
        }
        proof {
            assert(entries@ =~= self.entries@);
        }
        BalanceStore { entries }
    }
}

impl BalanceStore {
    /// What makes a store sound. Executable code cannot build or leave
    /// behind a store of which this does not hold.
    #[verifier::type_invariant]
    pub closed spec fn wf(self) -> bool {
        &&& distinct(self.entries@)
        &&& non_negative(self.entries@)
        &&& sum_of(self.entries@) <= i128::MAX
    }

    /// The units that `account` holds.
    pub open spec fn balance_of(self, account: AccountId) -> int {
        balance_in(self@, account)
    }

    /// All units in circulation: the sum of all balances.
    pub closed spec fn total_supply(self) -> int {
        sum_of(self.entries@)
    }

    /// In a sound store every balance lies between zero and the total
    /// supply, and the total supply fits in an `i128`.
    pub proof fn lemma_bounds(self, account: AccountId)
        requires
            self.wf(),
        ensures
            0 <= self.balance_of(account) <= self.total_supply() <= i128::MAX,
    {
        lemma_sum_non_negative(self.entries@);
        if holds(self.entries@, account) {
            let i = position(self.entries@, account);
            lemma_as_map_at(self.entries@, i);
            lemma_sum_bounds(self.entries@, i);
        }
    }

    /// A store in which no account was written yet.
    pub fn new() -> (store: BalanceStore)
        ensures
            store.wf(),
            store@ == Map::<AccountId, int>::empty(),
            store.total_supply() == 0,
    {
        let store = BalanceStore { entries: Vec::new() };
        proof {
            assert(store@ =~= Map::<AccountId, int>::empty());
        }
        store
    }

    /// Where `account` has its entry, if it has one.
    fn find(&self, account: &AccountId) -> (found: Option<usize>)
        ensures
            match found {
                Some(i) => i < self.entries@.len() && self.entries@[i as int].0 == *account,
                None => !holds(self.entries@, *account),
            },
    {
        let mut i: usize = 0;
        while i < self.entries.len()
            invariant
                i <= self.entries@.len(),
                forall|j: int| 0 <= j < i ==> (#[trigger] self.entries@[j]).0 != *account,
            decreases self.entries@.len() - i,
        {
            if self.entries[i].0 == *account {
                return Some(i);
            }
            i += 1;
        }
        None
    }

    /// Reads the balance of `account`: what was last written for it, or
    /// zero if nothing ever was. Never fails, and never changes the store.
    pub fn get_balance(&self, account: &AccountId) -> (balance: i128)
        ensures
            balance == self.balance_of(*account),
            !self@.dom().contains(*account) ==> balance == 0,
            0 <= balance <= self.total_supply() <= i128::MAX,
    {
        proof {
            use_type_invariant(self);
            self.lemma_bounds(*account);
        }
        match self.find(account) {
            Some(i) => {
                proof {
                    lemma_as_map_at(self.entries@, i as int);
                }
                self.entries[i].1
            },
            None => 0,
        }
    }

    /// Computes all units in circulation.
    pub fn supply(&self) -> (total: i128)
        ensures
            total == self.total_supply(),
            0 <= total,
    {
        proof {
            use_type_invariant(self);
        }
        let mut total: i128 = 0;
        let mut i: usize = 0;
        while i < self.entries.len()
            invariant
                i <= self.entries@.len(),
                non_negative(self.entries@),
                sum_of(self.entries@) <= i128::MAX,
                total == sum_of(self.entries@.take(i as int)),
                0 <= total,
            decreases self.entries@.len() - i,
        {
            proof {
                lemma_sum_prefix(self.entries@, i + 1);
                assert(self.entries@.take(i + 1).drop_last() =~= self.entries@.take(i as int));
            }
            total = total + self.entries[i].1;
            i += 1;
        }
        proof {
            assert(self.entries@.take(i as int) =~= self.entries@);
        }
        total
    }

    /// Whether `set_balance` may be called with this account and value:
    /// the value is not negative, and with it in place of the account's
    /// present balance the total supply still fits in an `i128`.
    pub open spec fn admits(self, account: AccountId, value: i128) -> bool {
        &&& value >= 0
        &&& self.total_supply() - self.balance_of(account) + value <= i128::MAX
    }

    /// Tests whether the store admits `value` as the balance of `account`.
    pub fn accepts(&self, account: &AccountId, value: i128) -> (ok: bool)
        ensures
            ok == self.admits(*account, value),
    {
        if value < 0 {
            return false;
        }
        let rest: i128 = self.supply() - self.get_balance(account);
        value <= i128::MAX - rest
    }

    /// Overwrites the balance of `account` with `value`. No other account
    /// changes.
    pub fn set_balance(&mut self, account: &AccountId, value: i128)
        requires
            old(self).admits(*account, value),
        ensures
            final(self).wf(),
            final(self)@ == old(self)@.insert(*account, value as int),
            final(self).total_supply() == old(self).total_supply() - old(self).balance_of(*account)
                + value,
    {
        proof {
            use_type_invariant(&*self);
        }
        let found = self.find(account);
        let mut entries: Vec<(AccountId, i128)> = Vec::new();
        std::mem::swap(&mut self.entries, &mut entries);
        match found {
            Some(i) => {
                proof {
                    lemma_as_map_at(entries@, i as int);
                    lemma_as_map_update(entries@, i as int, value);
                    lemma_sum_update(entries@, i as int, (*account, value));
                }
                entries.set(i, (*account, value));
            },
            None => {
                proof {
                    lemma_as_map_push(entries@, (*account, value));
                    lemma_sum_push(entries@, (*account, value));
                }
                entries.push((*account, value));
            },
        }
        proof {
            lemma_non_negative_kept(old(self).entries@, entries@, *account, value);
        }
        std::mem::swap(&mut self.entries, &mut entries);
    }
}

} // verus!
