//! What the engine works on: the balances, the events recorded so far, and
//! the logical time that the next event will carry.

use crate::account::AccountId;
use crate::event::Event;
use crate::store::BalanceStore;
use vstd::prelude::*;

verus! {

/// The state that every engine call is handed. The engine keeps nothing of
/// its own between calls: all of it lives here, so two ledgers never
/// influence one another.
#[derive(Debug, PartialEq, Eq)]
pub struct Ledger {
    /// Which account holds how much.
    pub balances: BalanceStore,
    /// The events of the operations completed so far, oldest first. Whoever
    /// owns the ledger decides where they are delivered.
    pub events: Vec<Event>,
    /// The logical time, as the outside clock last gave it.
    pub timestamp: u64,
}

impl Clone for Ledger {
    /// A second ledger in the same state.
    fn clone(&self) -> (copy: Ledger)
        ensures
            copy.balances.wf(),
            copy.balances@ == self.balances@,
            copy.total_supply() == self.total_supply(),
            copy.events@ == self.events@,
            copy.timestamp == self.timestamp,
    {
        let mut events: Vec<Event> = Vec::new();
        let mut i: usize = 0;
        while i < self.events.len()
            invariant
                i <= self.events@.len(),
                events@ == self.events@.take(i as int),
            decreases self.events@.len() - i,
        {
            events.push(self.events[i]);
            proof {
                assert(events@ =~= self.events@.take(i + 1));
            }
            i += 1;
        }
        proof {
            assert(events@ =~= self.events@);
        }
        Ledger { balances: self.balances.clone(), events, timestamp: self.timestamp }
    }
}

impl Ledger {
    /// The units that `account` holds in this ledger.
    pub open spec fn balance_of(self, account: AccountId) -> int {
        self.balances.balance_of(account)
    }

    /// All units in circulation in this ledger.
    pub open spec fn total_supply(self) -> int {
        self.balances.total_supply()
    }

    /// A ledger without balances or events, at the given logical time.
    pub fn new(timestamp: u64) -> (ledger: Ledger)
        ensures
            ledger.balances.wf(),
            ledger.balances@ == Map::<AccountId, int>::empty(),
            ledger.balances.total_supply() == 0,
            ledger.events@ == Seq::<Event>::empty(),
            ledger.timestamp == timestamp,
    {
        Ledger { balances: BalanceStore::new(), events: Vec::new(), timestamp }
    }
}

} // verus!
