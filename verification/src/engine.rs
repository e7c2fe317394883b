//! The transfer engine: the rules by which units move between accounts.

use crate::account::AccountId;
use crate::error::Error;
use crate::event::Event;
use crate::ledger::Ledger;
use crate::laws::lemma_batch_pays_every_share;
use crate::model::{
    all_positive, apply_credits, balance_in, batch_refusal, batch_result, credited_to, debit,
    lemma_credits_debit_commute, lemma_total_of_prefix, total_amount, transfer_refusal,
    transfer_result, MAX_BATCH_SIZE,
};
use vstd::prelude::*;

verus! {

/// The engine itself. It holds nothing: every call is handed the ledger it
/// is to work on.
#[derive(Copy, Clone, Debug, PartialEq, Eq)]
pub struct TransferEngine;

impl TransferEngine {
    /// Whether `caller`, whose identity was established outside, may move
    /// units out of `source`: only the account itself may.
    pub fn is_authorized(caller: &AccountId, source: &AccountId) -> (ok: bool)
        ensures
            ok == (*caller == *source),
    {
        *caller == *source
    }

    /// Reads the balance of `address`. Anyone may; it never fails and
    /// changes nothing.
    pub fn get_balance(ledger: &Ledger, address: &AccountId) -> (balance: i128)
        ensures
            balance == ledger.balance_of(*address),
            !ledger.balances@.dom().contains(*address) ==> balance == 0,
            balance >= 0,
    {
        ledger.balances.get_balance(address)
    }

    /// Overwrites the balance of `address` with `aru_units`.
    pub fn set_balance(ledger: &mut Ledger, address: &AccountId, aru_units: i128)
        requires
            old(ledger).balances.admits(*address, aru_units),
        ensures
            final(ledger).balances.wf(),
            final(ledger).balances@ == old(ledger).balances@.insert(*address, aru_units as int),
            final(ledger).total_supply() == old(ledger).total_supply() - old(ledger).balance_of(
                *address,
            ) + aru_units,
            final(ledger).events == old(ledger).events,
            final(ledger).timestamp == old(ledger).timestamp,
    {
        ledger.balances.set_balance(address, aru_units);
    }

    /// Moves `aru_units` from `from` to `to` on behalf of `caller`.
    ///
    /// The transfer is turned down, with the ledger left exactly as it was,
    /// for the first of these that holds: the caller is not `from`
    /// (`Unauthorized`); the amount is not positive (`InvalidAmount`);
    /// `from` holds less than the amount (`InsufficientFunds`). Otherwise
    /// the amount leaves `from`, arrives at `to`, and one `Transfer` event
    /// with the ledger's time is recorded. Where `from` and `to` are the
    /// same account its balance stays as it was.
    pub fn transfer(
        ledger: &mut Ledger,
        caller: &AccountId,
        from: &AccountId,
        to: &AccountId,
        aru_units: i128,
    ) -> (result: Result<(), Error>)
        ensures
            match result {
                Ok(_) => {
                    &&& transfer_refusal(
                        *caller,
                        *from,
                        old(ledger).balance_of(*from),
                        aru_units as int,
                    ) is None
                    &&& final(ledger).balances@ == transfer_result(
                        old(ledger).balances@,
                        *from,
                        *to,
                        aru_units as int,
                    )
                    &&& final(ledger).events@ == old(ledger).events@.push(
                        (Event::Transfer {
                            source: *from,
                            destination: *to,
                            amount: aru_units,
                            timestamp: old(ledger).timestamp,
                        }),
                    )
                    &&& final(ledger).timestamp == old(ledger).timestamp
                },
                Err(e) => {
                    &&& transfer_refusal(
                        *caller,
                        *from,
                        old(ledger).balance_of(*from),
                        aru_units as int,
                    ) == Some(e)
                    &&& *final(ledger) == *old(ledger)
                },
            },
            final(ledger).balances.wf(),
            final(ledger).total_supply() == old(ledger).total_supply(),
            result is Ok ==> final(ledger).balance_of(*from) + final(ledger).balance_of(*to)
                == old(ledger).balance_of(*from) + old(ledger).balance_of(*to),
            result is Ok && *from != *to ==> {
                &&& final(ledger).balance_of(*from) == old(ledger).balance_of(*from) - aru_units
                &&& final(ledger).balance_of(*to) == old(ledger).balance_of(*to) + aru_units
            },
            result is Ok && *from == *to ==> final(ledger).balance_of(*from) == old(
                ledger
            ).balance_of(*from),
            forall|other: AccountId|
                other != *from && other != *to ==> final(ledger).balance_of(other) == old(
                    ledger
                ).balance_of(other),
    {
        proof {
            use_type_invariant(&ledger.balances);
        }
        if !Self::is_authorized(caller, from) {
            return Err(Error::Unauthorized);
        }
        if aru_units <= 0 {
            return Err(Error::InvalidAmount);
        }
        let balance_from = ledger.balances.get_balance(from);
        if balance_from < aru_units {
            return Err(Error::InsufficientFunds);
        }
        ledger.balances.set_balance(from, balance_from - aru_units);
        let balance_to = ledger.balances.get_balance(to);
        ledger.balances.set_balance(to, balance_to + aru_units);
        ledger.events.push(
            Event::Transfer {
                source: *from,
                destination: *to,
                amount: aru_units,
                timestamp: ledger.timestamp,
            },
        );
        Ok(())
    }

    /// Distributes units from `from` to the recipients of a batch, on behalf
    /// of `caller`. Each entry names a recipient and the amount it is to
    /// receive; a recipient named more than once receives each of its
    /// amounts.
    ///
    /// The batch is turned down as a whole, with the ledger left exactly as
    /// it was, for the first of these that holds: the caller is not `from`
    /// (`Unauthorized`); there are more than `MAX_BATCH_SIZE` entries
    /// (`BatchTooLarge`); some amount is not positive (`InvalidAmount`);
    /// `from` holds less than the sum of the amounts (`InsufficientFunds`).
    /// Otherwise every entry is credited, the sum leaves `from`, one `Batch`
    /// event with the ledger's time is recorded, and the number of entries
    /// is returned. A source that is itself among the recipients receives
    /// its share like any other, so that no unit is created or lost. An
    /// empty batch succeeds, moves nothing and returns 0.
    pub fn batch_transfer(
        ledger: &mut Ledger,
        caller: &AccountId,
        from: &AccountId,
        recipients: &Vec<(AccountId, i128)>,
    ) -> (result: Result<u32, Error>)
        ensures
            match result {
                Ok(count) => {
                    &&& batch_refusal(*caller, *from, old(ledger).balance_of(*from), recipients@)
                        is None
                    &&& count == recipients@.len()
                    &&& final(ledger).balances@ == batch_result(
                        old(ledger).balances@,
                        *from,
                        recipients@,
                    )
                    &&& final(ledger).events@ == old(ledger).events@.push(
                        (Event::Batch {
                            source: *from,
                            recipient_count: count,
                            total_amount: total_amount(recipients@) as i128,
                            timestamp: old(ledger).timestamp,
                        }),
                    )
                    &&& total_amount(recipients@) <= i128::MAX
                    &&& final(ledger).timestamp == old(ledger).timestamp
                },
                Err(e) => {
                    &&& batch_refusal(*caller, *from, old(ledger).balance_of(*from), recipients@)
                        == Some(e)
                    &&& *final(ledger) == *old(ledger)
                },
            },
            final(ledger).balances.wf(),
            final(ledger).total_supply() == old(ledger).total_supply(),
            result is Ok ==> forall|account: AccountId|
                #![trigger final(ledger).balance_of(account)]
                final(ledger).balance_of(account) == old(ledger).balance_of(account) + credited_to(
                    recipients@,
                    account,
                ) - if account == *from {
                    total_amount(recipients@)
                } else {
                    0
                },
    {
        proof {
            use_type_invariant(&ledger.balances);
        }
        if !Self::is_authorized(caller, from) {
            return Err(Error::Unauthorized);
        }
        let count: usize = recipients.len();
        if count > MAX_BATCH_SIZE {
            return Err(Error::BatchTooLarge);
        }
        let mut checked: usize = 0;
        while checked < count
            invariant
                count == recipients@.len(),
                count <= MAX_BATCH_SIZE,
                checked <= count,
                *ledger == *old(ledger),
                ledger.balances.wf(),
                *caller == *from,
                forall|j: int| 0 <= j < checked ==> (#[trigger] recipients@[j]).1 > 0,
            decreases count - checked,
        {
            if recipients[checked].1 <= 0 {
                assert(!all_positive(recipients@)) by {
                    assert(recipients@[checked as int].1 <= 0);
                }
                return Err(Error::InvalidAmount);
            }
            checked += 1;
        }
        let balance_from: i128 = ledger.balances.get_balance(from);
        let mut total: i128 = 0;
        let mut summed: usize = 0;
        while summed < count
            invariant
                count == recipients@.len(),
                summed <= count,
                all_positive(recipients@),
                *ledger == *old(ledger),
                ledger.balances.wf(),
                *caller == *from,
                count <= MAX_BATCH_SIZE,
                balance_from == old(ledger).balance_of(*from),
                total == total_amount(recipients@.take(summed as int)),
                0 <= total <= balance_from,
            decreases count - summed,
        {
            proof {
                lemma_total_of_prefix(recipients@, summed as int);
                lemma_total_of_prefix(recipients@, summed + 1);
            }
            let amount: i128 = recipients[summed].1;
            if amount > balance_from - total {
                return Err(Error::InsufficientFunds);
            }
            total = total + amount;
            summed += 1;
        }
        proof {
            assert(recipients@.take(count as int) =~= recipients@);
        }
        let ghost before = *ledger;
        // The total leaves the source before any credit arrives: the units in
        // circulation then never exceed what they were, and no sum overflows.
        ledger.balances.set_balance(from, balance_from - total);
        let mut paid: u32 = 0;
        let mut i: usize = 0;
        while i < count
            invariant
                count == recipients@.len(),
                count <= MAX_BATCH_SIZE,
                i <= count,
                paid == i,
                all_positive(recipients@),
                total == total_amount(recipients@),
                ledger.balances.wf(),
                ledger.events == before.events,
                ledger.timestamp == before.timestamp,
                ledger.balances@ == apply_credits(
                    debit(before.balances@, *from, total as int),
                    recipients@.take(i as int),
                ),
                ledger.total_supply() == before.total_supply() - total + total_amount(
                    recipients@.take(i as int),
                ),
                before.total_supply() <= i128::MAX,
            decreases count - i,
        {
            proof {
                lemma_total_of_prefix(recipients@, i as int);
                lemma_total_of_prefix(recipients@, i + 1);
                assert(recipients@.take(i + 1).drop_last() =~= recipients@.take(i as int));
            }
            let to: AccountId = recipients[i].0;
            let amount: i128 = recipients[i].1;
            let balance_to: i128 = ledger.balances.get_balance(&to);
            ledger.balances.set_balance(&to, balance_to + amount);
            paid += 1;
            i += 1;
        }
        proof {
            assert(recipients@.take(count as int) =~= recipients@);
            lemma_credits_debit_commute(before.balances@, *from, total as int, recipients@);
            assert forall|account: AccountId|
                balance_in(batch_result(before.balances@, *from, recipients@), account)
                    == before.balance_of(account) + credited_to(recipients@, account)
                    - if account == *from {
                    total_amount(recipients@)
                } else {
                    0
                } by {
                lemma_batch_pays_every_share(before.balances@, *from, recipients@, account);
            }
        }
        ledger.events.push(
            Event::Batch {
                source: *from,
                recipient_count: paid,
                total_amount: total,
                timestamp: ledger.timestamp,
            },
        );
        Ok(paid)
    }
}

} // verus!
