//! The ledger as mathematics: balances as a map from accounts to integers,
//! and what each operation makes of such a map. The contracts of the
//! executable code are stated over these functions.

use crate::account::AccountId;
use crate::error::Error;
use vstd::prelude::*;

verus! {

/// The most recipients that one batch may name.
pub const MAX_BATCH_SIZE: usize = 100;

/// The balance that `balances` gives `account`: the recorded one, or zero
/// for an account that was never written.
pub open spec fn balance_in(balances: Map<AccountId, int>, account: AccountId) -> int {
    if balances.dom().contains(account) {
        balances[account]
    } else {
        0
    }
}

/// `balances` after `amount` was added to what `account` holds.
pub open spec fn credit(balances: Map<AccountId, int>, account: AccountId, amount: int) -> Map<
    AccountId,
    int,
> {
    balances.insert(account, balance_in(balances, account) + amount)
}

/// `balances` after `amount` was taken from what `account` holds.
pub open spec fn debit(balances: Map<AccountId, int>, account: AccountId, amount: int) -> Map<
    AccountId,
    int,
> {
    balances.insert(account, balance_in(balances, account) - amount)
}

/// `balances` after `amount` moved from `from` to `to`. The credit is applied
/// to the balances as the debit left them, so moving units from an account
/// to itself changes nothing.
pub open spec fn transfer_result(
    balances: Map<AccountId, int>,
    from: AccountId,
    to: AccountId,
    amount: int,
) -> Map<AccountId, int> {
    credit(debit(balances, from, amount), to, amount)
}

/// The first reason, if any, for turning a single transfer down. The checks
/// come in a fixed order: who is calling, then the amount, then the funds.
pub open spec fn transfer_refusal(
    caller: AccountId,
    from: AccountId,
    balance: int,
    amount: int,
) -> Option<Error> {
    if caller != from {
        Some(Error::Unauthorized)
    } else if amount <= 0 {
        Some(Error::InvalidAmount)
    } else if balance < amount {
        Some(Error::InsufficientFunds)
    } else {
        None
    }
}

/// Every amount in the batch is strictly positive.
pub open spec fn all_positive(recipients: Seq<(AccountId, i128)>) -> bool {
    forall|i: int| 0 <= i < recipients.len() ==> (#[trigger] recipients[i]).1 > 0
}

/// The sum of the amounts of a batch.
pub open spec fn total_amount(recipients: Seq<(AccountId, i128)>) -> int
    decreases recipients.len(),
{
    if recipients.len() == 0 {
        0
    } else {
        total_amount(recipients.drop_last()) + recipients.last().1
    }
}

/// What the batch pays to `account`: the sum of the amounts of the entries
/// that name it. An account named twice is paid twice.
pub open spec fn credited_to(recipients: Seq<(AccountId, i128)>, account: AccountId) -> int
    decreases recipients.len(),
{
    if recipients.len() == 0 {
        0
    } else if recipients.last().0 == account {
        credited_to(recipients.drop_last(), account) + recipients.last().1
    } else {
        credited_to(recipients.drop_last(), account)
    }
}

/// `balances` after each entry of the batch was credited, first to last.
pub open spec fn apply_credits(
    balances: Map<AccountId, int>,
    recipients: Seq<(AccountId, i128)>,
) -> Map<AccountId, int>
    decreases recipients.len(),
{
    if recipients.len() == 0 {
        balances
    } else {
        credit(
            apply_credits(balances, recipients.drop_last()),
            recipients.last().0,
            recipients.last().1 as int,
        )
    }
}

/// `balances` after a whole batch: every entry credited in order, then the
/// total taken from what `from` holds at that point.
pub open spec fn batch_result(
    balances: Map<AccountId, int>,
    from: AccountId,
    recipients: Seq<(AccountId, i128)>,
) -> Map<AccountId, int> {
    debit(apply_credits(balances, recipients), from, total_amount(recipients))
}

/// The first reason, if any, for turning a batch down. The checks come in a
/// fixed order: who is calling, then the size of the batch, then the
/// amounts, then the funds.
pub open spec fn batch_refusal(
    caller: AccountId,
    from: AccountId,
    balance: int,
    recipients: Seq<(AccountId, i128)>,
) -> Option<Error> {
    if caller != from {
        Some(Error::Unauthorized)
    } else if recipients.len() > MAX_BATCH_SIZE {
        Some(Error::BatchTooLarge)
    } else if !all_positive(recipients) {
        Some(Error::InvalidAmount)
    } else if balance < total_amount(recipients) {
        Some(Error::InsufficientFunds)
    } else {
        None
    }
}

/// A credit and a debit may be applied in either order.
pub proof fn lemma_credit_debit_commute(
    balances: Map<AccountId, int>,
    from: AccountId,
    taken: int,
    to: AccountId,
    given: int,
)
    ensures
        credit(debit(balances, from, taken), to, given) == debit(
            credit(balances, to, given),
            from,
            taken,
        ),
{
    assert(credit(debit(balances, from, taken), to, given) =~= debit(
        credit(balances, to, given),
        from,
        taken,
    ));
}

/// Taking the total first and crediting the batch afterwards gives the same
/// balances as crediting first and taking the total last.
pub proof fn lemma_credits_debit_commute(
    balances: Map<AccountId, int>,
    from: AccountId,
    taken: int,
    recipients: Seq<(AccountId, i128)>,
)
    ensures
        apply_credits(debit(balances, from, taken), recipients) == debit(
            apply_credits(balances, recipients),
            from,
            taken,
        ),
    decreases recipients.len(),
{
    if recipients.len() > 0 {
        lemma_credits_debit_commute(balances, from, taken, recipients.drop_last());
        lemma_credit_debit_commute(
            apply_credits(balances, recipients.drop_last()),
            from,
            taken,
            recipients.last().0,
            recipients.last().1 as int,
        );
    }
}

/// The total of a batch of positive amounts grows with every entry.
pub proof fn lemma_total_of_prefix(recipients: Seq<(AccountId, i128)>, n: int)
    requires
        all_positive(recipients),
        0 <= n <= recipients.len(),
    ensures
        0 <= total_amount(recipients.take(n)) <= total_amount(recipients),
        n < recipients.len() ==> total_amount(recipients.take(n + 1)) == total_amount(
            recipients.take(n),
        ) + recipients[n].1,
    decreases recipients.len() - n,
{
    if n == recipients.len() {
        assert(recipients.take(n) =~= recipients);
        lemma_total_non_negative(recipients);
    } else {
        assert(recipients.take(n + 1).drop_last() =~= recipients.take(n));
        lemma_total_of_prefix(recipients, n + 1);
        lemma_total_non_negative(recipients.take(n));
        assert(recipients[n].1 > 0);
    }
}

proof fn lemma_total_non_negative(recipients: Seq<(AccountId, i128)>)
    requires
        forall|i: int| 0 <= i < recipients.len() ==> (#[trigger] recipients[i]).1 > 0,
    ensures
        0 <= total_amount(recipients),
    decreases recipients.len(),
{
    if recipients.len() > 0 {
        lemma_total_non_negative(recipients.drop_last());
    }
}

} // verus!
