//! What holds of the ledger whatever the accounts and amounts: the laws
//! that callers may rely on, each proved from the definitions of the model.

use crate::account::AccountId;
use crate::model::{
    all_positive, apply_credits, balance_in, batch_refusal, batch_result, credit, credited_to,
    debit, total_amount, transfer_refusal, transfer_result,
};
use crate::store::BalanceStore;
use vstd::prelude::*;

verus! {

/// No account of `balances` holds less than zero.
pub open spec fn no_negative_balance(balances: Map<AccountId, int>) -> bool {
    forall|account: AccountId| balance_in(balances, account) >= 0
}

/// A transfer creates and destroys nothing: what the two accounts hold
/// together is the same before and after. Between two different accounts
/// the source loses exactly the amount and the destination gains exactly
/// the amount; every other account keeps its balance.
pub proof fn lemma_transfer_conserves(
    balances: Map<AccountId, int>,
    from: AccountId,
    to: AccountId,
    amount: int,
)
    ensures
        balance_in(transfer_result(balances, from, to, amount), from) + balance_in(
            transfer_result(balances, from, to, amount),
            to,
        ) == balance_in(balances, from) + balance_in(balances, to),
        from != to ==> balance_in(transfer_result(balances, from, to, amount), from) == balance_in(
            balances,
            from,
        ) - amount,
        from != to ==> balance_in(transfer_result(balances, from, to, amount), to) == balance_in(
            balances,
            to,
        ) + amount,
        forall|other: AccountId|
            other != from && other != to ==> balance_in(
                transfer_result(balances, from, to, amount),
                other,
            ) == balance_in(balances, other),
{
}

/// A transfer from an account to itself leaves every balance as it was.
pub proof fn lemma_self_transfer_changes_nothing(
    balances: Map<AccountId, int>,
    account: AccountId,
    amount: int,
)
    ensures
        forall|any: AccountId|
            balance_in(transfer_result(balances, account, account, amount), any) == balance_in(
                balances,
                any,
            ),
{
}

/// A transfer that is not turned down leaves no account below zero, if none
/// was below zero before.
pub proof fn lemma_transfer_keeps_balances_non_negative(
    balances: Map<AccountId, int>,
    caller: AccountId,
    from: AccountId,
    to: AccountId,
    amount: int,
)
    requires
        no_negative_balance(balances),
        transfer_refusal(caller, from, balance_in(balances, from), amount) is None,
    ensures
        no_negative_balance(transfer_result(balances, from, to, amount)),
{
    let after = transfer_result(balances, from, to, amount);
    assert forall|account: AccountId| balance_in(after, account) >= 0 by {
        assert(balance_in(balances, account) >= 0);
        assert(balance_in(balances, from) >= 0);
        assert(balance_in(balances, to) >= 0);
    }
}

/// Crediting a batch gives every account what it held plus what the batch
/// pays to it.
pub proof fn lemma_apply_credits_balance(
    balances: Map<AccountId, int>,
    recipients: Seq<(AccountId, i128)>,
    account: AccountId,
)
    ensures
        balance_in(apply_credits(balances, recipients), account) == balance_in(balances, account)
            + credited_to(recipients, account),
    decreases recipients.len(),
{
    if recipients.len() > 0 {
        lemma_apply_credits_balance(balances, recipients.drop_last(), account);
    }
}

/// A batch of positive amounts pays no account less than nothing, and no
/// account more than the total.
pub proof fn lemma_credited_within_total(recipients: Seq<(AccountId, i128)>, account: AccountId)
    requires
        all_positive(recipients),
    ensures
        0 <= credited_to(recipients, account) <= total_amount(recipients),
    decreases recipients.len(),
{
    if recipients.len() > 0 {
        let rest = recipients.drop_last();
        assert(all_positive(rest)) by {
            assert forall|i: int| 0 <= i < rest.len() implies (#[trigger] rest[i]).1 > 0 by {
                assert(recipients[i].1 > 0);
            }
        }
        lemma_credited_within_total(rest, account);
        assert(recipients[recipients.len() - 1].1 > 0);
    }
}

/// A batch is applied in full: every account ends with what it held, plus
/// the sum of the amounts of the entries that name it, and the source, in
/// addition, with the total of the batch less. An account that the batch
/// does not name, and that is not the source, keeps its balance.
pub proof fn lemma_batch_pays_every_share(
    balances: Map<AccountId, int>,
    from: AccountId,
    recipients: Seq<(AccountId, i128)>,
    account: AccountId,
)
    ensures
        account != from ==> balance_in(batch_result(balances, from, recipients), account)
            == balance_in(balances, account) + credited_to(recipients, account),
        account == from ==> balance_in(batch_result(balances, from, recipients), account)
            == balance_in(balances, account) + credited_to(recipients, account) - total_amount(
            recipients,
        ),
{
    lemma_apply_credits_balance(balances, recipients, account);
    lemma_apply_credits_balance(balances, recipients, from);
}

/// An empty batch leaves every balance as it was.
pub proof fn lemma_empty_batch_changes_nothing(
    balances: Map<AccountId, int>,
    from: AccountId,
    account: AccountId,
)
    ensures
        balance_in(batch_result(balances, from, Seq::<(AccountId, i128)>::empty()), account)
            == balance_in(balances, account),
{
}

/// A batch that is not turned down leaves no account below zero, if none
/// was below zero before.
pub proof fn lemma_batch_keeps_balances_non_negative(
    balances: Map<AccountId, int>,
    caller: AccountId,
    from: AccountId,
    recipients: Seq<(AccountId, i128)>,
)
    requires
        no_negative_balance(balances),
        batch_refusal(caller, from, balance_in(balances, from), recipients) is None,
    ensures
        no_negative_balance(batch_result(balances, from, recipients)),
{
    let after = batch_result(balances, from, recipients);
    assert forall|account: AccountId| balance_in(after, account) >= 0 by {
        lemma_batch_pays_every_share(balances, from, recipients, account);
        lemma_credited_within_total(recipients, account);
        assert(balance_in(balances, account) >= 0);
    }
}

/// In a sound store no account ever holds less than zero.
pub proof fn lemma_balance_never_negative(store: BalanceStore, account: AccountId)
    requires
        store.wf(),
    ensures
        store.balance_of(account) >= 0,
{
    store.lemma_bounds(account);
}

/// An account that was never written holds exactly zero.
pub proof fn lemma_unwritten_account_holds_zero(store: BalanceStore, account: AccountId)
    requires
        !store@.dom().contains(account),
    ensures
        store.balance_of(account) == 0,
{
}

/// Writing one account's balance changes what that account holds, and
/// nothing else.
pub proof fn lemma_write_touches_one_account(
    balances: Map<AccountId, int>,
    account: AccountId,
    value: int,
    other: AccountId,
)
    ensures
        balance_in(balances.insert(account, value), account) == value,
        other != account ==> balance_in(balances.insert(account, value), other) == balance_in(
            balances,
            other,
        ),
{
}

/// What a read returns depends on the contents of the store alone: two
/// reads of one account, with no write between them, agree.
pub proof fn lemma_reads_agree(first: BalanceStore, second: BalanceStore, account: AccountId)
    requires
        first@ == second@,
    ensures
        first.balance_of(account) == second.balance_of(account),
{
}

} // verus!
