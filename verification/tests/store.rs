use transfer_engine::{AccountId, BalanceStore, Error, Ledger, TransferEngine};

fn account(n: u8) -> AccountId {
    AccountId::new([n; 32])
}

#[test]
fn unwritten_account_reads_zero() {
    let store = BalanceStore::new();
    assert_eq!(store.get_balance(&account(1)), 0);
    assert_eq!(store.supply(), 0);
    let ledger = Ledger::new(0);
    assert_eq!(TransferEngine::get_balance(&ledger, &account(1)), 0);
    assert_eq!(TransferEngine::get_balance(&ledger, &account(255)), 0);
}

#[test]
fn reading_twice_gives_the_same() {
    let mut ledger = Ledger::new(0);
    let a = account(1);
    let b = account(2);
    TransferEngine::set_balance(&mut ledger, &a, 12);
    let first = TransferEngine::get_balance(&ledger, &a);
    let second = TransferEngine::get_balance(&ledger, &a);
    assert_eq!(first, 12);
    assert_eq!(first, second);
    assert_eq!(
        TransferEngine::get_balance(&ledger, &b),
        TransferEngine::get_balance(&ledger, &b)
    );
    let copy = ledger.clone();
    assert_eq!(TransferEngine::get_balance(&ledger, &a), 12);
    assert_eq!(ledger, copy);
}

#[test]
fn set_balance_overwrites_one_account() {
    let mut store = BalanceStore::new();
    let a = account(1);
    let b = account(2);
    store.set_balance(&a, 5);
    store.set_balance(&b, 6);
    assert_eq!(store.get_balance(&a), 5);
    assert_eq!(store.get_balance(&b), 6);
    store.set_balance(&a, 40);
    assert_eq!(store.get_balance(&a), 40);
    assert_eq!(store.get_balance(&b), 6);
    assert_eq!(store.supply(), 46);
    store.set_balance(&a, 0);
    assert_eq!(store.get_balance(&a), 0);
    assert_eq!(store.supply(), 6);
}

#[test]
fn store_accepts_what_keeps_it_sound() {
    let mut store = BalanceStore::new();
    let a = account(1);
    let b = account(2);
    assert!(store.accepts(&a, 0));
    assert!(store.accepts(&a, i128::MAX));
    assert!(!store.accepts(&a, -1));
    assert!(!store.accepts(&a, i128::MIN));
    store.set_balance(&a, i128::MAX - 10);
    assert!(store.accepts(&b, 10));
    assert!(!store.accepts(&b, 11));
    assert!(store.accepts(&a, i128::MAX));
    store.set_balance(&b, 10);
    assert_eq!(store.supply(), i128::MAX);
    assert!(!store.accepts(&a, i128::MAX));
    assert!(store.accepts(&a, i128::MAX - 10));
}

#[test]
fn accounts_differ_by_any_byte() {
    let mut bytes = [0u8; 32];
    let zero = AccountId::new(bytes);
    bytes[31] = 1;
    let last = AccountId::new(bytes);
    bytes[31] = 0;
    bytes[0] = 1;
    let first = AccountId::new(bytes);
    assert_eq!(zero, AccountId::new([0u8; 32]));
    assert_ne!(zero, last);
    assert_ne!(zero, first);
    assert_ne!(first, last);
    assert_eq!(last.bytes[31], 1);

    let mut store = BalanceStore::new();
    store.set_balance(&zero, 1);
    store.set_balance(&last, 2);
    store.set_balance(&first, 3);
    assert_eq!(store.get_balance(&zero), 1);
    assert_eq!(store.get_balance(&last), 2);
    assert_eq!(store.get_balance(&first), 3);
}

#[test]
fn cloned_store_is_independent() {
    let mut store = BalanceStore::new();
    let a = account(1);
    store.set_balance(&a, 5);
    let copy = store.clone();
    assert_eq!(copy, store);
    store.set_balance(&a, 6);
    assert_eq!(copy.get_balance(&a), 5);
    assert_eq!(store.get_balance(&a), 6);
    assert_ne!(copy, store);
}

#[test]
fn two_ledgers_do_not_share_balances() {
    let mut one = Ledger::new(0);
    let mut two = Ledger::new(0);
    let a = account(1);
    let b = account(2);
    TransferEngine::set_balance(&mut one, &a, 10);
    assert_eq!(
        TransferEngine::transfer(&mut two, &a, &a, &b, 1),
        Err(Error::InsufficientFunds)
    );
    assert_eq!(TransferEngine::transfer(&mut one, &a, &a, &b, 1), Ok(()));
    assert_eq!(TransferEngine::get_balance(&two, &b), 0);
    assert_eq!(TransferEngine::get_balance(&one, &b), 1);
}

#[test]
fn errors_keep_their_order() {
    assert!(Error::InsufficientFunds < Error::InvalidAmount);
    assert!(Error::InvalidAmount < Error::BatchTooLarge);
    assert!(Error::BatchTooLarge < Error::Unauthorized);
    assert_ne!(Error::InvalidAmount, Error::InsufficientFunds);
}
