use transfer_engine::{AccountId, Error, Event, Ledger, TransferEngine};

fn account(n: u8) -> AccountId {
    AccountId::new([n; 32])
}

#[test]
fn test_transfer_aru_units() {
    let mut ledger = Ledger::new(0);
    let alice = account(1);
    let bob = account(2);

    TransferEngine::set_balance(&mut ledger, &alice, 100);

    let result = TransferEngine::transfer(&mut ledger, &alice, &alice, &bob, 9);
    assert_eq!(result, Ok(()));

    let alice_balance = TransferEngine::get_balance(&ledger, &alice);
    let bob_balance = TransferEngine::get_balance(&ledger, &bob);

    assert_eq!(alice_balance, 91);
    assert_eq!(bob_balance, 9);
}

#[test]
fn test_insufficient_funds() {
    let mut ledger = Ledger::new(0);
    let alice = account(1);
    let bob = account(2);

    TransferEngine::set_balance(&mut ledger, &alice, 10);

    let result = TransferEngine::transfer(&mut ledger, &alice, &alice, &bob, 100);
    assert_eq!(result, Err(Error::InsufficientFunds));
}

#[test]
fn insufficient_funds_leaves_both_balances() {
    let mut ledger = Ledger::new(0);
    let a = account(1);
    let b = account(2);
    TransferEngine::set_balance(&mut ledger, &a, 10);
    let result = TransferEngine::transfer(&mut ledger, &a, &a, &b, 100);
    assert_eq!(result, Err(Error::InsufficientFunds));
    assert_eq!(TransferEngine::get_balance(&ledger, &a), 10);
    assert_eq!(TransferEngine::get_balance(&ledger, &b), 0);
}

#[test]
fn transfer_from_unwritten_account_is_insufficient() {
    let mut ledger = Ledger::new(0);
    let a = account(1);
    let b = account(2);
    let result = TransferEngine::transfer(&mut ledger, &a, &a, &b, 1);
    assert_eq!(result, Err(Error::InsufficientFunds));
    assert_eq!(TransferEngine::get_balance(&ledger, &a), 0);
    assert_eq!(TransferEngine::get_balance(&ledger, &b), 0);
}

#[test]
fn zero_and_negative_amounts_are_invalid() {
    let mut ledger = Ledger::new(0);
    let a = account(1);
    let b = account(2);
    TransferEngine::set_balance(&mut ledger, &a, 50);
    assert_eq!(
        TransferEngine::transfer(&mut ledger, &a, &a, &b, 0),
        Err(Error::InvalidAmount)
    );
    assert_eq!(
        TransferEngine::transfer(&mut ledger, &a, &a, &b, -5),
        Err(Error::InvalidAmount)
    );
    assert_eq!(
        TransferEngine::transfer(&mut ledger, &a, &a, &b, i128::MIN),
        Err(Error::InvalidAmount)
    );
    assert_eq!(TransferEngine::get_balance(&ledger, &a), 50);
    assert_eq!(TransferEngine::get_balance(&ledger, &b), 0);
}

#[test]
fn only_the_source_may_transfer() {
    let mut ledger = Ledger::new(0);
    let a = account(1);
    let b = account(2);
    TransferEngine::set_balance(&mut ledger, &a, 50);
    assert_eq!(
        TransferEngine::transfer(&mut ledger, &b, &a, &b, 10),
        Err(Error::Unauthorized)
    );
    assert_eq!(TransferEngine::get_balance(&ledger, &a), 50);
    assert_eq!(TransferEngine::get_balance(&ledger, &b), 0);
    assert!(TransferEngine::is_authorized(&a, &a));
    assert!(!TransferEngine::is_authorized(&b, &a));
}

#[test]
fn transfer_checks_come_in_order() {
    let mut ledger = Ledger::new(0);
    let a = account(1);
    let b = account(2);
    // Wrong caller, bad amount and no funds at once: the caller is named first.
    assert_eq!(
        TransferEngine::transfer(&mut ledger, &b, &a, &b, -1),
        Err(Error::Unauthorized)
    );
    // Bad amount and no funds: the amount is named first.
    assert_eq!(
        TransferEngine::transfer(&mut ledger, &a, &a, &b, 0),
        Err(Error::InvalidAmount)
    );
}

#[test]
fn transfer_moves_exactly_the_amount() {
    let mut ledger = Ledger::new(0);
    let a = account(1);
    let b = account(2);
    let c = account(3);
    TransferEngine::set_balance(&mut ledger, &a, 1_000);
    TransferEngine::set_balance(&mut ledger, &b, 250);
    TransferEngine::set_balance(&mut ledger, &c, 77);
    let before = TransferEngine::get_balance(&ledger, &a) + TransferEngine::get_balance(&ledger, &b);
    assert_eq!(TransferEngine::transfer(&mut ledger, &a, &a, &b, 400), Ok(()));
    assert_eq!(TransferEngine::get_balance(&ledger, &a), 600);
    assert_eq!(TransferEngine::get_balance(&ledger, &b), 650);
    assert_eq!(TransferEngine::get_balance(&ledger, &c), 77);
    let after = TransferEngine::get_balance(&ledger, &a) + TransferEngine::get_balance(&ledger, &b);
    assert_eq!(before, after);
    assert_eq!(ledger.balances.supply(), 1_327);
}

#[test]
fn transfer_of_the_whole_balance_leaves_zero() {
    let mut ledger = Ledger::new(0);
    let a = account(1);
    let b = account(2);
    TransferEngine::set_balance(&mut ledger, &a, 5);
    assert_eq!(TransferEngine::transfer(&mut ledger, &a, &a, &b, 5), Ok(()));
    assert_eq!(TransferEngine::get_balance(&ledger, &a), 0);
    assert_eq!(TransferEngine::get_balance(&ledger, &b), 5);
    assert_eq!(
        TransferEngine::transfer(&mut ledger, &a, &a, &b, 1),
        Err(Error::InsufficientFunds)
    );
}

#[test]
fn transfer_of_the_largest_balance() {
    let mut ledger = Ledger::new(0);
    let a = account(1);
    let b = account(2);
    TransferEngine::set_balance(&mut ledger, &a, i128::MAX);
    assert_eq!(
        TransferEngine::transfer(&mut ledger, &a, &a, &b, i128::MAX),
        Ok(())
    );
    assert_eq!(TransferEngine::get_balance(&ledger, &a), 0);
    assert_eq!(TransferEngine::get_balance(&ledger, &b), i128::MAX);
}

#[test]
fn transfer_to_oneself_changes_no_balance() {
    let mut ledger = Ledger::new(0);
    let a = account(1);
    TransferEngine::set_balance(&mut ledger, &a, 40);
    assert_eq!(TransferEngine::transfer(&mut ledger, &a, &a, &a, 15), Ok(()));
    assert_eq!(TransferEngine::get_balance(&ledger, &a), 40);
    assert_eq!(ledger.balances.supply(), 40);
    assert_eq!(
        TransferEngine::transfer(&mut ledger, &a, &a, &a, 41),
        Err(Error::InsufficientFunds)
    );
    assert_eq!(
        TransferEngine::transfer(&mut ledger, &a, &a, &a, 0),
        Err(Error::InvalidAmount)
    );
    assert_eq!(TransferEngine::get_balance(&ledger, &a), 40);
}

#[test]
fn failed_transfer_leaves_the_ledger_as_it_was() {
    let mut ledger = Ledger::new(9);
    let a = account(1);
    let b = account(2);
    TransferEngine::set_balance(&mut ledger, &a, 10);
    TransferEngine::set_balance(&mut ledger, &b, 3);
    assert_eq!(TransferEngine::transfer(&mut ledger, &a, &a, &b, 4), Ok(()));
    let before = ledger.clone();
    assert_eq!(
        TransferEngine::transfer(&mut ledger, &a, &a, &b, 7),
        Err(Error::InsufficientFunds)
    );
    assert_eq!(ledger, before);
    assert_eq!(
        TransferEngine::transfer(&mut ledger, &a, &a, &b, 0),
        Err(Error::InvalidAmount)
    );
    assert_eq!(ledger, before);
    assert_eq!(
        TransferEngine::transfer(&mut ledger, &b, &a, &b, 1),
        Err(Error::Unauthorized)
    );
    assert_eq!(ledger, before);
}

#[test]
fn transfer_records_one_event_with_the_ledger_time() {
    let mut ledger = Ledger::new(1_700_000_000);
    let a = account(1);
    let b = account(2);
    TransferEngine::set_balance(&mut ledger, &a, 100);
    assert!(ledger.events.is_empty());
    assert_eq!(TransferEngine::transfer(&mut ledger, &a, &a, &b, 9), Ok(()));
    assert_eq!(
        ledger.events,
        vec![Event::Transfer {
            source: a,
            destination: b,
            amount: 9,
            timestamp: 1_700_000_000,
        }]
    );
    ledger.timestamp = 1_700_000_005;
    assert_eq!(TransferEngine::transfer(&mut ledger, &b, &b, &a, 2), Ok(()));
    assert_eq!(ledger.events.len(), 2);
    assert_eq!(
        ledger.events[1],
        Event::Transfer {
            source: b,
            destination: a,
            amount: 2,
            timestamp: 1_700_000_005,
        }
    );
    assert_eq!(ledger.timestamp, 1_700_000_005);
}

#[test]
fn failed_transfer_records_no_event() {
    let mut ledger = Ledger::new(3);
    let a = account(1);
    let b = account(2);
    assert_eq!(
        TransferEngine::transfer(&mut ledger, &a, &a, &b, 1),
        Err(Error::InsufficientFunds)
    );
    assert_eq!(
        TransferEngine::transfer(&mut ledger, &a, &a, &b, 0),
        Err(Error::InvalidAmount)
    );
    assert_eq!(
        TransferEngine::transfer(&mut ledger, &b, &a, &b, 1),
        Err(Error::Unauthorized)
    );
    assert!(ledger.events.is_empty());
}

#[test]
fn balances_never_go_below_zero() {
    let mut ledger = Ledger::new(0);
    let a = account(1);
    let b = account(2);
    TransferEngine::set_balance(&mut ledger, &a, 3);
    let amounts: [i128; 6] = [2, 2, 1, 1, 5, -1];
    for amount in amounts {
        let _ = TransferEngine::transfer(&mut ledger, &a, &a, &b, amount);
        assert!(TransferEngine::get_balance(&ledger, &a) >= 0);
        assert!(TransferEngine::get_balance(&ledger, &b) >= 0);
        assert_eq!(
            TransferEngine::get_balance(&ledger, &a) + TransferEngine::get_balance(&ledger, &b),
            3
        );
    }
    assert_eq!(TransferEngine::get_balance(&ledger, &a), 0);
    assert_eq!(TransferEngine::get_balance(&ledger, &b), 3);
}
