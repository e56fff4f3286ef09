use kitties::balances::{Balances, LedgerError};

fn ledger() -> Balances {
    let mut b = Balances::new(2);
    b.make_free_balance_be(1, 10);
    b.make_free_balance_be(2, 10);
    b
}

#[test]
fn reserve_and_unreserve_move_between_free_and_reserved() {
    let mut b = ledger();
    assert!(b.can_reserve(1, 10));
    assert!(!b.can_reserve(1, 11));
    assert_eq!(b.reserve(1, 4), Ok(()));
    assert_eq!((b.free_balance(1), b.reserved_balance(1)), (6, 4));
    assert_eq!(b.reserve(1, 7), Err(LedgerError::InsufficientBalance));
    assert_eq!((b.free_balance(1), b.reserved_balance(1)), (6, 4));
    assert_eq!(b.unreserve(1, 6), 2);
    assert_eq!((b.free_balance(1), b.reserved_balance(1)), (10, 0));
    assert_eq!(b.existential_deposit(), 2);
}

#[test]
fn transfer_keep_alive_moves_free_funds() {
    let mut b = ledger();
    assert_eq!(b.transfer_keep_alive(1, 2, 3), Ok(()));
    assert_eq!(b.free_balance(1), 7);
    assert_eq!(b.free_balance(2), 13);
    assert_eq!(b.transfer_keep_alive(1, 1, 100), Ok(()));
    assert_eq!(b.transfer_keep_alive(1, 2, 0), Ok(()));
    assert_eq!(b.free_balance(1), 7);
}

#[test]
fn transfer_keep_alive_errors() {
    let mut b = ledger();
    assert_eq!(b.transfer_keep_alive(1, 2, 11), Err(LedgerError::InsufficientBalance));
    assert_eq!(b.transfer_keep_alive(1, 2, 9), Err(LedgerError::KeepAlive));
    assert_eq!(b.transfer_keep_alive(1, 3, 1), Err(LedgerError::ExistentialDeposit));
    b.make_free_balance_be(3, u128::MAX);
    assert_eq!(b.transfer_keep_alive(1, 3, 1), Err(LedgerError::Overflow));
    assert_eq!(b.free_balance(1), 10);
    assert_eq!(b.free_balance(2), 10);
}
