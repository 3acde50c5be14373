use erc20::BalanceError;
use erc20::BalanceLedger;
use erc20::InMemoryBalances;

#[test]
fn unknown_accounts_hold_zero() {
    let balances = InMemoryBalances::new();
    assert_eq!(balances.total_balance(7), 0);
    assert_eq!(balances.free_balance(7), 0);
}

#[test]
fn set_balance_overwrites() {
    let mut balances = InMemoryBalances::new();
    balances.set_balance(1, 500);
    assert_eq!(balances.total_balance(1), 500);
    balances.set_balance(1, 70);
    assert_eq!(balances.total_balance(1), 70);
    assert_eq!(balances.total_balance(2), 0);
}

#[test]
fn transfer_moves_exactly_the_amount() {
    let mut balances = InMemoryBalances::new();
    balances.set_balance(1, 900);
    balances.set_balance(2, 100);
    let r = balances.transfer(1, 2, 250);
    assert_eq!(r, Ok(()));
    assert_eq!(balances.total_balance(1), 650);
    assert_eq!(balances.total_balance(2), 350);
    assert_eq!(balances.free_balance(1), 650);
}

#[test]
fn transfer_of_missing_funds_changes_nothing() {
    let mut balances = InMemoryBalances::new();
    balances.set_balance(1, 100);
    let r = balances.transfer(1, 2, 101);
    assert_eq!(r, Err(BalanceError::InsufficientBalance));
    assert_eq!(balances.total_balance(1), 100);
    assert_eq!(balances.total_balance(2), 0);
}

#[test]
fn transfer_overflowing_recipient_changes_nothing() {
    let mut balances = InMemoryBalances::new();
    balances.set_balance(1, 100);
    balances.set_balance(2, u64::MAX - 20);
    let r = balances.transfer(1, 2, 21);
    assert_eq!(r, Err(BalanceError::Overflow));
    assert_eq!(balances.total_balance(1), 100);
    assert_eq!(balances.total_balance(2), u64::MAX - 20);
}

#[test]
fn transfer_to_self_moves_nothing() {
    let mut balances = InMemoryBalances::new();
    balances.set_balance(1, 100);
    let r = balances.transfer(1, 1, 60);
    assert_eq!(r, Ok(()));
    assert_eq!(balances.total_balance(1), 100);
    let r = balances.transfer(1, 1, 101);
    assert_eq!(r, Err(BalanceError::InsufficientBalance));
}
