use erc20::BalanceError;
use erc20::DispatchError;
use erc20::Error;
use erc20::Event;
use erc20::GenesisConfig;
use erc20::InMemoryBalances;
use erc20::Pallet;

/// The test-harness state of the original pallet: five accounts, each holding
/// 1,000,000, and owner 3 having granted spender 4 an allowance of 500,000.
fn new_test_state() -> (Pallet, InMemoryBalances) {
    let pallet = GenesisConfig { allowances: vec![(3, 4, 500000)] }.build();
    let mut balances = InMemoryBalances::new();
    for account in 0..5u64 {
        balances.set_balance(account, 1000000);
    }
    (pallet, balances)
}

#[test]
fn zero_allowance_error() {
    let (mut pallet, mut balances) = new_test_state();
    assert_eq!(pallet.get_allowance(1, 0), 0);
    let r = pallet.transfer_from(&mut balances, 0, 1, 2, 2000000);
    assert_eq!(r, Err(DispatchError::Allowance(Error::NotEnoughAllowance)));
    assert_eq!(pallet.get_allowance(1, 0), 0);
    assert_eq!(balances.total_balance(0), 1000000);
    assert_eq!(balances.total_balance(1), 1000000);
    assert_eq!(balances.total_balance(2), 1000000);
}

#[test]
fn signed_transfer() {
    let (mut pallet, mut balances) = new_test_state();
    assert_eq!(pallet.get_allowance(3, 4), 500000);
    let r = pallet.transfer_from(&mut balances, 4, 3, 1, 200000);
    assert_eq!(r, Ok(()));
    assert_eq!(balances.total_balance(1), 1200000);
    assert_eq!(balances.total_balance(3), 800000);
    assert_eq!(balances.total_balance(4), 1000000);
    assert_eq!(pallet.get_allowance(3, 4), 300000);
}

#[test]
fn increase_allowance() {
    let (mut pallet, _balances) = new_test_state();
    assert_eq!(pallet.get_allowance(3, 4), 500000);
    pallet.increase_allowance(3, 4, 200000);
    assert_eq!(pallet.get_allowance(3, 4), 700000);
}

#[test]
fn decrease_allowance() {
    let (mut pallet, _balances) = new_test_state();
    assert_eq!(pallet.get_allowance(3, 4), 500000);
    let r = pallet.decrease_allowance(3, 4, 200000);
    assert_eq!(r, Ok(()));
    assert_eq!(pallet.get_allowance(3, 4), 300000);
}

#[test]
fn decrease_allowance_error() {
    let (mut pallet, _balances) = new_test_state();
    assert_eq!(pallet.get_allowance(3, 4), 500000);
    let r = pallet.decrease_allowance(3, 4, 800000);
    assert_eq!(r, Err(Error::DecreasedAllowanceBelowZero));
    assert_eq!(pallet.get_allowance(3, 4), 500000);
}

#[test]
fn approve_replaces_not_adds() {
    let mut pallet = Pallet::new();
    pallet.approve(1, 2, 111);
    assert_eq!(pallet.get_allowance(1, 2), 111);
    pallet.approve(1, 2, 222);
    assert_eq!(pallet.get_allowance(1, 2), 222);
}

#[test]
fn increase_then_decrease_restores() {
    let mut pallet = Pallet::new();
    pallet.approve(1, 2, 12345);
    pallet.increase_allowance(1, 2, 700);
    assert_eq!(pallet.get_allowance(1, 2), 13045);
    let r = pallet.decrease_allowance(1, 2, 700);
    assert_eq!(r, Ok(()));
    assert_eq!(pallet.get_allowance(1, 2), 12345);
}

#[test]
fn increases_are_additive() {
    let mut pallet = Pallet::new();
    pallet.increase_allowance(5, 6, 300);
    pallet.increase_allowance(5, 6, 450);
    assert_eq!(pallet.get_allowance(5, 6), 750);
}

#[test]
fn allowance_keys_are_ordered_pairs() {
    let mut pallet = Pallet::new();
    pallet.approve(1, 2, 10);
    assert_eq!(pallet.get_allowance(1, 2), 10);
    assert_eq!(pallet.get_allowance(2, 1), 0);
    pallet.approve(2, 1, 20);
    assert_eq!(pallet.get_allowance(1, 2), 10);
    assert_eq!(pallet.get_allowance(2, 1), 20);
}

#[test]
fn every_write_emits_one_event() {
    let (mut pallet, mut balances) = new_test_state();
    assert_eq!(pallet.events().len(), 0);
    pallet.approve(1, 2, 40);
    assert_eq!(pallet.events().len(), 1);
    assert_eq!(pallet.events()[0], Event::AllowanceChanged(1, 2, 40));
    pallet.increase_allowance(1, 2, 5);
    assert_eq!(pallet.events()[1], Event::AllowanceChanged(1, 2, 45));
    let r = pallet.decrease_allowance(1, 2, 45);
    assert_eq!(r, Ok(()));
    assert_eq!(pallet.events()[2], Event::AllowanceChanged(1, 2, 0));
    let r = pallet.transfer_from(&mut balances, 4, 3, 1, 100000);
    assert_eq!(r, Ok(()));
    assert_eq!(pallet.events()[3], Event::AllowanceChanged(3, 4, 400000));
    assert_eq!(pallet.events().len(), 4);
}

#[test]
fn rejected_operations_emit_no_event() {
    let (mut pallet, mut balances) = new_test_state();
    let _ = pallet.decrease_allowance(3, 4, 800000);
    let _ = pallet.transfer_from(&mut balances, 0, 1, 2, 2000000);
    assert_eq!(pallet.events().len(), 0);
}

#[test]
fn failed_balance_transfer_keeps_allowance() {
    let mut pallet = Pallet::new();
    let mut balances = InMemoryBalances::new();
    balances.set_balance(1, 100);
    pallet.approve(1, 2, 500);
    // Allowance suffices, but owner 1 holds only 100 of the 300 requested.
    let r = pallet.transfer_from(&mut balances, 2, 1, 3, 300);
    assert_eq!(r, Err(DispatchError::Balance(BalanceError::InsufficientBalance)));
    assert_eq!(pallet.get_allowance(1, 2), 500);
    assert_eq!(balances.total_balance(1), 100);
    assert_eq!(balances.total_balance(3), 0);
    assert_eq!(pallet.events().len(), 1);
}

#[test]
fn overflowing_recipient_keeps_allowance() {
    let mut pallet = Pallet::new();
    let mut balances = InMemoryBalances::new();
    balances.set_balance(1, 100);
    balances.set_balance(3, u64::MAX - 10);
    pallet.approve(1, 2, 100);
    let r = pallet.transfer_from(&mut balances, 2, 1, 3, 50);
    assert_eq!(r, Err(DispatchError::Balance(BalanceError::Overflow)));
    assert_eq!(pallet.get_allowance(1, 2), 100);
    assert_eq!(balances.total_balance(1), 100);
    assert_eq!(balances.total_balance(3), u64::MAX - 10);
}

#[test]
fn transfer_to_owner_consumes_allowance_only() {
    let mut pallet = Pallet::new();
    let mut balances = InMemoryBalances::new();
    balances.set_balance(1, 1000);
    pallet.approve(1, 2, 500);
    let r = pallet.transfer_from(&mut balances, 2, 1, 1, 400);
    assert_eq!(r, Ok(()));
    assert_eq!(balances.total_balance(1), 1000);
    assert_eq!(pallet.get_allowance(1, 2), 100);
}

#[test]
fn exact_allowance_is_spendable() {
    let (mut pallet, mut balances) = new_test_state();
    let r = pallet.transfer_from(&mut balances, 4, 3, 1, 500000);
    assert_eq!(r, Ok(()));
    assert_eq!(pallet.get_allowance(3, 4), 0);
    assert_eq!(balances.total_balance(3), 500000);
    assert_eq!(balances.total_balance(1), 1500000);
    // The record remains a normal record at zero, not a missing key.
    let r = pallet.transfer_from(&mut balances, 4, 3, 1, 1);
    assert_eq!(r, Err(DispatchError::Allowance(Error::NotEnoughAllowance)));
}

#[test]
fn genesis_loads_in_order_without_events() {
    let config = GenesisConfig { allowances: vec![(1, 2, 10), (3, 4, 20), (1, 2, 30)] };
    let pallet = config.build();
    // A later triple for the same pair replaces an earlier one.
    assert_eq!(pallet.get_allowance(1, 2), 30);
    assert_eq!(pallet.get_allowance(3, 4), 20);
    assert_eq!(pallet.get_allowance(2, 1), 0);
    assert_eq!(pallet.events().len(), 0);
}

#[test]
fn default_genesis_is_empty() {
    let pallet = GenesisConfig::default().build();
    assert_eq!(pallet.get_allowance(1, 2), 0);
    assert_eq!(pallet.events().len(), 0);
}

#[test]
fn metadata_starts_empty() {
    let pallet = Pallet::new();
    assert_eq!(pallet.get_name().len(), 0);
    assert_eq!(pallet.get_symbol().len(), 0);
}
