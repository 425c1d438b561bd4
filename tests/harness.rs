use rmrk::harness::{
    call_external_into_wallet, Attacker, AttackerWallet, CallOutcome, HarnessError, Victim,
    CALL_GAS_LIMIT, CALL_VALUE,
};
use rmrk::types::AccountId;

fn alice() -> AccountId {
    AccountId::from_bytes([1u8; 32])
}

fn bob() -> AccountId {
    AccountId::from_bytes([2u8; 32])
}

fn wallet_address() -> AccountId {
    AccountId::from_bytes([9u8; 32])
}

#[test]
fn new_works() {
    let attacker = Attacker::new(alice(), 0);
    assert_eq!(attacker.get_owner(), alice());
}

#[test]
fn get_balance_works() {
    let contract_balance = 100;
    let attacker = Attacker::new(alice(), contract_balance);
    assert_eq!(attacker.get_balance(), 100);
}

#[test]
fn lib_new_works() {
    let attacker_wallet = AttackerWallet::new(alice(), 0);
    assert_eq!(attacker_wallet.get_owner(), alice());
}

#[test]
fn lib_get_balance_works() {
    let contract_balance = 100;
    let attacker_wallet = AttackerWallet::new(alice(), contract_balance);
    assert_eq!(attacker_wallet.get_balance(), 100);
}

#[test]
fn transfer_to_works() {
    let contract_balance = 100;
    let mut attacker_wallet = AttackerWallet::new(alice(), contract_balance);
    attacker_wallet.transfer_to(alice(), 80);
    assert_eq!(attacker_wallet.get_balance(), 20);
    assert_eq!(attacker_wallet.get_owner(), alice());
    assert!(!attacker_wallet.get_flip());
}

#[test]
fn victim_new_works() {
    let victim = Victim::new(alice(), 0);
    assert_eq!(victim.get_owner(), alice());
}

#[test]
fn victim_get_balance_works() {
    let victim = Victim::new(alice(), 100);
    assert_eq!(victim.get_balance(), 100);
}

#[test]
fn transfer_to_may_empty_the_wallet() {
    let mut wallet = AttackerWallet::new(alice(), 100);
    wallet.transfer_to(alice(), 100);
    assert_eq!(wallet.get_balance(), 0);
}

#[test]
fn call_external_builds_the_outbound_call() {
    let victim = Victim::new(alice(), 100);
    let call = victim.call_external(bob());
    assert_eq!(call.callee, bob());
    assert_eq!(call.value, 10);
    assert_eq!(call.gas_limit, 50000);
    assert_eq!(call.selector, [0u8, 0, 0, 0]);
    assert_eq!(CALL_VALUE, 10);
    assert_eq!(CALL_GAS_LIMIT, 50000);
}

#[test]
fn call_external_is_issued_whatever_the_balance() {
    let mut victim = Victim::new(alice(), 9);
    let call = victim.call_external(bob());
    assert_eq!(call.callee, bob());
    assert_eq!(call.value, 10);
    assert_eq!(victim.finish_call(&call, CallOutcome::Succeeded), Err(HarnessError::CallFailed));
    assert_eq!(victim.get_balance(), 9);
}

#[test]
fn nested_call_without_funds_fails_and_changes_nothing() {
    let mut victim = Victim::new(alice(), 9);
    let mut wallet = AttackerWallet::new(bob(), 100);
    let r = call_external_into_wallet(
        &mut victim,
        &mut wallet,
        wallet_address(),
        CallOutcome::Succeeded,
    );
    assert_eq!(r, Err(HarnessError::CallFailed));
    assert_eq!(victim.get_balance(), 9);
    assert_eq!(wallet.get_balance(), 100);
    assert!(!wallet.get_flip());
}

#[test]
fn nested_call_moves_value_and_flips_flag() {
    let mut victim = Victim::new(alice(), 100);
    let mut wallet = AttackerWallet::new(bob(), 100);
    let r = call_external_into_wallet(
        &mut victim,
        &mut wallet,
        wallet_address(),
        CallOutcome::Succeeded,
    );
    assert_eq!(r, Ok(()));
    assert_eq!(victim.get_balance(), 90);
    assert_eq!(wallet.get_balance(), 110);
    assert!(wallet.get_flip());
}

#[test]
fn failed_nested_call_rolls_everything_back() {
    let mut victim = Victim::new(alice(), 100);
    let mut wallet = AttackerWallet::new(bob(), 100);
    let r = call_external_into_wallet(&mut victim, &mut wallet, wallet_address(), CallOutcome::Failed);
    assert_eq!(r, Err(HarnessError::CallFailed));
    assert_eq!(victim.get_balance(), 100);
    assert_eq!(wallet.get_balance(), 100);
    assert!(!wallet.get_flip());
}

#[test]
fn finish_call_settles_by_outcome() {
    let mut victim = Victim::new(alice(), 100);
    let call = victim.call_external(bob());
    assert_eq!(victim.finish_call(&call, CallOutcome::Failed), Err(HarnessError::CallFailed));
    assert_eq!(victim.get_balance(), 100);
    assert_eq!(victim.finish_call(&call, CallOutcome::Succeeded), Ok(()));
    assert_eq!(victim.get_balance(), 90);
}

#[test]
fn wallet_fallback_flips_on_every_call() {
    let mut wallet = AttackerWallet::new(alice(), 0);
    assert_eq!(wallet.fallback(5), Ok(()));
    assert!(wallet.get_flip());
    assert_eq!(wallet.fallback(5), Ok(()));
    assert!(!wallet.get_flip());
    assert_eq!(wallet.get_balance(), 10);
}

#[test]
fn fallbacks_refuse_balance_overflow() {
    let mut wallet = AttackerWallet::new(alice(), u128::MAX);
    assert_eq!(wallet.fallback(1), Err(HarnessError::BalanceOverflow));
    assert!(!wallet.get_flip());
    let mut attacker = Attacker::new(alice(), u128::MAX);
    assert_eq!(attacker.fallback(1), Err(HarnessError::BalanceOverflow));
    assert!(!attacker.get_flip());
}

#[test]
fn attacker_fallback_records_that_it_ran() {
    let mut attacker = Attacker::new(alice(), 100);
    assert!(!attacker.get_flip());
    assert_eq!(attacker.fallback(10), Ok(()));
    assert!(attacker.get_flip());
    assert_eq!(attacker.get_balance(), 110);
}
