use stellar_swap::token::{Allowance, TokenContract, TokenEvent};
use stellar_swap::types::{Address, Context, ContractError};

const ADMIN: Address = 1;
const ALICE: Address = 2;
const BOB: Address = 3;
const CAROL: Address = 4;
const TOKEN: Address = 10;

fn as_caller(caller: Address, sequence: u32) -> Context {
    Context { caller, contract: TOKEN, sequence }
}

fn ledger() -> TokenContract {
    let mut t = TokenContract::new();
    assert_eq!(t.initialize(ADMIN, 6, "Gold".to_string(), "GLD".to_string()), Ok(()));
    t
}

fn funded() -> TokenContract {
    let mut t = ledger();
    assert_eq!(t.mint(&as_caller(ADMIN, 1), ALICE, 1000), Ok(()));
    t
}

#[test]
fn untouched_ledger_has_defaults() {
    let t = TokenContract::new();
    assert_eq!(t.decimals(), 7);
    assert_eq!(t.name(), "Stellar Swap Token");
    assert_eq!(t.symbol(), "SST");
    assert_eq!(t.total_supply(), 0);
    assert_eq!(t.balance(ALICE), 0);
    assert_eq!(t.allowance(&as_caller(ALICE, 1), ALICE, BOB), 0);
    assert_eq!(t.allowance_record(ALICE, BOB), None);
    assert_eq!(t.admin(), Err(ContractError::NotInitialized));
}

#[test]
fn initialize_sets_metadata() {
    let t = ledger();
    assert_eq!(t.admin(), Ok(ADMIN));
    assert_eq!(t.decimals(), 6);
    assert_eq!(t.name(), "Gold");
    assert_eq!(t.symbol(), "GLD");
    assert_eq!(t.total_supply(), 0);
}

#[test]
fn initialize_twice_fails() {
    let mut t = ledger();
    assert_eq!(
        t.initialize(BOB, 9, "Other".to_string(), "OTH".to_string()),
        Err(ContractError::AlreadyInitialized)
    );
    assert_eq!(t.admin(), Ok(ADMIN));
    assert_eq!(t.decimals(), 6);
    assert_eq!(t.name(), "Gold");
    assert_eq!(t.symbol(), "GLD");
}

#[test]
fn mint_raises_balance_and_supply() {
    let mut t = ledger();
    assert_eq!(t.mint(&as_caller(ADMIN, 1), ALICE, 700), Ok(()));
    assert_eq!(t.mint(&as_caller(ADMIN, 1), BOB, 300), Ok(()));
    assert_eq!(t.mint(&as_caller(ADMIN, 1), ALICE, 5), Ok(()));
    assert_eq!(t.balance(ALICE), 705);
    assert_eq!(t.balance(BOB), 300);
    assert_eq!(t.total_supply(), 1005);
    assert_eq!(
        t.take_events(),
        vec![
            TokenEvent::Mint { to: ALICE, amount: 700 },
            TokenEvent::Mint { to: BOB, amount: 300 },
            TokenEvent::Mint { to: ALICE, amount: 5 },
        ]
    );
}

#[test]
fn mint_needs_initialized_ledger() {
    let mut t = TokenContract::new();
    assert_eq!(t.mint(&as_caller(ADMIN, 1), ALICE, 10), Err(ContractError::NotInitialized));
    assert_eq!(t.total_supply(), 0);
}

#[test]
fn mint_by_other_than_admin_fails() {
    let mut t = ledger();
    assert_eq!(t.mint(&as_caller(ALICE, 1), ALICE, 10), Err(ContractError::Unauthorized));
    assert_eq!(t.balance(ALICE), 0);
    assert_eq!(t.total_supply(), 0);
    assert_eq!(t.take_events(), vec![]);
}

#[test]
fn mint_of_non_positive_amount_fails() {
    let mut t = ledger();
    assert_eq!(t.mint(&as_caller(ADMIN, 1), ALICE, 0), Err(ContractError::NonPositiveAmount));
    assert_eq!(t.mint(&as_caller(ADMIN, 1), ALICE, -5), Err(ContractError::NonPositiveAmount));
    assert_eq!(t.total_supply(), 0);
}

#[test]
fn mint_beyond_range_fails() {
    let mut t = ledger();
    assert_eq!(t.mint(&as_caller(ADMIN, 1), ALICE, i128::MAX), Ok(()));
    assert_eq!(t.mint(&as_caller(ADMIN, 1), BOB, 1), Err(ContractError::ArithmeticOverflow));
    assert_eq!(t.total_supply(), i128::MAX);
    assert_eq!(t.balance(BOB), 0);
}

#[test]
fn burn_lowers_balance_and_supply() {
    let mut t = funded();
    assert_eq!(t.burn(&as_caller(ALICE, 1), ALICE, 400), Ok(()));
    assert_eq!(t.balance(ALICE), 600);
    assert_eq!(t.total_supply(), 600);
    assert_eq!(
        t.take_events(),
        vec![
            TokenEvent::Mint { to: ALICE, amount: 1000 },
            TokenEvent::Burn { from: ALICE, amount: 400 },
        ]
    );
}

#[test]
fn burn_failures_change_nothing() {
    let mut t = funded();
    assert_eq!(t.burn(&as_caller(BOB, 1), ALICE, 1), Err(ContractError::Unauthorized));
    assert_eq!(t.burn(&as_caller(ALICE, 1), ALICE, 0), Err(ContractError::NonPositiveAmount));
    assert_eq!(t.burn(&as_caller(ALICE, 1), ALICE, 1001), Err(ContractError::InsufficientBalance));
    assert_eq!(t.balance(ALICE), 1000);
    assert_eq!(t.total_supply(), 1000);
}

#[test]
fn transfer_moves_balance() {
    let mut t = funded();
    assert_eq!(t.transfer(&as_caller(ALICE, 1), ALICE, BOB, 250), Ok(()));
    assert_eq!(t.balance(ALICE), 750);
    assert_eq!(t.balance(BOB), 250);
    assert_eq!(t.total_supply(), 1000);
    t.take_events();
    assert_eq!(t.transfer(&as_caller(BOB, 1), BOB, CAROL, 250), Ok(()));
    assert_eq!(t.balance(BOB), 0);
    assert_eq!(t.balance(CAROL), 250);
    assert_eq!(t.take_events(), vec![TokenEvent::Transfer { from: BOB, to: CAROL, amount: 250 }]);
}

#[test]
fn transfer_to_self_keeps_balance() {
    let mut t = funded();
    assert_eq!(t.transfer(&as_caller(ALICE, 1), ALICE, ALICE, 1000), Ok(()));
    assert_eq!(t.balance(ALICE), 1000);
    assert_eq!(t.total_supply(), 1000);
}

#[test]
fn transfer_failures_change_nothing() {
    let mut t = funded();
    assert_eq!(t.transfer(&as_caller(BOB, 1), ALICE, BOB, 1), Err(ContractError::Unauthorized));
    assert_eq!(t.transfer(&as_caller(ALICE, 1), ALICE, BOB, 0), Err(ContractError::NonPositiveAmount));
    assert_eq!(t.transfer(&as_caller(ALICE, 1), ALICE, BOB, -1), Err(ContractError::NonPositiveAmount));
    assert_eq!(
        t.transfer(&as_caller(ALICE, 1), ALICE, BOB, 1001),
        Err(ContractError::InsufficientBalance)
    );
    assert_eq!(t.balance(ALICE), 1000);
    assert_eq!(t.balance(BOB), 0);
}

#[test]
fn approve_records_allowance() {
    let mut t = funded();
    assert_eq!(t.approve(&as_caller(ALICE, 5), ALICE, BOB, 300, 20), Ok(()));
    assert_eq!(t.allowance(&as_caller(CAROL, 5), ALICE, BOB), 300);
    assert_eq!(t.allowance(&as_caller(CAROL, 5), BOB, ALICE), 0);
    assert_eq!(t.allowance_record(ALICE, BOB), Some(Allowance { amount: 300, expiration_ledger: 20 }));
    assert_eq!(t.approve(&as_caller(ALICE, 6), ALICE, BOB, 50, 30), Ok(()));
    assert_eq!(t.allowance(&as_caller(CAROL, 6), ALICE, BOB), 50);
    assert_eq!(t.allowance_record(ALICE, BOB), Some(Allowance { amount: 50, expiration_ledger: 30 }));
    t.take_events();
    assert_eq!(t.approve(&as_caller(ALICE, 6), ALICE, CAROL, 7, 8), Ok(()));
    assert_eq!(
        t.take_events(),
        vec![TokenEvent::Approve { from: ALICE, spender: CAROL, amount: 7, expiration_ledger: 8 }]
    );
}

#[test]
fn approve_with_expiration_not_in_future_fails() {
    let mut t = funded();
    assert_eq!(t.approve(&as_caller(ALICE, 5), ALICE, BOB, 300, 20), Ok(()));
    assert_eq!(
        t.approve(&as_caller(ALICE, 10), ALICE, BOB, 999, 9),
        Err(ContractError::ExpirationNotInFuture)
    );
    assert_eq!(
        t.approve(&as_caller(ALICE, 10), ALICE, BOB, 999, 10),
        Err(ContractError::ExpirationNotInFuture)
    );
    assert_eq!(t.allowance(&as_caller(ALICE, 10), ALICE, BOB), 300);
    assert_eq!(t.allowance_record(ALICE, BOB), Some(Allowance { amount: 300, expiration_ledger: 20 }));
    assert_eq!(t.approve(&as_caller(ALICE, 10), ALICE, BOB, 999, 11), Ok(()));
    assert_eq!(t.allowance(&as_caller(ALICE, 10), ALICE, BOB), 999);
}

#[test]
fn approve_by_other_than_owner_fails() {
    let mut t = funded();
    assert_eq!(t.approve(&as_caller(BOB, 5), ALICE, BOB, 300, 20), Err(ContractError::Unauthorized));
    assert_eq!(t.allowance(&as_caller(BOB, 5), ALICE, BOB), 0);
}

#[test]
fn expired_allowance_is_void() {
    let mut t = funded();
    assert_eq!(t.approve(&as_caller(ALICE, 5), ALICE, BOB, 300, 20), Ok(()));
    assert_eq!(t.allowance(&as_caller(BOB, 20), ALICE, BOB), 300);
    assert_eq!(t.allowance(&as_caller(BOB, 21), ALICE, BOB), 0);
    assert_eq!(
        t.transfer_from(&as_caller(BOB, 21), BOB, ALICE, BOB, 1),
        Err(ContractError::InsufficientAllowance)
    );
    assert_eq!(t.transfer_from(&as_caller(BOB, 20), BOB, ALICE, BOB, 1), Ok(()));
    assert_eq!(t.balance(BOB), 1);
}

#[test]
fn transfer_from_spends_allowance_and_moves_balance() {
    let mut t = funded();
    assert_eq!(t.approve(&as_caller(ALICE, 5), ALICE, BOB, 300, 20), Ok(()));
    t.take_events();
    assert_eq!(t.transfer_from(&as_caller(BOB, 6), BOB, ALICE, CAROL, 120), Ok(()));
    assert_eq!(t.allowance(&as_caller(BOB, 6), ALICE, BOB), 180);
    assert_eq!(t.allowance_record(ALICE, BOB), Some(Allowance { amount: 180, expiration_ledger: 20 }));
    assert_eq!(t.balance(ALICE), 880);
    assert_eq!(t.balance(CAROL), 120);
    assert_eq!(t.balance(BOB), 0);
    assert_eq!(t.total_supply(), 1000);
    assert_eq!(t.take_events(), vec![TokenEvent::Transfer { from: ALICE, to: CAROL, amount: 120 }]);
}

#[test]
fn transfer_from_failures_change_nothing() {
    let mut t = funded();
    assert_eq!(t.approve(&as_caller(ALICE, 5), ALICE, BOB, 2000, 20), Ok(()));
    assert_eq!(
        t.transfer_from(&as_caller(CAROL, 6), BOB, ALICE, CAROL, 10),
        Err(ContractError::Unauthorized)
    );
    assert_eq!(
        t.transfer_from(&as_caller(BOB, 6), BOB, ALICE, CAROL, 2001),
        Err(ContractError::InsufficientAllowance)
    );
    assert_eq!(
        t.transfer_from(&as_caller(BOB, 6), BOB, ALICE, CAROL, 1001),
        Err(ContractError::InsufficientBalance)
    );
    assert_eq!(
        t.transfer_from(&as_caller(CAROL, 6), CAROL, ALICE, CAROL, 1),
        Err(ContractError::InsufficientAllowance)
    );
    assert_eq!(t.allowance(&as_caller(BOB, 6), ALICE, BOB), 2000);
    assert_eq!(t.balance(ALICE), 1000);
    assert_eq!(t.balance(CAROL), 0);
}

#[test]
fn transfer_from_of_negative_amount_fails() {
    let mut t = funded();
    assert_eq!(t.mint(&as_caller(ADMIN, 1), CAROL, 50), Ok(()));
    assert_eq!(t.approve(&as_caller(ALICE, 5), ALICE, BOB, 300, 20), Ok(()));
    assert_eq!(
        t.transfer_from(&as_caller(BOB, 6), BOB, ALICE, CAROL, -10),
        Err(ContractError::NegativeAmount)
    );
    assert_eq!(t.allowance(&as_caller(BOB, 6), ALICE, BOB), 300);
    assert_eq!(t.balance(ALICE), 1000);
    assert_eq!(t.balance(CAROL), 50);
}

#[test]
fn transfer_from_of_zero_moves_nothing() {
    let mut t = funded();
    assert_eq!(t.transfer_from(&as_caller(BOB, 6), BOB, ALICE, CAROL, 0), Ok(()));
    assert_eq!(t.balance(ALICE), 1000);
    assert_eq!(t.balance(CAROL), 0);
    assert_eq!(t.allowance(&as_caller(BOB, 6), ALICE, BOB), 0);
    assert_eq!(t.allowance_record(ALICE, BOB), None);
}

#[test]
fn burn_from_spends_allowance_and_supply() {
    let mut t = funded();
    assert_eq!(t.approve(&as_caller(ALICE, 1), ALICE, BOB, 500, 10), Ok(()));
    t.take_events();
    assert_eq!(t.burn_from(&as_caller(BOB, 5), BOB, ALICE, 200), Ok(()));
    assert_eq!(t.allowance(&as_caller(BOB, 5), ALICE, BOB), 300);
    assert_eq!(t.balance(ALICE), 800);
    assert_eq!(t.total_supply(), 800);
    assert_eq!(t.take_events(), vec![TokenEvent::Burn { from: ALICE, amount: 200 }]);
}

#[test]
fn burn_from_failures_change_nothing() {
    let mut t = funded();
    assert_eq!(t.approve(&as_caller(ALICE, 1), ALICE, BOB, 5000, 10), Ok(()));
    assert_eq!(t.burn_from(&as_caller(ALICE, 5), BOB, ALICE, 1), Err(ContractError::Unauthorized));
    assert_eq!(t.burn_from(&as_caller(BOB, 5), BOB, ALICE, -1), Err(ContractError::NegativeAmount));
    assert_eq!(
        t.burn_from(&as_caller(BOB, 5), BOB, ALICE, 5001),
        Err(ContractError::InsufficientAllowance)
    );
    assert_eq!(
        t.burn_from(&as_caller(BOB, 5), BOB, ALICE, 1001),
        Err(ContractError::InsufficientBalance)
    );
    assert_eq!(t.burn_from(&as_caller(BOB, 11), BOB, ALICE, 1), Err(ContractError::InsufficientAllowance));
    assert_eq!(t.allowance(&as_caller(BOB, 5), ALICE, BOB), 5000);
    assert_eq!(t.balance(ALICE), 1000);
    assert_eq!(t.total_supply(), 1000);
}

#[test]
fn negative_allowance_permits_nothing() {
    let mut t = funded();
    assert_eq!(t.approve(&as_caller(ALICE, 1), ALICE, BOB, -5, 10), Ok(()));
    assert_eq!(t.allowance(&as_caller(BOB, 1), ALICE, BOB), -5);
    assert_eq!(
        t.transfer_from(&as_caller(BOB, 2), BOB, ALICE, BOB, 0),
        Err(ContractError::InsufficientAllowance)
    );
}

#[test]
fn set_admin_hands_over() {
    let mut t = ledger();
    assert_eq!(t.set_admin(&as_caller(ALICE, 1), ALICE), Err(ContractError::Unauthorized));
    assert_eq!(t.admin(), Ok(ADMIN));
    assert_eq!(t.set_admin(&as_caller(ADMIN, 1), ALICE), Ok(()));
    assert_eq!(t.admin(), Ok(ALICE));
    assert_eq!(t.mint(&as_caller(ADMIN, 1), BOB, 1), Err(ContractError::Unauthorized));
    assert_eq!(t.mint(&as_caller(ALICE, 1), BOB, 1), Ok(()));
}

#[test]
fn set_admin_needs_initialized_ledger() {
    let mut t = TokenContract::new();
    assert_eq!(t.set_admin(&as_caller(ADMIN, 1), ALICE), Err(ContractError::NotInitialized));
}

#[test]
fn supply_is_sum_of_balances_through_a_run() {
    let mut t = ledger();
    let sum = |t: &TokenContract| t.balance(ADMIN) + t.balance(ALICE) + t.balance(BOB) + t.balance(CAROL);
    assert_eq!(t.total_supply(), sum(&t));
    t.mint(&as_caller(ADMIN, 1), ALICE, 1000).unwrap();
    assert_eq!(t.total_supply(), sum(&t));
    t.mint(&as_caller(ADMIN, 1), BOB, 77).unwrap();
    assert_eq!(t.total_supply(), sum(&t));
    t.transfer(&as_caller(ALICE, 1), ALICE, CAROL, 333).unwrap();
    assert_eq!(t.total_supply(), sum(&t));
    t.approve(&as_caller(CAROL, 1), CAROL, BOB, 100, 9).unwrap();
    t.transfer_from(&as_caller(BOB, 2), BOB, CAROL, ADMIN, 40).unwrap();
    assert_eq!(t.total_supply(), sum(&t));
    t.burn_from(&as_caller(BOB, 2), BOB, CAROL, 60).unwrap();
    assert_eq!(t.total_supply(), sum(&t));
    t.burn(&as_caller(ALICE, 2), ALICE, 667).unwrap();
    assert_eq!(t.total_supply(), sum(&t));
    assert!(t.transfer(&as_caller(ALICE, 2), ALICE, BOB, 1).is_err());
    assert_eq!(t.total_supply(), sum(&t));
    assert_eq!(t.total_supply(), 1000 + 77 - 60 - 667);
    assert_eq!(t.balance(ALICE), 0);
    assert_eq!(t.balance(BOB), 77);
    assert_eq!(t.balance(CAROL), 233);
    assert_eq!(t.balance(ADMIN), 40);
}

#[test]
fn take_events_clears_the_record() {
    let mut t = funded();
    assert_eq!(t.take_events(), vec![TokenEvent::Mint { to: ALICE, amount: 1000 }]);
    assert_eq!(t.take_events(), vec![]);
    assert_eq!(t.balance(ALICE), 1000);
}

#[test]
fn restore_rebuilds_ledger() {
    let balances = vec![(ALICE, 600), (BOB, 400), (CAROL, 0)];
    let allowances = vec![
        (ALICE, BOB, Allowance { amount: 10, expiration_ledger: 5 }),
        (ALICE, CAROL, Allowance { amount: 20, expiration_ledger: 9 }),
        (ALICE, BOB, Allowance { amount: 30, expiration_ledger: 7 }),
    ];
    let mut t = TokenContract::restore(
        Some(ADMIN),
        2,
        "Gold".to_string(),
        "GLD".to_string(),
        &balances,
        &allowances,
    )
    .unwrap();
    assert_eq!(t.admin(), Ok(ADMIN));
    assert_eq!(t.decimals(), 2);
    assert_eq!(t.name(), "Gold");
    assert_eq!(t.symbol(), "GLD");
    assert_eq!(t.total_supply(), 1000);
    assert_eq!(t.balance(ALICE), 600);
    assert_eq!(t.balance(BOB), 400);
    assert_eq!(t.balance(CAROL), 0);
    assert_eq!(t.allowance_record(ALICE, BOB), Some(Allowance { amount: 30, expiration_ledger: 7 }));
    assert_eq!(t.allowance(&as_caller(BOB, 8), ALICE, BOB), 0);
    assert_eq!(t.allowance(&as_caller(BOB, 8), ALICE, CAROL), 20);
    assert_eq!(t.take_events(), vec![]);
    assert_eq!(t.transfer(&as_caller(BOB, 8), BOB, CAROL, 400), Ok(()));
    assert_eq!(t.balance(CAROL), 400);
}

#[test]
fn restore_refuses_bad_records() {
    let none: Vec<(Address, Address, Allowance)> = vec![];
    let make = |admin: Option<Address>, balances: Vec<(Address, i128)>| {
        TokenContract::restore(admin, 7, "T".to_string(), "T".to_string(), &balances, &none).is_some()
    };
    assert!(make(Some(ADMIN), vec![]));
    assert!(make(None, vec![]));
    assert!(make(None, vec![(ALICE, 0)]));
    assert!(make(Some(ADMIN), vec![(ALICE, i128::MAX), (BOB, 0)]));
    assert!(!make(None, vec![(ALICE, 1)]));
    assert!(!make(Some(ADMIN), vec![(ALICE, -1)]));
    assert!(!make(Some(ADMIN), vec![(ALICE, 1), (BOB, 2), (ALICE, 3)]));
    assert!(!make(Some(ADMIN), vec![(ALICE, i128::MAX), (BOB, 1)]));
}
