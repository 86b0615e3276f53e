use azt::{transfer_balances, AccountId, Azt, Balance, Error};

fn alice() -> AccountId {
    AccountId { id: 1 }
}

fn bob() -> AccountId {
    AccountId { id: 2 }
}

fn carol() -> AccountId {
    AccountId { id: 3 }
}

#[test]
fn decimals_works() {
    // valid values
    let decimals_valid: u8 = 18;
    let azt_token = Azt::new(decimals_valid, 100_000_000, alice());
    assert_eq!(azt_token.decimals(), decimals_valid);

    // decimals greater than 18 are accepted verbatim
    let decimals_large: u8 = 19;
    let azt_token = Azt::new(decimals_large, 1_000_000_000, alice());
    assert_eq!(azt_token.decimals(), decimals_large);

    let decimals_small: u8 = 1i8 as u8;
    let azt_token = Azt::new(decimals_small, 1_000_000_000, alice());
    assert_eq!(azt_token.decimals(), decimals_small);
}

#[test]
fn total_supply_works() {
    let azt_token = Azt::new(18, 1_000_000_000, alice());
    assert_eq!(azt_token.total_supply(), 1_000_000_000);
}

#[test]
fn balance_of_works() {
    let azt_token = Azt::new(18, 1_000_000_000, alice());
    assert_eq!(azt_token.balance_of(alice()), 1_000_000_000);
    assert_eq!(azt_token.balance_of(bob()), 0);
}

#[test]
fn transfer_works() {
    let mut azt_token = Azt::new(18, 1_000_000_000, alice());

    assert_eq!(azt_token.balance_of(bob()), 0);
    assert_eq!(azt_token.transfer(alice(), bob(), 10), Ok(()));
    assert_eq!(azt_token.balance_of(bob()), 10);
}

#[test]
fn construction_deposits_full_supply() {
    let ledger = Azt::new(18, 1_000_000_000, alice());
    assert_eq!(ledger.decimals(), 18);
    assert_eq!(ledger.total_supply(), 1_000_000_000);
    assert_eq!(ledger.balance_of(alice()), 1_000_000_000);
    assert_eq!(ledger.balance_of(bob()), 0);
    assert_eq!(ledger.balance_of(carol()), 0);
}

#[test]
fn construction_accepts_zero_supply() {
    let ledger = Azt::new(0, 0, alice());
    assert_eq!(ledger.total_supply(), 0);
    assert_eq!(ledger.balance_of(alice()), 0);
}

#[test]
fn transfer_moves_value() {
    let mut ledger = Azt::new(18, 1_000_000_000, alice());
    assert_eq!(ledger.transfer(alice(), bob(), 10), Ok(()));
    assert_eq!(ledger.balance_of(bob()), 10);
    assert_eq!(ledger.balance_of(alice()), 999_999_990);
}

#[test]
fn insufficient_balance_leaves_ledger_unchanged() {
    let mut ledger = Azt::new(18, 5, alice());
    assert_eq!(
        ledger.transfer(alice(), bob(), 10),
        Err(Error::InsufficientBalance)
    );
    assert_eq!(ledger.balance_of(alice()), 5);
    assert_eq!(ledger.balance_of(bob()), 0);
}

#[test]
fn unknown_caller_cannot_send() {
    let mut ledger = Azt::new(18, 1_000, alice());
    assert_eq!(
        ledger.transfer(bob(), carol(), 1),
        Err(Error::InsufficientBalance)
    );
    assert_eq!(ledger.balance_of(alice()), 1_000);
    assert_eq!(ledger.balance_of(bob()), 0);
    assert_eq!(ledger.balance_of(carol()), 0);
}

#[test]
fn self_transfer_keeps_balance() {
    let mut ledger = Azt::new(6, 100, alice());
    assert_eq!(ledger.transfer(alice(), alice(), 40), Ok(()));
    assert_eq!(ledger.balance_of(alice()), 100);
    assert_eq!(ledger.total_supply(), 100);
}

#[test]
fn transfers_conserve_total_supply() {
    let mut ledger = Azt::new(18, 1_000, alice());
    assert_eq!(ledger.transfer(alice(), bob(), 300), Ok(()));
    assert_eq!(ledger.transfer(alice(), carol(), 200), Ok(()));
    assert_eq!(ledger.transfer(bob(), carol(), 50), Ok(()));
    assert_eq!(ledger.transfer(carol(), alice(), 250), Ok(()));
    let total: Balance =
        ledger.balance_of(alice()) + ledger.balance_of(bob()) + ledger.balance_of(carol());
    assert_eq!(total, ledger.total_supply());
}

#[test]
fn drained_account_holds_exactly_zero() {
    let mut ledger = Azt::new(18, 7, alice());
    assert_eq!(ledger.transfer(alice(), bob(), 7), Ok(()));
    assert_eq!(ledger.balance_of(alice()), 0);
    assert_eq!(ledger.balance_of(bob()), 7);
    // and a drained account cannot send anything but a zero-value transfer
    assert_eq!(ledger.transfer(alice(), bob(), 1), Err(Error::InsufficientBalance));
    assert_eq!(ledger.transfer(alice(), bob(), 0), Ok(()));
    assert_eq!(ledger.balance_of(bob()), 7);
}

#[test]
fn whole_supply_can_move() {
    let mut ledger = Azt::new(0, u128::MAX, alice());
    assert_eq!(ledger.transfer(alice(), bob(), u128::MAX), Ok(()));
    assert_eq!(ledger.balance_of(alice()), 0);
    assert_eq!(ledger.balance_of(bob()), u128::MAX);
}

#[test]
fn transfer_balances_moves_value() {
    assert_eq!(transfer_balances(7, 3, false, 6), Ok((1, 9)));
}

#[test]
fn transfer_balances_refuses_insufficient_balance() {
    assert_eq!(
        transfer_balances(5, 0, false, 10),
        Err(Error::InsufficientBalance)
    );
}

#[test]
fn transfer_balances_refuses_overflow() {
    assert_eq!(
        transfer_balances(5, u128::MAX, false, 1),
        Err(Error::Overflow)
    );
}

#[test]
fn transfer_balances_self_transfer() {
    // the debit is written first, then the credit lands on the same account
    assert_eq!(transfer_balances(100, 100, true, 40), Ok((60, 100)));
}
