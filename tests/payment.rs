use profit_dao::{Error, PaymentContract};

const BANK: u64 = 300;
const A: u64 = 10;
const B: u64 = 11;

#[test]
fn deposit_and_withdraw() {
    let mut p = PaymentContract::new(BANK);
    assert_eq!(p.deposit(A, A, 80), Ok(()));
    assert_eq!(p.withdraw(A, A, 30), Ok(()));
    assert_eq!(p.get_balance(A), 50);
}

#[test]
fn deposit_errors() {
    let mut p = PaymentContract::new(BANK);
    assert_eq!(p.deposit(B, A, 10), Err(Error::NotAuthenticated));
    assert_eq!(p.deposit(A, A, 0), Err(Error::InvalidAmount));
    p.deposit(A, A, i128::MAX).unwrap();
    assert_eq!(p.deposit(A, A, 1), Err(Error::Overflow));
    assert_eq!(p.get_balance(A), i128::MAX);
}

#[test]
fn withdraw_errors() {
    let mut p = PaymentContract::new(BANK);
    p.deposit(A, A, 10).unwrap();
    assert_eq!(p.withdraw(B, A, 5), Err(Error::NotAuthenticated));
    assert_eq!(p.withdraw(A, A, -1), Err(Error::InvalidAmount));
    assert_eq!(p.withdraw(A, A, 11), Err(Error::InsufficientBalance));
    assert_eq!(p.get_balance(A), 10);
}

#[test]
fn transfer_pays_out_of_own_balance() {
    let mut p = PaymentContract::new(BANK);
    p.deposit(BANK, BANK, 100).unwrap();
    assert_eq!(p.transfer(A, 40), Ok(()));
    assert_eq!(p.get_balance(BANK), 60);
    assert_eq!(p.get_balance(A), 40);
}

#[test]
fn payment_transfer_errors() {
    let mut p = PaymentContract::new(BANK);
    p.deposit(BANK, BANK, 100).unwrap();
    p.deposit(A, A, i128::MAX).unwrap();
    assert_eq!(p.transfer(B, 0), Err(Error::InvalidAmount));
    assert_eq!(p.transfer(B, 101), Err(Error::InsufficientBalance));
    assert_eq!(p.transfer(A, 1), Err(Error::Overflow));
    assert_eq!(p.get_balance(BANK), 100);
    assert_eq!(p.get_balance(B), 0);
}

#[test]
fn initialize_clears_balances() {
    let mut p = PaymentContract::new(BANK);
    p.deposit(A, A, 10).unwrap();
    p.initialize();
    assert_eq!(p.get_balance(A), 0);
    assert_eq!(p.address(), BANK);
}
