use profit_dao::{
    DAOContract, Error, PaymentContract, ProfitDistributionContract, ProfitTokenContract,
};

const DAO: u64 = 100;
const TOKEN: u64 = 200;
const BANK: u64 = 300;
const CREATOR: u64 = 1;
const A: u64 = 10;
const B: u64 = 11;
const C: u64 = 12;

fn with_shares(shares: &[(u64, u64)]) -> (DAOContract, ProfitTokenContract) {
    let mut token = ProfitTokenContract::new(TOKEN);
    token.initialize_ptc(DAO).unwrap();
    let mut dao = DAOContract::new(DAO);
    dao.initialize("Fund".to_string(), "x".to_string(), 0, CREATOR, TOKEN).unwrap();
    for &(who, amount) in shares {
        dao.invest(&mut token, who, who, amount).unwrap();
    }
    (dao, token)
}

fn bank_with(amount: i128) -> PaymentContract {
    let mut bank = PaymentContract::new(BANK);
    bank.deposit(BANK, BANK, amount).unwrap();
    bank
}

#[test]
fn distribute_even_split() {
    let (dao, token) = with_shares(&[(A, 60), (B, 40)]);
    let mut bank = bank_with(1000);
    assert_eq!(ProfitDistributionContract::distribute(&dao, &token, &mut bank, 1000), Ok(()));
    assert_eq!(bank.get_balance(A), 600);
    assert_eq!(bank.get_balance(B), 400);
    assert_eq!(bank.get_balance(BANK), 0);
}

#[test]
fn distribute_keeps_rounding_remainder() {
    let (dao, token) = with_shares(&[(A, 1), (B, 2)]);
    assert_eq!(token.total_supply(), 3);
    let mut bank = bank_with(10);
    assert_eq!(ProfitDistributionContract::distribute(&dao, &token, &mut bank, 10), Ok(()));
    assert_eq!(bank.get_balance(A), 3);
    assert_eq!(bank.get_balance(B), 6);
    assert_eq!(bank.get_balance(A) + bank.get_balance(B), 9);
    assert_eq!(bank.get_balance(BANK), 1);
}

#[test]
fn distribute_follows_current_token_balances() {
    let (dao, mut token) = with_shares(&[(A, 50), (B, 50)]);
    token.transfer(B, B, A, 25).unwrap();
    let mut bank = bank_with(100);
    ProfitDistributionContract::distribute(&dao, &token, &mut bank, 100).unwrap();
    assert_eq!(bank.get_balance(A), 75);
    assert_eq!(bank.get_balance(B), 25);
}

#[test]
fn distribute_with_zero_supply_fails_division_by_zero() {
    let (dao, token) = with_shares(&[]);
    let mut bank = bank_with(10);
    let r = ProfitDistributionContract::distribute(&dao, &token, &mut bank, 10);
    assert_eq!(r, Err(Error::DivisionByZero));
    assert_eq!(bank.get_balance(BANK), 10);
}

#[test]
fn distribute_stops_at_failed_payment_keeping_earlier_ones() {
    let (dao, token) = with_shares(&[(A, 60), (B, 40)]);
    let mut bank = bank_with(700);
    let r = ProfitDistributionContract::distribute(&dao, &token, &mut bank, 1000);
    assert_eq!(r, Err(Error::InsufficientBalance));
    assert_eq!(bank.get_balance(A), 600);
    assert_eq!(bank.get_balance(B), 0);
    assert_eq!(bank.get_balance(BANK), 100);
}

#[test]
fn distribute_stops_at_zero_payout() {
    let (dao, mut token) = with_shares(&[(A, 1), (B, 99), (C, 1)]);
    token.transfer(A, A, B, 1).unwrap();
    let mut bank = bank_with(1000);
    let r = ProfitDistributionContract::distribute(&dao, &token, &mut bank, 100);
    assert_eq!(r, Err(Error::InvalidAmount));
    assert_eq!(bank.get_balance(B), 0);
    assert_eq!(bank.get_balance(BANK), 1000);
}

#[test]
fn share_of_rounds_down() {
    assert_eq!(ProfitDistributionContract::share_of(10, 1, 3), Some(3));
    assert_eq!(ProfitDistributionContract::share_of(10, 2, 3), Some(6));
    assert_eq!(ProfitDistributionContract::share_of(1000, 60, 100), Some(600));
    assert_eq!(ProfitDistributionContract::share_of(7, 0, 5), Some(0));
    assert_eq!(ProfitDistributionContract::share_of(u64::MAX, 5, 5), Some(u64::MAX));
}

#[test]
fn share_of_with_too_large_product_is_none() {
    let big = i128::MAX;
    assert_eq!(ProfitDistributionContract::share_of(u64::MAX, big, big), None);
}
