use profit_dao::{DAOContract, Error, PaymentContract, ProfitTokenContract};

const DAO: u64 = 100;
const TOKEN: u64 = 200;
const BANK: u64 = 300;
const CREATOR: u64 = 1;
const A: u64 = 10;
const B: u64 = 11;
const C: u64 = 12;

fn campaign() -> (DAOContract, ProfitTokenContract) {
    let mut token = ProfitTokenContract::new(TOKEN);
    token.initialize_ptc(DAO).unwrap();
    let mut dao = DAOContract::new(DAO);
    dao.initialize("Solar".to_string(), "Rooftop panels".to_string(), 1000, CREATOR, TOKEN)
        .unwrap();
    (dao, token)
}

#[test]
fn initialize_records_setup() {
    let (dao, _) = campaign();
    assert_eq!(dao.get_name(), "Solar");
    assert_eq!(dao.get_description(), "Rooftop panels");
    assert_eq!(dao.get_funding_goal(), 1000);
    assert_eq!(dao.get_creator(), CREATOR);
    assert_eq!(dao.get_token_contract(), TOKEN);
    assert_eq!(dao.get_total_raised(), 0);
    assert_eq!(dao.get_proposals_count(), 0);
    assert!(dao.get_investors().is_empty());
    assert!(dao.get_distribution_history().is_empty());
}

#[test]
fn initialize_twice_fails_already_initialized() {
    let (mut dao, _) = campaign();
    let r = dao.initialize("Other".to_string(), "x".to_string(), 5, A, B);
    assert_eq!(r, Err(Error::AlreadyInitialized));
    assert_eq!(dao.get_name(), "Solar");
    assert_eq!(dao.get_funding_goal(), 1000);
}

#[test]
fn invest_twice_accumulates_once_per_investor() {
    let (mut dao, mut token) = campaign();
    assert_eq!(dao.invest(&mut token, A, A, 100), Ok(()));
    assert_eq!(dao.invest(&mut token, A, A, 50), Ok(()));
    assert_eq!(dao.get_investments(), vec![(A, 150)]);
    assert_eq!(dao.get_total_raised(), 150);
    assert_eq!(dao.get_investors(), vec![A]);
    assert_eq!(token.balance(A), 150);
    assert_eq!(dao.get_voting_power(&token, A), 150);
    assert_eq!(token.total_supply(), 150);
}

#[test]
fn investors_kept_in_first_investment_order() {
    let (mut dao, mut token) = campaign();
    dao.invest(&mut token, B, B, 5).unwrap();
    dao.invest(&mut token, A, A, 7).unwrap();
    dao.invest(&mut token, B, B, 1).unwrap();
    assert_eq!(dao.get_investors(), vec![B, A]);
    assert_eq!(dao.get_investments(), vec![(B, 6), (A, 7)]);
    assert_eq!(dao.get_total_raised(), 13);
}

#[test]
fn invest_errors_leave_no_trace() {
    let (mut dao, mut token) = campaign();
    assert_eq!(dao.invest(&mut token, B, A, 10), Err(Error::NotAuthenticated));
    assert_eq!(dao.invest(&mut token, A, A, 0), Err(Error::InvalidAmount));
    assert_eq!(dao.get_total_raised(), 0);
    assert!(dao.get_investors().is_empty());
    assert_eq!(token.total_supply(), 0);
}

#[test]
fn invest_fails_when_mint_fails() {
    let mut token = ProfitTokenContract::new(TOKEN);
    token.initialize_ptc(C).unwrap();
    let mut dao = DAOContract::new(DAO);
    dao.initialize("Solar".to_string(), "x".to_string(), 10, CREATOR, TOKEN).unwrap();
    assert_eq!(dao.invest(&mut token, A, A, 10), Err(Error::NotAuthenticated));
    assert_eq!(dao.get_total_raised(), 0);
    assert!(dao.get_investors().is_empty());
    assert_eq!(token.balance(A), 0);
}

#[test]
fn invest_past_the_largest_total_fails_overflow() {
    let (mut dao, mut token) = campaign();
    dao.invest(&mut token, A, A, u64::MAX).unwrap();
    assert_eq!(dao.invest(&mut token, B, B, 1), Err(Error::Overflow));
    assert_eq!(dao.get_total_raised(), u64::MAX);
    assert_eq!(token.balance(B), 0);
}

#[test]
fn funding_goal_reached_at_goal() {
    let (mut dao, mut token) = campaign();
    dao.invest(&mut token, A, A, 999).unwrap();
    assert!(!dao.is_funding_goal_reached());
    dao.invest(&mut token, B, B, 1).unwrap();
    assert!(dao.is_funding_goal_reached());
}

#[test]
fn create_proposal_assigns_consecutive_ids() {
    let (mut dao, _) = campaign();
    assert_eq!(dao.create_proposal("buy_panels".to_string()), 0);
    assert_eq!(dao.create_proposal("hire_crew".to_string()), 1);
    assert_eq!(dao.get_proposals_count(), 2);
    assert_eq!(dao.get_proposal_details(1), Ok("hire_crew".to_string()));
    assert_eq!(dao.get_proposal_votes(0), Ok(0));
    assert_eq!(dao.get_proposal_executed(0), Ok(false));
}

#[test]
fn proposal_getters_on_unknown_id_fail_not_found() {
    let (dao, _) = campaign();
    assert_eq!(dao.get_proposal_details(0), Err(Error::NotFound));
    assert_eq!(dao.get_proposal_votes(3), Err(Error::NotFound));
    assert_eq!(dao.get_proposal_executed(3), Err(Error::NotFound));
}

#[test]
fn vote_tally_and_revote() {
    let (mut dao, mut token) = campaign();
    dao.invest(&mut token, A, A, 100).unwrap();
    dao.invest(&mut token, B, B, 50).unwrap();
    let p = dao.create_proposal("buy_panels".to_string());
    assert_eq!(dao.vote(&token, A, A, p, true), Ok(()));
    assert_eq!(dao.vote(&token, B, B, p, false), Ok(()));
    assert_eq!(dao.get_proposal_votes(p), Ok(50));
    assert_eq!(dao.vote(&token, A, A, p, true), Ok(()));
    assert_eq!(dao.get_proposal_votes(p), Ok(150));
}

#[test]
fn vote_uses_current_balance() {
    let (mut dao, mut token) = campaign();
    dao.invest(&mut token, A, A, 100).unwrap();
    let p = dao.create_proposal("x".to_string());
    token.transfer(A, A, B, 60).unwrap();
    dao.vote(&token, A, A, p, true).unwrap();
    dao.vote(&token, B, B, p, true).unwrap();
    assert_eq!(dao.get_proposal_votes(p), Ok(100));
}

#[test]
fn vote_errors() {
    let (mut dao, mut token) = campaign();
    dao.invest(&mut token, A, A, 100).unwrap();
    let p = dao.create_proposal("x".to_string());
    assert_eq!(dao.vote(&token, B, A, p, true), Err(Error::NotAuthenticated));
    assert_eq!(dao.vote(&token, A, A, 7, true), Err(Error::NotFound));
    assert_eq!(dao.vote(&token, C, C, p, true), Err(Error::InsufficientBalance));
    assert_eq!(dao.get_proposal_votes(p), Ok(0));
}

fn approved_campaign() -> (DAOContract, ProfitTokenContract, PaymentContract, u64) {
    let (mut dao, mut token) = campaign();
    dao.invest(&mut token, A, A, 100).unwrap();
    dao.invest(&mut token, B, B, 50).unwrap();
    let p = dao.create_proposal("buy_panels".to_string());
    dao.vote(&token, A, A, p, true).unwrap();
    dao.vote(&token, B, B, p, false).unwrap();
    let mut bank = PaymentContract::new(BANK);
    bank.deposit(BANK, BANK, 150).unwrap();
    (dao, token, bank, p)
}

#[test]
fn execute_pays_pot_once() {
    let (mut dao, token, mut bank, p) = approved_campaign();
    assert_eq!(dao.get_proposal_votes(p), Ok(50));
    assert_eq!(dao.execute_proposal(&mut bank, p), Ok(()));
    assert_eq!(dao.get_proposal_executed(p), Ok(true));
    assert_eq!(bank.get_balance(CREATOR), 150);
    assert_eq!(bank.get_balance(BANK), 0);
    assert_eq!(dao.execute_proposal(&mut bank, p), Err(Error::AlreadyExecuted));
    assert_eq!(bank.get_balance(CREATOR), 150);
    assert_eq!(dao.vote(&token, A, A, p, true), Err(Error::AlreadyExecuted));
    assert_eq!(dao.get_proposal_votes(p), Ok(50));
}

#[test]
fn execute_without_positive_tally_fails_not_approved() {
    let (mut dao, token, mut bank, _) = approved_campaign();
    let q = dao.create_proposal("other".to_string());
    assert_eq!(dao.execute_proposal(&mut bank, q), Err(Error::NotApproved));
    dao.vote(&token, B, B, q, false).unwrap();
    assert_eq!(dao.execute_proposal(&mut bank, q), Err(Error::NotApproved));
    assert_eq!(dao.execute_proposal(&mut bank, 9), Err(Error::NotFound));
    assert_eq!(bank.get_balance(BANK), 150);
    assert_eq!(dao.get_proposal_executed(q), Ok(false));
}

#[test]
fn execute_fails_when_payout_fails() {
    let (mut dao, _, _, p) = approved_campaign();
    let mut poor = PaymentContract::new(BANK);
    poor.deposit(BANK, BANK, 149).unwrap();
    assert_eq!(dao.execute_proposal(&mut poor, p), Err(Error::InsufficientBalance));
    assert_eq!(dao.get_proposal_executed(p), Ok(false));
    assert_eq!(poor.get_balance(BANK), 149);
    assert_eq!(poor.get_balance(CREATOR), 0);
}

#[test]
fn second_approved_proposal_moves_whole_pot_again() {
    let (mut dao, token, mut bank, p) = approved_campaign();
    let q = dao.create_proposal("again".to_string());
    dao.vote(&token, A, A, q, true).unwrap();
    bank.deposit(BANK, BANK, 150).unwrap();
    dao.execute_proposal(&mut bank, p).unwrap();
    dao.execute_proposal(&mut bank, q).unwrap();
    assert_eq!(bank.get_balance(CREATOR), 300);
    assert_eq!(bank.get_balance(BANK), 0);
}

#[test]
fn distribution_history_appends() {
    let (mut dao, _) = campaign();
    dao.record_distribution(1_700_000_000, 500);
    dao.record_distribution(1_700_000_100, 20);
    assert_eq!(
        dao.get_distribution_history(),
        vec![(1_700_000_000, 500), (1_700_000_100, 20)]
    );
}
