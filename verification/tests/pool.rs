use quorum_credit::host::{AddressList, VouchList};
use quorum_credit::insurance::{
    claim_insurance, contribute_to_insurance, get_insurance_pool_balance,
};
use quorum_credit::ledger::{Config, Ledger};
use quorum_credit::loan::request_loan;
use quorum_credit::repayment::repay;
use quorum_credit::types::{
    ContractError, Effect, Event, LoanStatus, Question, Stop, Terms, VouchRecord,
};
use soroban_sdk::{Env, String};

const CONTRACT: u64 = 0;
const TOKEN: u64 = 1;
const OTHER_TOKEN: u64 = 2;
const BORROWER: u64 = 10;
const NOW: u64 = 1_000_000;
const DURATION: u64 = 2_592_000;

fn vouch(voucher: u64, stake: i128, vouch_timestamp: u64, token: u64) -> VouchRecord {
    VouchRecord { voucher, stake, vouch_timestamp, token }
}

/// A contract in which the borrower has signed and is backed by two vouchers in
/// the main token and one in another.
fn ledger(env: &Env) -> Ledger {
    let config = Config {
        token: TOKEN,
        allowed_tokens: AddressList::new(env).with(OTHER_TOKEN),
        yield_bps: 200,
        min_loan_amount: 100,
        max_loan_to_stake_ratio: 150,
        loan_duration: DURATION,
    };
    let terms = Terms { min_vouch_age: 60, default_referral_bonus_bps: 100 };
    let mut l = Ledger::new(env.clone(), CONTRACT, NOW, terms, config);
    l.granted.push(BORROWER);
    l.contract_balance = Some(1_000_000);
    let list = VouchList::new(env)
        .with(vouch(20, 600, NOW - 60, TOKEN))
        .with(vouch(22, 5_000, NOW - 500, OTHER_TOKEN))
        .with(vouch(21, 400, 0, TOKEN));
    l.vouches.insert(BORROWER, list);
    l
}


/// Backs the borrower in the other token.
const VOUCHER: u64 = 22;
/// Backs the borrower in the main token.
const EARLIER: u64 = 20;

/// The contract after a loan of 1000 in the other token was written off, in a
/// call of the voucher who backed it.
fn with_default(env: &Env) -> Ledger {
    let mut l = ledger(env);
    let purpose = String::from_str(env, "tools");
    assert_eq!(request_loan(&mut l, BORROWER, 1_000, 1, purpose, OTHER_TOKEN), Ok(()));
    l.loans.get_mut(&1).unwrap().status = LoanStatus::Defaulted;
    l.active_loan.remove(&BORROWER);
    l.voucher_history.insert(VOUCHER, AddressList::new(env).with(77).with(BORROWER));
    l.granted = vec![VOUCHER];
    l.effects.clear();
    l
}

#[test]
fn contributions_raise_the_pool() {
    let env = Env::default();
    let mut l = ledger(&env);
    assert_eq!(get_insurance_pool_balance(&l), 0);
    assert_eq!(contribute_to_insurance(&mut l, BORROWER, 40), Ok(()));
    assert_eq!(contribute_to_insurance(&mut l, BORROWER, 2), Ok(()));
    assert_eq!(get_insurance_pool_balance(&l), 42);
    assert_eq!(
        l.effects[..2],
        [
            Effect::Transfer { token: TOKEN, from: BORROWER, to: CONTRACT, amount: 40 },
            Effect::Publish(Event::InsuranceContributed { contributor: BORROWER, amount: 40 }),
        ]
    );
}

#[test]
fn contributions_have_limits() {
    let env = Env::default();
    let mut l = ledger(&env);
    let wrong = Err(Stop::Error(ContractError::InvalidAmount));
    assert_eq!(contribute_to_insurance(&mut l, BORROWER, 0), wrong);
    assert_eq!(contribute_to_insurance(&mut l, BORROWER, -5), wrong);
    l.insurance_pool = Some(i128::MAX);
    assert_eq!(contribute_to_insurance(&mut l, BORROWER, 1), Err(Stop::Overflow));
    l.paused = true;
    assert_eq!(
        contribute_to_insurance(&mut l, BORROWER, 1),
        Err(Stop::Error(ContractError::ContractPaused))
    );
    assert_eq!(
        contribute_to_insurance(&mut l, VOUCHER, 1),
        Err(Stop::Ask(Question::Auth(VOUCHER)))
    );
    assert_eq!(get_insurance_pool_balance(&l), i128::MAX);
    assert!(l.effects.is_empty());
}

#[test]
fn claim_pays_the_loan() {
    let env = Env::default();
    let mut l = with_default(&env);
    l.insurance_pool = Some(1_500);
    assert_eq!(claim_insurance(&mut l, VOUCHER, 1), Ok(()));
    assert_eq!(get_insurance_pool_balance(&l), 500);
    assert_eq!(l.insurance_claim.get(&1), Some(&VOUCHER));
    assert_eq!(
        l.effects,
        vec![
            Effect::Transfer { token: OTHER_TOKEN, from: CONTRACT, to: VOUCHER, amount: 1_000 },
            Effect::Publish(Event::InsuranceClaimed { voucher: VOUCHER, loan_id: 1, payout: 1_000 }),
        ]
    );
}

#[test]
fn claim_pays_as_far_as_the_pool_reaches() {
    let env = Env::default();
    let mut l = with_default(&env);
    l.insurance_pool = Some(300);
    assert_eq!(claim_insurance(&mut l, VOUCHER, 1), Ok(()));
    assert_eq!(get_insurance_pool_balance(&l), 0);
    assert_eq!(
        l.effects[0],
        Effect::Transfer { token: OTHER_TOKEN, from: CONTRACT, to: VOUCHER, amount: 300 }
    );
}

#[test]
fn one_claim_for_each_loan() {
    let env = Env::default();
    let mut l = with_default(&env);
    l.insurance_pool = Some(3_000);
    assert_eq!(claim_insurance(&mut l, VOUCHER, 1), Ok(()));
    let made = Err(Stop::Error(ContractError::InsuranceClaimAlreadyMade));
    assert_eq!(claim_insurance(&mut l, VOUCHER, 1), made);
    l.granted = vec![21];
    assert_eq!(claim_insurance(&mut l, 21, 1), made);
    assert_eq!(get_insurance_pool_balance(&l), 2_000);
}

#[test]
fn vouching_for_the_borrower_is_not_enough() {
    let env = Env::default();
    let mut l = with_default(&env);
    l.insurance_pool = Some(1_500);
    // Staked for the borrower, but in another token than the loan's.
    l.voucher_history.insert(EARLIER, AddressList::new(&env).with(BORROWER));
    l.granted = vec![EARLIER];
    let stranger = Err(Stop::Error(ContractError::UnauthorizedCaller));
    assert_eq!(claim_insurance(&mut l, EARLIER, 1), stranger);
    assert_eq!(get_insurance_pool_balance(&l), 1_500);
    assert!(l.insurance_claim.is_empty());
    assert!(l.effects.is_empty());
    // The loan's own voucher is still paid.
    l.granted = vec![VOUCHER];
    assert_eq!(claim_insurance(&mut l, VOUCHER, 1), Ok(()));
}

#[test]
fn voucher_of_an_earlier_loan_is_refused() {
    let env = Env::default();
    let mut l = ledger(&env);
    let purpose = String::from_str(&env, "tools");
    assert_eq!(request_loan(&mut l, BORROWER, 1_000, 1, purpose, TOKEN), Ok(()));
    assert_eq!(repay(&mut l, BORROWER, 1_020), Ok(()));
    l.vouches.insert(BORROWER, VouchList::new(&env).with(vouch(21, 900, 0, TOKEN)));
    let purpose = String::from_str(&env, "seeds");
    assert_eq!(request_loan(&mut l, BORROWER, 500, 1, purpose, TOKEN), Ok(()));
    l.loans.get_mut(&2).unwrap().status = LoanStatus::Defaulted;
    l.insurance_pool = Some(700);
    l.effects.clear();
    for v in [EARLIER, 21] {
        l.voucher_history.insert(v, AddressList::new(&env).with(BORROWER));
    }
    l.granted = vec![EARLIER];
    assert_eq!(
        claim_insurance(&mut l, EARLIER, 2),
        Err(Stop::Error(ContractError::UnauthorizedCaller))
    );
    assert_eq!(get_insurance_pool_balance(&l), 700);
    assert!(l.insurance_claim.is_empty());
    l.granted = vec![21];
    assert_eq!(claim_insurance(&mut l, 21, 2), Ok(()));
    assert_eq!(get_insurance_pool_balance(&l), 200);
}

/// The contract after a default, in a call of somebody who has vouched for the
/// borrower since.
fn with_late_vouch(env: &Env, voucher: u64, vouch_timestamp: u64, token: u64) -> Ledger {
    let mut l = with_default(env);
    l.insurance_pool = Some(1_500);
    let late = vouch(voucher, 900, vouch_timestamp, token);
    l.vouches.insert(BORROWER, VouchList::new(env).with(vouch(21, 400, 0, TOKEN)).with(late));
    l.voucher_history.insert(voucher, AddressList::new(env).with(BORROWER));
    l.granted = vec![voucher];
    l
}

#[test]
fn later_vouches_in_the_loans_token_count() {
    let env = Env::default();
    let mut l = with_late_vouch(&env, 40, NOW + 1, OTHER_TOKEN);
    assert_eq!(claim_insurance(&mut l, 40, 1), Ok(()));
    assert_eq!(get_insurance_pool_balance(&l), 500);
    assert_eq!(l.insurance_claim.get(&1), Some(&40));
    // Up to the deadline, and not beyond it.
    let mut l = with_late_vouch(&env, 40, NOW + DURATION, OTHER_TOKEN);
    assert_eq!(claim_insurance(&mut l, 40, 1), Ok(()));
    let stranger = Err(Stop::Error(ContractError::UnauthorizedCaller));
    let mut l = with_late_vouch(&env, 40, NOW + DURATION + 1, OTHER_TOKEN);
    assert_eq!(claim_insurance(&mut l, 40, 1), stranger);
    // In another token they do not count.
    let mut l = with_late_vouch(&env, 40, NOW + 1, TOKEN);
    assert_eq!(claim_insurance(&mut l, 40, 1), stranger);
    assert_eq!(get_insurance_pool_balance(&l), 1_500);
}

#[test]
fn a_late_voucher_still_needs_a_history() {
    let env = Env::default();
    let mut l = with_late_vouch(&env, 40, NOW + 1, OTHER_TOKEN);
    l.voucher_history.remove(&40);
    assert_eq!(
        claim_insurance(&mut l, 40, 1),
        Err(Stop::Error(ContractError::UnauthorizedCaller))
    );
}

#[test]
fn voucher_of_the_next_loan_is_refused() {
    let env = Env::default();
    let mut l = with_late_vouch(&env, 40, NOW - 60, OTHER_TOKEN);
    l.granted = vec![BORROWER];
    let purpose = String::from_str(&env, "seeds");
    assert_eq!(request_loan(&mut l, BORROWER, 500, 1, purpose, OTHER_TOKEN), Ok(()));
    l.granted = vec![40];
    assert_eq!(
        claim_insurance(&mut l, 40, 1),
        Err(Stop::Error(ContractError::UnauthorizedCaller))
    );
    l.loans.get_mut(&2).unwrap().status = LoanStatus::Defaulted;
    assert_eq!(claim_insurance(&mut l, 40, 2), Ok(()));
    assert_eq!(get_insurance_pool_balance(&l), 1_000);
}

#[test]
fn without_a_record_of_backers_the_history_decides() {
    let env = Env::default();
    let mut l = with_default(&env);
    l.insurance_pool = Some(1_500);
    l.loan_vouchers.remove(&1);
    l.vouches.remove(&BORROWER);
    l.voucher_history.insert(41, AddressList::new(&env).with(77));
    l.granted = vec![41];
    assert_eq!(
        claim_insurance(&mut l, 41, 1),
        Err(Stop::Error(ContractError::UnauthorizedCaller))
    );
    l.granted = vec![VOUCHER];
    assert_eq!(claim_insurance(&mut l, VOUCHER, 1), Ok(()));
    assert_eq!(get_insurance_pool_balance(&l), 500);
}

#[test]
fn claims_are_checked_in_order() {
    let env = Env::default();
    let mut l = with_default(&env);
    assert_eq!(
        claim_insurance(&mut l, VOUCHER, 1),
        Err(Stop::Error(ContractError::InsurancePoolEmpty))
    );
    l.insurance_pool = Some(10);
    l.voucher_history.insert(VOUCHER, AddressList::new(&env).with(77));
    let stranger = Err(Stop::Error(ContractError::UnauthorizedCaller));
    assert_eq!(claim_insurance(&mut l, VOUCHER, 1), stranger);
    l.voucher_history.remove(&VOUCHER);
    assert_eq!(claim_insurance(&mut l, VOUCHER, 1), stranger);
    l.loans.get_mut(&1).unwrap().status = LoanStatus::Repaid;
    assert_eq!(
        claim_insurance(&mut l, VOUCHER, 1),
        Err(Stop::Error(ContractError::InvalidStateTransition))
    );
    assert_eq!(
        claim_insurance(&mut l, VOUCHER, 2),
        Err(Stop::Error(ContractError::NoActiveLoan))
    );
    l.paused = true;
    assert_eq!(
        claim_insurance(&mut l, VOUCHER, 2),
        Err(Stop::Error(ContractError::ContractPaused))
    );
    assert_eq!(claim_insurance(&mut l, 21, 1), Err(Stop::Ask(Question::Auth(21))));
    assert!(l.effects.is_empty());
}

#[test]
fn claim_for_a_negative_loan_can_overflow_the_pool() {
    let env = Env::default();
    let mut l = with_default(&env);
    l.insurance_pool = Some(1);
    l.loans.get_mut(&1).unwrap().amount = i128::MIN;
    assert_eq!(claim_insurance(&mut l, VOUCHER, 1), Err(Stop::Overflow));
}
