use quorum_credit::host::{AddressList, VouchList};
use quorum_credit::ledger::{Config, Ledger};
use quorum_credit::loan::{
    calculate_dynamic_yield, default_count, get_loan, get_loan_by_id, get_referrer, is_eligible,
    loan_count, loan_status, register_referral, request_loan,
};
use quorum_credit::types::{
    ContractError, Effect, Event, LoanStatus, Question, Stop, Terms, VouchRecord,
};
use soroban_sdk::{Env, String};

const CONTRACT: u64 = 0;
const TOKEN: u64 = 1;
const OTHER_TOKEN: u64 = 2;
const NFT: u64 = 4;
const BORROWER: u64 = 10;
const REFERRER: u64 = 11;
const NOW: u64 = 1_000_000;
const DURATION: u64 = 2_592_000;

fn vouch(voucher: u64, stake: i128, vouch_timestamp: u64, token: u64) -> VouchRecord {
    VouchRecord { voucher, stake, vouch_timestamp, token }
}

/// A contract in which the borrower has signed and is backed by two vouchers in
/// the main token and one in another.
fn ledger(env: &Env) -> Ledger {
    let config = Config {
        token: TOKEN,
        allowed_tokens: AddressList::new(env).with(OTHER_TOKEN),
        yield_bps: 200,
        min_loan_amount: 100,
        max_loan_to_stake_ratio: 150,
        loan_duration: DURATION,
    };
    let terms = Terms { min_vouch_age: 60, default_referral_bonus_bps: 100 };
    let mut l = Ledger::new(env.clone(), CONTRACT, NOW, terms, config);
    l.granted.push(BORROWER);
    l.contract_balance = Some(1_000_000);
    let list = VouchList::new(env)
        .with(vouch(20, 600, NOW - 60, TOKEN))
        .with(vouch(22, 5_000, NOW - 500, OTHER_TOKEN))
        .with(vouch(21, 400, 0, TOKEN));
    l.vouches.insert(BORROWER, list);
    l
}


fn ask(l: &mut Ledger, amount: i128, threshold: i128, token: u64) -> Result<(), Stop> {
    let purpose = String::from_str(&l.env, "tools");
    request_loan(l, BORROWER, amount, threshold, purpose, token)
}

#[test]
fn loan_is_granted_and_read_back() {
    let env = Env::default();
    let mut l = ledger(&env);
    assert_eq!(ask(&mut l, 1_000, 1_000, TOKEN), Ok(()));
    let loan = get_loan(&l, BORROWER).unwrap();
    assert_eq!(loan.id, 1);
    assert_eq!(loan.borrower, BORROWER);
    assert_eq!(loan.co_borrowers.len(), 0);
    assert_eq!(loan.amount, 1_000);
    assert_eq!(loan.amount_repaid, 0);
    assert_eq!(loan.total_yield, 20);
    assert_eq!(loan.status, LoanStatus::Active);
    assert_eq!(loan.created_at, NOW);
    assert_eq!(loan.disbursement_timestamp, NOW);
    assert_eq!(loan.repayment_timestamp, None);
    assert_eq!(loan.deadline, NOW + DURATION);
    assert_eq!(loan.loan_purpose, String::from_str(&env, "tools"));
    assert_eq!(loan.token_address, TOKEN);
    assert_eq!(get_loan_by_id(&l, 1).unwrap().amount, 1_000);
    assert!(get_loan_by_id(&l, 2).is_none());
    assert_eq!(loan_status(&l, BORROWER), LoanStatus::Active);
    assert_eq!(loan_count(&l, BORROWER), 1);
    assert_eq!(l.loan_counter, Some(1));
    let vouchers = l.loan_vouchers.get(&1).unwrap();
    assert_eq!(vouchers.len(), 2);
    assert_eq!(vouchers.get(0), Some(20));
    assert_eq!(vouchers.get(1), Some(21));
    assert_eq!(l.active_loan.get(&BORROWER), Some(&1));
    assert_eq!(
        l.effects,
        vec![
            Effect::Transfer { token: TOKEN, from: CONTRACT, to: BORROWER, amount: 1_000 },
            Effect::Publish(Event::LoanDisbursed {
                borrower: BORROWER,
                amount: 1_000,
                deadline: NOW + DURATION,
                token: TOKEN,
            }),
        ]
    );
}

#[test]
fn second_request_is_refused() {
    let env = Env::default();
    let mut l = ledger(&env);
    assert_eq!(ask(&mut l, 1_000, 1_000, TOKEN), Ok(()));
    assert_eq!(
        ask(&mut l, 100, 1, OTHER_TOKEN),
        Err(Stop::Error(ContractError::ActiveLoanExists))
    );
    assert_eq!(loan_count(&l, BORROWER), 1);
    assert_eq!(l.effects.len(), 2);
}

#[test]
fn nothing_known_reads_as_nothing() {
    let env = Env::default();
    let l = ledger(&env);
    assert_eq!(loan_status(&l, BORROWER), LoanStatus::NoLoan);
    assert!(get_loan(&l, BORROWER).is_none());
    assert_eq!(loan_count(&l, BORROWER), 0);
    assert_eq!(default_count(&l, BORROWER), 0);
    assert_eq!(get_referrer(&l, BORROWER), None);
}

#[test]
fn authorization_is_asked_first() {
    let env = Env::default();
    let mut l = ledger(&env);
    l.paused = true;
    l.granted.clear();
    assert_eq!(ask(&mut l, 1_000, 1_000, TOKEN), Err(Stop::Ask(Question::Auth(BORROWER))));
    l.granted.push(REFERRER);
    assert_eq!(ask(&mut l, 1_000, 1_000, TOKEN), Err(Stop::Ask(Question::Auth(BORROWER))));
}

#[test]
fn paused_and_blacklisted_are_refused() {
    let env = Env::default();
    let mut l = ledger(&env);
    l.blacklisted.insert(BORROWER, true);
    assert_eq!(ask(&mut l, 1_000, 1_000, TOKEN), Err(Stop::Error(ContractError::Blacklisted)));
    l.paused = true;
    assert_eq!(ask(&mut l, 1_000, 1_000, TOKEN), Err(Stop::Error(ContractError::ContractPaused)));
    l.paused = false;
    l.blacklisted.insert(BORROWER, false);
    assert_eq!(ask(&mut l, 1_000, 1_000, TOKEN), Ok(()));
}

#[test]
fn tokens_have_to_be_allowed() {
    let env = Env::default();
    let mut l = ledger(&env);
    assert_eq!(ask(&mut l, 1_000, 1_000, 99), Err(Stop::Error(ContractError::InvalidToken)));
    assert_eq!(ask(&mut l, 1_000, 5_000, OTHER_TOKEN), Ok(()));
}

#[test]
fn amounts_have_to_be_in_range() {
    let env = Env::default();
    let mut l = ledger(&env);
    assert_eq!(ask(&mut l, 99, 1, TOKEN), Err(Stop::Error(ContractError::LoanBelowMinAmount)));
    assert_eq!(ask(&mut l, 100, 0, TOKEN), Err(Stop::Panic(ContractError::InvalidAmount)));
    l.max_loan_amount = Some(500);
    assert_eq!(ask(&mut l, 501, 1, TOKEN), Err(Stop::Error(ContractError::LoanExceedsMaxAmount)));
    l.max_loan_amount = Some(0);
    assert_eq!(ask(&mut l, 1_501, 1, TOKEN), Err(Stop::Panic(ContractError::LoanExceedsMaxAmount)));
    assert_eq!(ask(&mut l, 1_500, 1, TOKEN), Ok(()));
}

#[test]
fn stake_has_to_reach_the_threshold() {
    let env = Env::default();
    let mut l = ledger(&env);
    assert_eq!(ask(&mut l, 100, 1_001, TOKEN), Err(Stop::Panic(ContractError::InsufficientFunds)));
    l.vouches.remove(&BORROWER);
    assert_eq!(ask(&mut l, 100, 1, TOKEN), Err(Stop::Panic(ContractError::InsufficientFunds)));
}

#[test]
fn stakes_that_overflow_are_refused() {
    let env = Env::default();
    let mut l = ledger(&env);
    let list = VouchList::new(&env)
        .with(vouch(20, i128::MAX, 0, TOKEN))
        .with(vouch(21, 1, 0, TOKEN));
    l.vouches.insert(BORROWER, list);
    assert_eq!(ask(&mut l, 100, 1, TOKEN), Err(Stop::Error(ContractError::StakeOverflow)));
    assert_eq!(is_eligible(&l, BORROWER, 1, TOKEN), Err(Stop::Overflow));
    let list = VouchList::new(&env).with(vouch(20, i128::MAX, 0, TOKEN));
    l.vouches.insert(BORROWER, list);
    assert_eq!(ask(&mut l, 100, 1, TOKEN), Err(Stop::Overflow));
}

#[test]
fn enough_vouchers_are_needed() {
    let env = Env::default();
    let mut l = ledger(&env);
    l.min_vouchers = Some(3);
    assert_eq!(ask(&mut l, 100, 1, TOKEN), Err(Stop::Error(ContractError::InsufficientVouchers)));
    l.min_vouchers = Some(2);
    assert_eq!(ask(&mut l, 100, 1, TOKEN), Ok(()));
}

#[test]
fn vouches_have_to_age() {
    let env = Env::default();
    let mut l = ledger(&env);
    l.timestamp = NOW - 1;
    assert_eq!(ask(&mut l, 100, 1, TOKEN), Err(Stop::Error(ContractError::VouchTooRecent)));
    l.timestamp = NOW;
    let list = VouchList::new(&env)
        .with(vouch(20, 600, u64::MAX, TOKEN))
        .with(vouch(21, 600, NOW, TOKEN));
    l.vouches.insert(BORROWER, list);
    assert_eq!(ask(&mut l, 100, 1, TOKEN), Err(Stop::Overflow));
    let list = VouchList::new(&env)
        .with(vouch(21, 600, NOW, TOKEN))
        .with(vouch(20, 600, u64::MAX, TOKEN));
    l.vouches.insert(BORROWER, list);
    assert_eq!(ask(&mut l, 100, 1, TOKEN), Err(Stop::Error(ContractError::VouchTooRecent)));
}

#[test]
fn the_contract_needs_the_money() {
    let env = Env::default();
    let mut l = ledger(&env);
    l.contract_balance = None;
    assert_eq!(
        ask(&mut l, 100, 1, OTHER_TOKEN),
        Err(Stop::Ask(Question::TokenBalance(OTHER_TOKEN)))
    );
    l.contract_balance = Some(99);
    assert_eq!(
        ask(&mut l, 100, 1, OTHER_TOKEN),
        Err(Stop::Error(ContractError::InsufficientFunds))
    );
    l.contract_balance = Some(100);
    assert_eq!(ask(&mut l, 100, 1, OTHER_TOKEN), Ok(()));
}

#[test]
fn counters_do_not_wrap() {
    let env = Env::default();
    let mut l = ledger(&env);
    l.loan_counter = Some(u64::MAX);
    assert_eq!(ask(&mut l, 100, 1, TOKEN), Err(Stop::Overflow));
    l.loan_counter = Some(7);
    l.loan_count.insert(BORROWER, u32::MAX);
    assert_eq!(ask(&mut l, 100, 1, TOKEN), Err(Stop::Overflow));
    l.loan_count.insert(BORROWER, 4);
    l.config.loan_duration = u64::MAX;
    assert_eq!(ask(&mut l, 100, 1, TOKEN), Err(Stop::Overflow));
    l.config.loan_duration = 1;
    assert_eq!(ask(&mut l, 100, 1, TOKEN), Ok(()));
    assert_eq!(loan_count(&l, BORROWER), 5);
    assert_eq!(get_loan(&l, BORROWER).unwrap().id, 8);
}

#[test]
fn yield_follows_the_formula() {
    let env = Env::default();
    let mut l = ledger(&env);
    assert_eq!(calculate_dynamic_yield(&l, BORROWER), Ok(200));
    l.default_count.insert(BORROWER, 1);
    assert_eq!(calculate_dynamic_yield(&l, BORROWER), Ok(150));
    l.reputation_nft = Some(NFT);
    assert_eq!(
        calculate_dynamic_yield(&l, BORROWER),
        Err(Stop::Ask(Question::NftBalance(NFT, BORROWER)))
    );
    l.nft_balance = Some(1_099);
    assert_eq!(calculate_dynamic_yield(&l, BORROWER), Ok(160));
    l.nft_balance = Some(-199);
    assert_eq!(calculate_dynamic_yield(&l, BORROWER), Ok(149));
    l.nft_balance = Some(0);
    l.default_count.insert(BORROWER, 4);
    assert_eq!(calculate_dynamic_yield(&l, BORROWER), Ok(0));
    l.default_count.insert(BORROWER, u32::MAX);
    assert_eq!(calculate_dynamic_yield(&l, BORROWER), Ok(0));
    l.config.yield_bps = i128::MAX;
    l.nft_balance = Some(100);
    assert_eq!(calculate_dynamic_yield(&l, BORROWER), Err(Stop::Overflow));
    assert_eq!(default_count(&l, BORROWER), u32::MAX);
}

#[test]
fn score_raises_the_yield_of_a_loan() {
    let env = Env::default();
    let mut l = ledger(&env);
    l.reputation_nft = Some(NFT);
    assert_eq!(
        ask(&mut l, 1_000, 1, TOKEN),
        Err(Stop::Ask(Question::NftBalance(NFT, BORROWER)))
    );
    l.nft_balance = Some(10_000);
    assert_eq!(ask(&mut l, 1_000, 1, TOKEN), Ok(()));
    assert_eq!(get_loan(&l, BORROWER).unwrap().total_yield, 30);
}

#[test]
fn referral_is_set_and_replaced() {
    let env = Env::default();
    let mut l = ledger(&env);
    assert_eq!(register_referral(&mut l, BORROWER, REFERRER), Ok(()));
    assert_eq!(get_referrer(&l, BORROWER), Some(REFERRER));
    assert_eq!(register_referral(&mut l, BORROWER, 12), Ok(()));
    assert_eq!(get_referrer(&l, BORROWER), Some(12));
    assert_eq!(
        l.effects,
        vec![
            Effect::Publish(Event::ReferralSet { borrower: BORROWER, referrer: REFERRER }),
            Effect::Publish(Event::ReferralSet { borrower: BORROWER, referrer: 12 }),
        ]
    );
}

#[test]
fn referral_has_limits() {
    let env = Env::default();
    let mut l = ledger(&env);
    assert_eq!(
        register_referral(&mut l, BORROWER, BORROWER),
        Err(Stop::Panic(ContractError::UnauthorizedCaller))
    );
    assert_eq!(
        register_referral(&mut l, REFERRER, BORROWER),
        Err(Stop::Ask(Question::Auth(REFERRER)))
    );
    l.paused = true;
    assert_eq!(
        register_referral(&mut l, BORROWER, REFERRER),
        Err(Stop::Error(ContractError::ContractPaused))
    );
    l.paused = false;
    assert_eq!(ask(&mut l, 1_000, 1_000, TOKEN), Ok(()));
    assert_eq!(
        register_referral(&mut l, BORROWER, REFERRER),
        Err(Stop::Error(ContractError::ActiveLoanExists))
    );
    assert_eq!(get_referrer(&l, BORROWER), None);
}

#[test]
fn eligibility_counts_stake_in_the_token() {
    let env = Env::default();
    let mut l = ledger(&env);
    assert_eq!(is_eligible(&l, BORROWER, 1_000, TOKEN), Ok(true));
    assert_eq!(is_eligible(&l, BORROWER, 1_001, TOKEN), Ok(false));
    assert_eq!(is_eligible(&l, BORROWER, 5_000, OTHER_TOKEN), Ok(true));
    assert_eq!(is_eligible(&l, BORROWER, 0, TOKEN), Ok(false));
    assert_eq!(is_eligible(&l, REFERRER, 1, TOKEN), Ok(false));
    assert_eq!(ask(&mut l, 1_000, 1_000, TOKEN), Ok(()));
    assert_eq!(is_eligible(&l, BORROWER, 1, TOKEN), Ok(false));
}
