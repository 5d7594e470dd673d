use quorum_credit::host::{AddressList, VouchList};
use quorum_credit::ledger::{Config, Ledger};
use quorum_credit::loan::{
    emit_repayment_reminders, get_loan, loan_status, mint_reputation_nft, repayment_count,
    request_loan,
};
use quorum_credit::repayment::{collect_repayment, repay, settle_repayment};
use quorum_credit::types::{
    ContractError, Effect, Event, LoanStatus, Question, Stop, Terms, VouchRecord,
};
use soroban_sdk::{Env, String};

const CONTRACT: u64 = 0;
const TOKEN: u64 = 1;
const OTHER_TOKEN: u64 = 2;
const TREASURY: u64 = 3;
const NFT: u64 = 4;
const BORROWER: u64 = 10;
const REFERRER: u64 = 11;
const NOW: u64 = 1_000_000;
const DURATION: u64 = 2_592_000;

fn vouch(voucher: u64, stake: i128, vouch_timestamp: u64, token: u64) -> VouchRecord {
    VouchRecord { voucher, stake, vouch_timestamp, token }
}

/// A contract in which the borrower has signed and is backed by two vouchers in
/// the main token and one in another.
fn ledger(env: &Env) -> Ledger {
    let config = Config {
        token: TOKEN,
        allowed_tokens: AddressList::new(env).with(OTHER_TOKEN),
        yield_bps: 200,
        min_loan_amount: 100,
        max_loan_to_stake_ratio: 150,
        loan_duration: DURATION,
    };
    let terms = Terms { min_vouch_age: 60, default_referral_bonus_bps: 100 };
    let mut l = Ledger::new(env.clone(), CONTRACT, NOW, terms, config);
    l.granted.push(BORROWER);
    l.contract_balance = Some(1_000_000);
    let list = VouchList::new(env)
        .with(vouch(20, 600, NOW - 60, TOKEN))
        .with(vouch(22, 5_000, NOW - 500, OTHER_TOKEN))
        .with(vouch(21, 400, 0, TOKEN));
    l.vouches.insert(BORROWER, list);
    l
}


/// The contract after a loan of 1000 with a yield of 20 was paid out.
fn with_loan(env: &Env) -> Ledger {
    let mut l = ledger(env);
    let purpose = String::from_str(env, "tools");
    assert_eq!(request_loan(&mut l, BORROWER, 1_000, 1_000, purpose, TOKEN), Ok(()));
    l.effects.clear();
    l
}

fn pay(from: u64, to: u64, amount: i128) -> Effect {
    Effect::Transfer { token: TOKEN, from, to, amount }
}

#[test]
fn part_payment_is_booked() {
    let env = Env::default();
    let mut l = with_loan(&env);
    assert_eq!(repay(&mut l, BORROWER, 300), Ok(()));
    let loan = get_loan(&l, BORROWER).unwrap();
    assert_eq!(loan.amount_repaid, 300);
    assert_eq!(loan.status, LoanStatus::Active);
    assert_eq!(loan.repayment_timestamp, None);
    assert_eq!(l.effects, vec![pay(BORROWER, CONTRACT, 300)]);
    assert_eq!(repayment_count(&l, BORROWER), 0);
    assert!(l.vouches.contains_key(&BORROWER));
}

#[test]
fn last_payment_closes_and_pays_out() {
    let env = Env::default();
    let mut l = with_loan(&env);
    l.timestamp = NOW + 5;
    assert_eq!(repay(&mut l, BORROWER, 1_020), Ok(()));
    let loan = get_loan(&l, BORROWER).unwrap();
    assert_eq!(loan.amount_repaid, 1_020);
    assert_eq!(loan.status, LoanStatus::Repaid);
    assert_eq!(loan.repayment_timestamp, Some(NOW + 5));
    assert_eq!(loan_status(&l, BORROWER), LoanStatus::Repaid);
    assert_eq!(repayment_count(&l, BORROWER), 1);
    assert!(!l.active_loan.contains_key(&BORROWER));
    assert!(!l.vouches.contains_key(&BORROWER));
    assert_eq!(
        l.effects,
        vec![
            pay(BORROWER, CONTRACT, 1_020),
            pay(CONTRACT, 20, 612),
            pay(CONTRACT, 21, 408),
            Effect::Publish(Event::LoanRepaid { borrower: BORROWER, amount: 1_000 }),
        ]
    );
}

#[test]
fn two_payments_equal_one() {
    let env = Env::default();
    let mut once = with_loan(&env);
    assert_eq!(repay(&mut once, BORROWER, 1_020), Ok(()));
    let mut twice = with_loan(&env);
    assert_eq!(repay(&mut twice, BORROWER, 1_000), Ok(()));
    assert_eq!(repay(&mut twice, BORROWER, 20), Ok(()));
    let a = get_loan(&once, BORROWER).unwrap();
    let b = get_loan(&twice, BORROWER).unwrap();
    assert_eq!(a.amount_repaid, b.amount_repaid);
    assert_eq!(a.status, b.status);
    assert_eq!(once.repayment_count, twice.repayment_count);
    assert_eq!(once.active_loan, twice.active_loan);
    assert_eq!(once.effects[1..], twice.effects[2..]);
}

#[test]
fn shares_are_rounded_down() {
    let env = Env::default();
    let mut l = with_loan(&env);
    let list = VouchList::new(&env)
        .with(vouch(20, 1, 0, TOKEN))
        .with(vouch(21, 1, 0, TOKEN))
        .with(vouch(23, 1, 0, TOKEN));
    l.vouches.insert(BORROWER, list);
    assert_eq!(repay(&mut l, BORROWER, 1_020), Ok(()));
    assert_eq!(l.effects[1], pay(CONTRACT, 20, 7));
    assert_eq!(l.effects[2], pay(CONTRACT, 21, 7));
    assert_eq!(l.effects[3], pay(CONTRACT, 23, 7));
}

#[test]
fn without_stake_nothing_is_earned() {
    let env = Env::default();
    let mut l = with_loan(&env);
    l.vouches.insert(BORROWER, VouchList::new(&env).with(vouch(20, 0, 0, TOKEN)));
    assert_eq!(repay(&mut l, BORROWER, 1_020), Ok(()));
    assert_eq!(l.effects[1], pay(CONTRACT, 20, 0));
    assert_eq!(l.effects.len(), 3);
}

#[test]
fn negative_stake_can_overdraw_the_yield() {
    let env = Env::default();
    let mut l = with_loan(&env);
    let list = VouchList::new(&env)
        .with(vouch(20, 100, 0, TOKEN))
        .with(vouch(21, -50, 0, TOKEN));
    l.vouches.insert(BORROWER, list);
    assert_eq!(
        repay(&mut l, BORROWER, 1_020),
        Err(Stop::Panic(ContractError::InsufficientFunds))
    );
    assert!(l.effects.is_empty());
    assert_eq!(get_loan(&l, BORROWER).unwrap().amount_repaid, 0);
}

#[test]
fn payouts_that_overflow_are_refused() {
    let env = Env::default();
    let mut l = with_loan(&env);
    l.vouches.insert(BORROWER, VouchList::new(&env).with(vouch(20, i128::MAX, 0, TOKEN)));
    assert_eq!(repay(&mut l, BORROWER, 1_020), Err(Stop::Overflow));
    let list = VouchList::new(&env)
        .with(vouch(20, i128::MAX, 0, TOKEN))
        .with(vouch(21, 1, 0, TOKEN));
    l.vouches.insert(BORROWER, list);
    assert_eq!(repay(&mut l, BORROWER, 1_020), Err(Stop::Overflow));
    assert_eq!(repay(&mut l, BORROWER, 1_019), Ok(()));
}

#[test]
fn fee_goes_to_the_treasury() {
    let env = Env::default();
    let mut l = with_loan(&env);
    l.protocol_fee_bps = Some(55);
    l.fee_treasury = Some(TREASURY);
    assert_eq!(repay(&mut l, BORROWER, 1_020), Ok(()));
    assert_eq!(l.effects[1], pay(CONTRACT, TREASURY, 5));
    let mut l = with_loan(&env);
    l.protocol_fee_bps = Some(55);
    assert_eq!(repay(&mut l, BORROWER, 1_020), Ok(()));
    assert_eq!(l.effects[1], pay(CONTRACT, 20, 612));
}

#[test]
fn referrer_gets_the_bonus() {
    let env = Env::default();
    let mut l = with_loan(&env);
    l.referred_by.insert(BORROWER, REFERRER);
    l.reputation_nft = Some(NFT);
    assert_eq!(repay(&mut l, BORROWER, 1_020), Ok(()));
    assert_eq!(
        l.effects[3..],
        [
            pay(CONTRACT, REFERRER, 10),
            Effect::Publish(Event::ReferralBonus {
                referrer: REFERRER,
                borrower: BORROWER,
                bonus: 10,
            }),
            Effect::Mint { nft: NFT, to: BORROWER },
            Effect::Publish(Event::LoanRepaid { borrower: BORROWER, amount: 1_000 }),
        ]
    );
}

#[test]
fn bonus_has_to_be_affordable() {
    let env = Env::default();
    let mut l = with_loan(&env);
    l.referred_by.insert(BORROWER, REFERRER);
    l.referral_bonus_bps = Some(250);
    l.contract_balance = Some(24);
    assert_eq!(repay(&mut l, BORROWER, 1_020), Ok(()));
    assert_eq!(l.effects.len(), 4);
    let mut l = with_loan(&env);
    l.referred_by.insert(BORROWER, REFERRER);
    l.referral_bonus_bps = Some(250);
    l.contract_balance = Some(25);
    assert_eq!(repay(&mut l, BORROWER, 1_020), Ok(()));
    assert_eq!(l.effects[3], pay(CONTRACT, REFERRER, 25));
    let mut l = with_loan(&env);
    l.referred_by.insert(BORROWER, REFERRER);
    l.referral_bonus_bps = Some(0);
    l.contract_balance = None;
    assert_eq!(repay(&mut l, BORROWER, 1_020), Ok(()));
    assert_eq!(l.effects.len(), 4);
}

#[test]
fn repayment_in_two_parts() {
    let env = Env::default();
    let mut l = with_loan(&env);
    l.referred_by.insert(BORROWER, REFERRER);
    l.contract_balance = None;
    assert_eq!(repay(&mut l, BORROWER, 1_020), Err(Stop::Ask(Question::TokenBalance(TOKEN))));
    assert!(l.effects.is_empty());
    assert_eq!(collect_repayment(&mut l, BORROWER, 1_020), Ok(()));
    assert_eq!(l.effects.len(), 3);
    assert_eq!(get_loan(&l, BORROWER).unwrap().amount_repaid, 0);
    assert_eq!(
        settle_repayment(&mut l, BORROWER, 1_020),
        Err(Stop::Ask(Question::TokenBalance(TOKEN)))
    );
    l.contract_balance = Some(10);
    assert_eq!(settle_repayment(&mut l, BORROWER, 1_020), Ok(()));
    assert_eq!(l.effects[3], pay(CONTRACT, REFERRER, 10));
    assert_eq!(loan_status(&l, BORROWER), LoanStatus::Repaid);
    assert_eq!(
        settle_repayment(&mut l, BORROWER, 1_020),
        Err(Stop::Error(ContractError::NoActiveLoan))
    );
}

#[test]
fn payment_has_to_be_in_range() {
    let env = Env::default();
    let mut l = with_loan(&env);
    let wrong = Err(Stop::Panic(ContractError::InvalidAmount));
    assert_eq!(repay(&mut l, BORROWER, 0), wrong);
    assert_eq!(repay(&mut l, BORROWER, -1), wrong);
    assert_eq!(repay(&mut l, BORROWER, 1_021), wrong);
    assert_eq!(repay(&mut l, BORROWER, 20), Ok(()));
    assert_eq!(repay(&mut l, BORROWER, 1_001), wrong);
    assert_eq!(repay(&mut l, BORROWER, 1_000), Ok(()));
}

#[test]
fn payment_has_to_be_in_time() {
    let env = Env::default();
    let mut l = with_loan(&env);
    l.timestamp = NOW + DURATION + 1;
    assert_eq!(repay(&mut l, BORROWER, 1), Err(Stop::Panic(ContractError::LoanPastDeadline)));
    l.timestamp = NOW + DURATION;
    assert_eq!(repay(&mut l, BORROWER, 1), Ok(()));
}

#[test]
fn there_has_to_be_a_loan_of_the_borrower() {
    let env = Env::default();
    let mut l = ledger(&env);
    assert_eq!(repay(&mut l, BORROWER, 1), Err(Stop::Error(ContractError::NoActiveLoan)));
    let mut l = with_loan(&env);
    l.loans.get_mut(&1).unwrap().status = LoanStatus::Defaulted;
    assert_eq!(repay(&mut l, BORROWER, 1), Err(Stop::Error(ContractError::NoActiveLoan)));
    l.loans.get_mut(&1).unwrap().borrower = REFERRER;
    assert_eq!(repay(&mut l, BORROWER, 1), Err(Stop::Error(ContractError::UnauthorizedCaller)));
    l.paused = true;
    assert_eq!(repay(&mut l, BORROWER, 1), Err(Stop::Error(ContractError::ContractPaused)));
    l.granted.clear();
    assert_eq!(repay(&mut l, BORROWER, 1), Err(Stop::Ask(Question::Auth(BORROWER))));
}

#[test]
fn co_borrowers_sign_in_order() {
    let env = Env::default();
    let mut l = with_loan(&env);
    l.loans.get_mut(&1).unwrap().co_borrowers = AddressList::new(&env).with(30).with(31);
    assert_eq!(repay(&mut l, BORROWER, 1), Err(Stop::Ask(Question::Auth(30))));
    l.granted.push(30);
    assert_eq!(repay(&mut l, BORROWER, 1), Err(Stop::Ask(Question::Auth(31))));
    l.granted.push(31);
    assert_eq!(repay(&mut l, BORROWER, 1), Ok(()));
    assert_eq!(get_loan(&l, BORROWER).unwrap().co_borrowers.get(1), Some(31));
}

#[test]
fn numbers_that_leave_their_range_are_refused() {
    let env = Env::default();
    let mut l = with_loan(&env);
    l.repayment_count.insert(BORROWER, u32::MAX);
    assert_eq!(repay(&mut l, BORROWER, 1_020), Err(Stop::Overflow));
    let mut l = with_loan(&env);
    l.loans.get_mut(&1).unwrap().amount = i128::MAX;
    assert_eq!(repay(&mut l, BORROWER, 1), Err(Stop::Overflow));
    let mut l = with_loan(&env);
    l.loans.get_mut(&1).unwrap().amount_repaid = i128::MIN;
    assert_eq!(repay(&mut l, BORROWER, 1), Err(Stop::Overflow));
}

#[test]
fn reminders_are_for_loans_due_soon() {
    let env = Env::default();
    let mut l = with_loan(&env);
    let deadline = NOW + DURATION;
    l.timestamp = deadline - 604_801;
    emit_repayment_reminders(&mut l);
    assert!(l.effects.is_empty());
    l.timestamp = deadline - 604_800;
    emit_repayment_reminders(&mut l);
    let reminder = Effect::Publish(Event::RepaymentReminder { borrower: BORROWER, deadline });
    assert_eq!(l.effects, vec![reminder]);
    l.timestamp = deadline - 1;
    emit_repayment_reminders(&mut l);
    assert_eq!(l.effects, vec![reminder, reminder]);
    l.timestamp = deadline;
    emit_repayment_reminders(&mut l);
    assert_eq!(l.effects.len(), 2);
    l.timestamp = deadline - 1;
    l.loans.get_mut(&1).unwrap().status = LoanStatus::Defaulted;
    emit_repayment_reminders(&mut l);
    assert_eq!(l.effects.len(), 2);
}

#[test]
fn reputation_is_minted_after_a_repayment() {
    let env = Env::default();
    let mut l = with_loan(&env);
    let none = Err(Stop::Error(ContractError::NoActiveLoan));
    l.reputation_nft = Some(NFT);
    assert_eq!(mint_reputation_nft(&mut l, BORROWER), none);
    l.reputation_nft = None;
    assert_eq!(repay(&mut l, BORROWER, 1_020), Ok(()));
    assert_eq!(mint_reputation_nft(&mut l, BORROWER), none);
    l.reputation_nft = Some(NFT);
    l.effects.clear();
    l.paused = true;
    assert_eq!(mint_reputation_nft(&mut l, BORROWER), Ok(()));
    assert_eq!(
        l.effects,
        vec![
            Effect::Mint { nft: NFT, to: BORROWER },
            Effect::Publish(Event::ReputationMinted { borrower: BORROWER }),
        ]
    );
    l.granted.clear();
    assert_eq!(mint_reputation_nft(&mut l, BORROWER), Err(Stop::Ask(Question::Auth(BORROWER))));
}

#[test]
fn topics_of_events() {
    let deadline = 5;
    let e = Event::ReferralSet { borrower: 1, referrer: 2 };
    assert_eq!(e.topics(), ("referral", "set"));
    let e = Event::ReferralBonus { referrer: 1, borrower: 2, bonus: 3 };
    assert_eq!(e.topics(), ("referral", "bonus"));
    let e = Event::LoanDisbursed { borrower: 1, amount: 2, deadline, token: 3 };
    assert_eq!(e.topics(), ("loan", "disbursed"));
    let e = Event::LoanRepaid { borrower: 1, amount: 2 };
    assert_eq!(e.topics(), ("loan", "repaid"));
    let e = Event::RepaymentReminder { borrower: 1, deadline };
    assert_eq!(e.topics(), ("repay", "reminder"));
    assert_eq!(Event::ReputationMinted { borrower: 1 }.topics(), ("rep", "minted"));
    let e = Event::InsuranceContributed { contributor: 1, amount: 2 };
    assert_eq!(e.topics(), ("ins", "contrib"));
    let e = Event::InsuranceClaimed { voucher: 1, loan_id: 2, payout: 3 };
    assert_eq!(e.topics(), ("ins", "claim"));
}

#[test]
fn borrowers_do_not_disturb_each_other() {
    let env = Env::default();
    let mut l = with_loan(&env);
    let second = 50;
    l.vouches.insert(second, VouchList::new(&env).with(vouch(21, 900, 0, TOKEN)));
    l.granted = vec![second];
    let purpose = String::from_str(&env, "seeds");
    assert_eq!(request_loan(&mut l, second, 500, 1, purpose, TOKEN), Ok(()));
    assert_eq!(get_loan(&l, second).unwrap().id, 2);
    assert_eq!(get_loan(&l, BORROWER).unwrap().id, 1);
    assert_eq!(get_loan(&l, BORROWER).unwrap().loan_purpose, String::from_str(&env, "tools"));
    assert_eq!(repay(&mut l, second, 510), Ok(()));
    assert_eq!(loan_status(&l, second), LoanStatus::Repaid);
    assert_eq!(loan_status(&l, BORROWER), LoanStatus::Active);
    assert_eq!(get_loan(&l, BORROWER).unwrap().amount_repaid, 0);
    assert_eq!(repayment_count(&l, BORROWER), 0);
    assert!(l.vouches.contains_key(&BORROWER));
    assert_eq!(l.active_loan.get(&BORROWER), Some(&1));
}

#[test]
fn vouchers_get_no_more_than_the_yield() {
    let env = Env::default();
    let mut l = with_loan(&env);
    let list = VouchList::new(&env)
        .with(vouch(20, 333, 0, TOKEN))
        .with(vouch(21, 334, 0, TOKEN))
        .with(vouch(23, 7, 0, TOKEN));
    l.vouches.insert(BORROWER, list);
    assert_eq!(repay(&mut l, BORROWER, 1_020), Ok(()));
    let mut total = 0;
    for effect in &l.effects[1..] {
        if let Effect::Transfer { amount, .. } = effect {
            total += amount;
        }
    }
    assert_eq!(total, 674 + 9 + 9);
    assert!(total > 674 + 20 - 3);
}

#[test]
fn a_closed_loan_makes_room_for_the_next() {
    let env = Env::default();
    let mut l = with_loan(&env);
    assert_eq!(repay(&mut l, BORROWER, 1_020), Ok(()));
    assert_eq!(repay(&mut l, BORROWER, 1), Err(Stop::Error(ContractError::NoActiveLoan)));
    l.vouches.insert(BORROWER, VouchList::new(&env).with(vouch(20, 900, 0, TOKEN)));
    let purpose = String::from_str(&env, "seeds");
    assert_eq!(request_loan(&mut l, BORROWER, 500, 1, purpose, TOKEN), Ok(()));
    assert_eq!(get_loan(&l, BORROWER).unwrap().id, 2);
}
