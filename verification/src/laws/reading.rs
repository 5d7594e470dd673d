//! What is read of the contract.

use crate::ledger::{count_of, entry, Config, Ledger, LoanRecord, Settings, State};
use crate::types::{Address, Event, Terms};
use vstd::prelude::*;

verus! {

/// A loan is seen as it is recorded.
pub proof fn loan_is_seen_as_it_is(loan: LoanRecord)
    ensures
        loan@.id == loan.id,
        loan@.borrower == loan.borrower,
        loan@.co_borrowers == loan.co_borrowers@,
        loan@.amount == loan.amount,
        loan@.amount_repaid == loan.amount_repaid,
        loan@.total_yield == loan.total_yield,
        loan@.status == loan.status,
        loan@.created_at == loan.created_at,
        loan@.disbursement_timestamp == loan.disbursement_timestamp,
        loan@.repayment_timestamp == loan.repayment_timestamp,
        loan@.deadline == loan.deadline,
        loan@.loan_purpose == loan.loan_purpose,
        loan@.token_address == loan.token_address,
{
}

/// The configuration is seen as it is set.
pub proof fn config_is_seen_as_it_is(config: Config)
    ensures
        config@.token == config.token,
        config@.allowed_tokens == config.allowed_tokens@,
        config@.yield_bps == config.yield_bps,
        config@.min_loan_amount == config.min_loan_amount,
        config@.max_loan_to_stake_ratio == config.max_loan_to_stake_ratio,
        config@.loan_duration == config.loan_duration,
{
}

/// A ledger is seen as it is: every entry of it, and no other, under its own name.
pub proof fn ledger_is_seen_as_it_is(l: Ledger, key: u64)
    ensures
        l@.env == l.env,
        l@.contract == l.contract,
        l@.timestamp == l.timestamp,
        l@.terms == l.terms,
        l@.config == l.config@,
        l@.paused == l.paused,
        l@.reputation_nft == l.reputation_nft,
        l@.fee_treasury == l.fee_treasury,
        l@.max_loan_amount == l.max_loan_amount,
        l@.min_vouchers == l.min_vouchers,
        l@.protocol_fee_bps == l.protocol_fee_bps,
        l@.referral_bonus_bps == l.referral_bonus_bps,
        l@.loan_counter == l.loan_counter,
        l@.insurance_pool == l.insurance_pool,
        l@.active_loan == l.active_loan@,
        l@.latest_loan == l.latest_loan@,
        l@.loan_count == l.loan_count@,
        l@.repayment_count == l.repayment_count@,
        l@.default_count == l.default_count@,
        l@.blacklisted == l.blacklisted@,
        l@.referred_by == l.referred_by@,
        l@.insurance_claim == l.insurance_claim@,
        l@.granted == l.granted@,
        l@.contract_balance == l.contract_balance,
        l@.nft_balance == l.nft_balance,
        l@.effects == l.effects@,
        l@.loans.contains_key(key) <==> l.loans@.contains_key(key),
        l.loans@.contains_key(key) ==> l@.loans[key] == l.loans@[key]@,
        l@.vouches.contains_key(key) <==> l.vouches@.contains_key(key),
        l.vouches@.contains_key(key) ==> l@.vouches[key] == l.vouches@[key]@,
        l@.voucher_history.contains_key(key) <==> l.voucher_history@.contains_key(key),
        l.voucher_history@.contains_key(key) ==> l@.voucher_history[key]
            == l.voucher_history@[key]@,
        l@.loan_vouchers.contains_key(key) <==> l.loan_vouchers@.contains_key(key),
        l.loan_vouchers@.contains_key(key) ==> l@.loan_vouchers[key] == l.loan_vouchers@[key]@,
{
}

/// A new ledger holds nothing but what it was given: nothing is configured beyond
/// that, nobody has borrowed, vouched, signed or claimed, and there is nothing to
/// carry out.
pub proof fn new_ledger_holds_nothing(
    env: soroban_sdk::Env,
    contract: Address,
    timestamp: u64,
    terms: Terms,
    config: Settings,
    key: u64,
)
    ensures
        ({
            let s = State::fresh(env, contract, timestamp, terms, config);
            &&& s.env == env
            &&& s.contract == contract
            &&& s.timestamp == timestamp
            &&& s.terms == terms
            &&& s.config == config
            &&& !s.paused
            &&& s.reputation_nft is None && s.fee_treasury is None
            &&& s.max_loan_amount is None && s.min_vouchers is None
            &&& s.protocol_fee_bps is None && s.referral_bonus_bps is None
            &&& s.loan_counter is None && s.insurance_pool is None
            &&& s.contract_balance is None && s.nft_balance is None
            &&& !s.loans.contains_key(key)
            &&& !s.active_loan.contains_key(key)
            &&& !s.latest_loan.contains_key(key)
            &&& !s.loan_count.contains_key(key)
            &&& !s.repayment_count.contains_key(key)
            &&& !s.default_count.contains_key(key)
            &&& !s.blacklisted.contains_key(key)
            &&& !s.referred_by.contains_key(key)
            &&& !s.vouches.contains_key(key)
            &&& !s.voucher_history.contains_key(key)
            &&& !s.loan_vouchers.contains_key(key)
            &&& !s.insurance_claim.contains_key(key)
            &&& s.granted.len() == 0
            &&& s.effects.len() == 0
        }),
{
}

/// An entry that was written is read back, and one that was not is missing; a
/// count that was not written is zero.
pub proof fn entries_are_read_back<V>(
    m: Map<u64, V>,
    counts: Map<u64, u32>,
    key: u64,
    value: V,
    n: u32,
)
    ensures
        entry(m.insert(key, value), key) == Some(value),
        entry(m.remove(key), key) == None::<V>,
        m.contains_key(key) ==> entry(m, key) == Some(m[key]),
        count_of(counts.insert(key, n), key) == n,
        count_of(counts.remove(key), key) == 0,
        counts.contains_key(key) ==> count_of(counts, key) == counts[key],
{
}

/// A borrower's latest loan is the one whose number stands under the borrower, the
/// active one likewise, and there is none where there is no such number or no loan
/// under it. The pool and the loan counter start from nothing.
pub proof fn loans_are_found_by_their_numbers(s: State, borrower: Address)
    ensures
        ({
            let id = s.latest_loan[borrower];
            let found = s.latest_loan.contains_key(borrower) && s.loans.contains_key(id);
            &&& found ==> s.latest_record(borrower) == Some(s.loans[id])
            &&& !found ==> s.latest_record(borrower) is None
        }),
        ({
            let id = s.active_loan[borrower];
            let found = s.active_loan.contains_key(borrower) && s.loans.contains_key(id);
            &&& found ==> s.active_record(borrower) == Some(s.loans[id])
            &&& !found ==> s.active_record(borrower) is None
        }),
        s.insurance_pool matches Some(pool) ==> s.pool() == pool,
        s.insurance_pool is None ==> s.pool() == 0,
        s.loan_counter matches Some(last) ==> s.last_loan_id() == last,
        s.loan_counter is None ==> s.last_loan_id() == 0,
{
}

/// Every kind of event is published under a pair of topics of its own.
pub proof fn topics_tell_events_apart(a: Event, b: Event)
    ensures
        a.topics_spec() == b.topics_spec() <==> match (a, b) {
            (Event::ReferralSet { .. }, Event::ReferralSet { .. }) => true,
            (Event::ReferralBonus { .. }, Event::ReferralBonus { .. }) => true,
            (Event::LoanDisbursed { .. }, Event::LoanDisbursed { .. }) => true,
            (Event::LoanRepaid { .. }, Event::LoanRepaid { .. }) => true,
            (Event::RepaymentReminder { .. }, Event::RepaymentReminder { .. }) => true,
            (Event::ReputationMinted { .. }, Event::ReputationMinted { .. }) => true,
            (Event::InsuranceContributed { .. }, Event::InsuranceContributed { .. }) => true,
            (Event::InsuranceClaimed { .. }, Event::InsuranceClaimed { .. }) => true,
            _ => false,
        },
{
    reveal_strlit("referral");
    reveal_strlit("set");
    reveal_strlit("bonus");
    reveal_strlit("loan");
    reveal_strlit("disbursed");
    reveal_strlit("repaid");
    reveal_strlit("repay");
    reveal_strlit("reminder");
    reveal_strlit("rep");
    reveal_strlit("minted");
    reveal_strlit("ins");
    reveal_strlit("contrib");
    reveal_strlit("claim");
    assert("set"@.len() == 3 && "bonus"@.len() == 5 && "disbursed"@.len() == 9 && "repaid"@.len()
        == 6 && "reminder"@.len() == 8 && "minted"@.len() == 6 && "contrib"@.len() == 7
        && "claim"@.len() == 5);
    assert("rep"@.len() == 3 && "loan"@.len() == 4 && "ins"@.len() == 3 && "referral"@.len() == 8);
}

} // verus!
