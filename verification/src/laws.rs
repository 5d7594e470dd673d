//! What holds of the contract as a whole. What each operation does, said of the
//! contract's entries themselves, stands in the modules below.

pub mod announcements;
pub mod numbers;
pub mod pool;
pub mod reading;
pub mod repayments;
pub mod requests;

use crate::helpers::quotient;
use crate::insurance::{
    after_claim, after_contribution, claim_refusal, contribution_refusal, payout,
};
use crate::ledger::{
    backs, count_of, entry, in_token, is_amount, stake_sum, vouchers_of, Loan, Settings,
    State,
};
use crate::loan::{
    after_mint, after_referral, after_request, age_refusal, dynamic_yield, eligibility,
    is_due_soon, mint_refusal, new_loan, referral_refusal, reminders, request_refusal,
    yield_formula,
};
use crate::repayment::{
    after_collection, after_repayment, after_settlement, bonus_payment, co_signing_refusal,
    collection_refusal, distributed, outstanding, paid_loan, payout_refusal, payouts,
    settlement_refusal, total_owed, voucher_yield,
};
use crate::types::{
    Address, ContractError, Effect, Event, LoanStatus, Question, Stop, Terms, VouchRecord,
};
use vstd::prelude::*;

verus! {

/// A loan whose numbers make sense: nothing is negative, no more was paid than is
/// owed, and a repaid loan was paid in full.
pub open spec fn sound(loan: Loan) -> bool {
    &&& 0 <= loan.amount
    &&& 0 <= loan.total_yield
    &&& 0 <= loan.amount_repaid <= total_owed(loan)
    &&& loan.status == LoanStatus::Repaid ==> loan.amount_repaid == total_owed(loan)
}

/// What every call keeps true of the contract's entries.
pub open spec fn well_formed(s: State) -> bool {
    // Loans are stored under their ids, which count up from one.
    &&& forall|id: u64| #[trigger]
        s.loans.contains_key(id) ==> 1 <= id <= s.last_loan_id() && s.loans[id].id == id && sound(
            s.loans[id],
        )
    // An active entry leads to an active loan of that borrower, their latest one.
    &&& forall|b: Address| #[trigger]
        s.active_loan.contains_key(b) ==> s.loans.contains_key(s.active_loan[b])
            && s.loans[s.active_loan[b]].borrower == b && s.loans[s.active_loan[b]].status
            == LoanStatus::Active && entry(s.latest_loan, b) == Some(s.active_loan[b])
    // Every active loan is reached that way.
    &&& forall|id: u64| #[trigger]
        s.loans.contains_key(id) && s.loans[id].status == LoanStatus::Active ==> entry(
            s.active_loan,
            s.loans[id].borrower,
        ) == Some(id)
    // A latest entry leads to a loan of that borrower.
    &&& forall|b: Address| #[trigger]
        s.latest_loan.contains_key(b) ==> s.loans.contains_key(s.latest_loan[b])
            && s.loans[s.latest_loan[b]].borrower == b
    // Of every loan it is recorded who backed it.
    &&& forall|id: u64| #[trigger] s.loans.contains_key(id) ==> s.loan_vouchers.contains_key(id)
    &&& s.pool() >= 0
    &&& s.config.min_loan_amount >= 0
}

/// A contract without entries is well formed, if no negative loan is allowed.
pub proof fn fresh_is_well_formed(
    env: soroban_sdk::Env,
    contract: Address,
    timestamp: u64,
    terms: Terms,
    config: Settings,
)
    requires
        config.min_loan_amount >= 0,
    ensures
        well_formed(State::fresh(env, contract, timestamp, terms, config)),
{
}

/// A referral keeps the contract well formed.
pub proof fn referral_keeps_well_formed(s: State, borrower: Address, referrer: Address)
    requires
        well_formed(s),
        referral_refusal(s, borrower, referrer) is None,
    ensures
        well_formed(after_referral(s, borrower, referrer)),
{
}

/// A granted loan request keeps the contract well formed.
pub proof fn request_keeps_well_formed(
    s: State,
    borrower: Address,
    amount: i128,
    threshold: i128,
    purpose: soroban_sdk::String,
    token: Address,
)
    requires
        well_formed(s),
        request_refusal(s, borrower, amount, threshold, token) is None,
    ensures
        well_formed(after_request(s, borrower, amount, purpose, token)),
{
    let t = after_request(s, borrower, amount, purpose, token);
    let loan = new_loan(s, borrower, amount, purpose, token);
    assert(!s.loans.contains_key(loan.id));
    assert(!s.active_loan.contains_key(borrower));
    let bps = dynamic_yield(s, borrower).unwrap();
    assert(amount * bps >= 0) by (nonlinear_arith)
        requires
            amount >= 0,
            bps >= 0,
    ;
    assert(sound(loan));
    assert forall|b: Address| #[trigger] t.active_loan.contains_key(b) implies t.loans.contains_key(
        t.active_loan[b],
    ) && t.loans[t.active_loan[b]].borrower == b && t.loans[t.active_loan[b]].status
        == LoanStatus::Active && entry(t.latest_loan, b) == Some(t.active_loan[b]) by {
        if b != borrower {
            assert(s.active_loan.contains_key(b));
        }
    }
    assert forall|b: Address| #[trigger] t.latest_loan.contains_key(b) implies t.loans.contains_key(
        t.latest_loan[b],
    ) && t.loans[t.latest_loan[b]].borrower == b by {
        if b != borrower {
            assert(s.latest_loan.contains_key(b));
        }
    }
}

/// A repayment keeps the contract well formed.
pub proof fn repayment_keeps_well_formed(s: State, borrower: Address, payment: i128)
    requires
        well_formed(s),
        settlement_refusal(s, borrower, payment) is None,
    ensures
        well_formed(after_repayment(s, borrower, payment)),
{
    let t = after_repayment(s, borrower, payment);
    let loan = s.active_record(borrower).unwrap();
    assert(s.active_loan.contains_key(borrower));
    assert(s.active_loan[borrower] == loan.id);
    assert forall|b: Address| #[trigger] t.active_loan.contains_key(b) implies t.loans.contains_key(
        t.active_loan[b],
    ) && t.loans[t.active_loan[b]].borrower == b && t.loans[t.active_loan[b]].status
        == LoanStatus::Active && entry(t.latest_loan, b) == Some(t.active_loan[b]) by {
        assert(s.active_loan.contains_key(b));
    }
    assert forall|b: Address| #[trigger] t.latest_loan.contains_key(b) implies t.loans.contains_key(
        t.latest_loan[b],
    ) && t.loans[t.latest_loan[b]].borrower == b by {
        assert(s.latest_loan.contains_key(b));
    }
}

/// Either part of a repayment on its own keeps the contract well formed.
pub proof fn repayment_parts_keep_well_formed(s: State, borrower: Address, payment: i128)
    requires
        well_formed(s),
    ensures
        collection_refusal(s, borrower, payment) is None ==> well_formed(
            after_collection(s, borrower, payment),
        ),
        settlement_refusal(s, borrower, payment) is None ==> well_formed(
            after_settlement(s, borrower, payment),
        ),
{
    if settlement_refusal(s, borrower, payment) is None {
        repayment_keeps_well_formed(s, borrower, payment);
        let t = after_repayment(s, borrower, payment);
        let u = after_settlement(s, borrower, payment);
        assert(u.loans == t.loans);
        assert(u.active_loan == t.active_loan);
    }
}

/// A contribution to the insurance pool keeps the contract well formed.
pub proof fn contribution_keeps_well_formed(s: State, contributor: Address, amount: i128)
    requires
        well_formed(s),
        contribution_refusal(s, contributor, amount) is None,
    ensures
        well_formed(after_contribution(s, contributor, amount)),
{
}

/// An insurance claim keeps the contract well formed.
pub proof fn claim_keeps_well_formed(s: State, voucher: Address, loan_id: u64)
    requires
        well_formed(s),
        claim_refusal(s, voucher, loan_id) is None,
    ensures
        well_formed(after_claim(s, voucher, loan_id)),
{
}

/// Minting a reputation token and sending reminders keep the contract well formed.
pub proof fn announcements_keep_well_formed(s: State, borrower: Address)
    requires
        well_formed(s),
    ensures
        mint_refusal(s, borrower) is None ==> well_formed(after_mint(s, borrower)),
        well_formed(s.with_effects(reminders(s, s.last_loan_id() as nat))),
{
}

/// A borrower never has two active loans.
pub proof fn one_active_loan_each(s: State, id1: u64, id2: u64)
    requires
        well_formed(s),
        s.loans.contains_key(id1),
        s.loans.contains_key(id2),
        s.loans[id1].status == LoanStatus::Active,
        s.loans[id2].status == LoanStatus::Active,
        s.loans[id1].borrower == s.loans[id2].borrower,
    ensures
        id1 == id2,
{
}

/// Nothing happens without the caller's authorization: until it is granted, every
/// call that acts for an address only asks for it.
pub proof fn authorization_comes_first(
    s: State,
    caller: Address,
    other: Address,
    amount: i128,
    threshold: i128,
    loan_id: u64,
)
    requires
        !s.is_granted(0, caller),
    ensures
        referral_refusal(s, caller, other) == Some(Stop::Ask(Question::Auth(caller))),
        request_refusal(s, caller, amount, threshold, other) == Some(
            Stop::Ask(Question::Auth(caller)),
        ),
        collection_refusal(s, caller, amount) == Some(Stop::Ask(Question::Auth(caller))),
        settlement_refusal(s, caller, amount) == Some(Stop::Ask(Question::Auth(caller))),
        mint_refusal(s, caller) == Some(Stop::Ask(Question::Auth(caller))),
        contribution_refusal(s, caller, amount) == Some(Stop::Ask(Question::Auth(caller))),
        claim_refusal(s, caller, loan_id) == Some(Stop::Ask(Question::Auth(caller))),
{
}

/// What the host has answered is not asked again.
pub proof fn answers_settle_questions(
    s: State,
    caller: Address,
    other: Address,
    amount: i128,
    threshold: i128,
    loan_id: u64,
)
    requires
        s.is_granted(0, caller),
        s.contract_balance is Some,
        s.nft_balance is Some,
    ensures
        !(referral_refusal(s, caller, other) matches Some(Stop::Ask(_))),
        !(request_refusal(s, caller, amount, threshold, other) matches Some(Stop::Ask(_))),
        !(mint_refusal(s, caller) matches Some(Stop::Ask(_))),
        !(contribution_refusal(s, caller, amount) matches Some(Stop::Ask(_))),
        !(claim_refusal(s, caller, loan_id) matches Some(Stop::Ask(_))),
{
    lemma_age_is_not_asked(
        in_token(s.vouches_of(caller), other),
        s.timestamp,
        s.terms.min_vouch_age,
    );
}

proof fn lemma_age_is_not_asked(vouches: Seq<VouchRecord>, now: u64, min_age: u64)
    ensures
        !(age_refusal(vouches, now, min_age) matches Some(Stop::Ask(_))),
    decreases vouches.len(),
{
    if vouches.len() > 0 {
        lemma_age_is_not_asked(vouches.drop_last(), now, min_age);
    }
}

/// As long as the authorizations granted are those of the borrower and of the
/// first co-borrowers, a repayment asks for that of the next co-borrower.
pub proof fn repayment_asks_in_order(s: State, borrower: Address, payment: i128, k: int)
    requires
        !s.paused,
        s.active_record(borrower) matches Some(loan) && loan.borrower == borrower && 0 <= k
            < loan.co_borrowers.len() && s.granted == seq![borrower] + loan.co_borrowers.take(k),
    ensures
        collection_refusal(s, borrower, payment) == Some(
            Stop::Ask(Question::Auth(s.active_record(borrower).unwrap().co_borrowers[k])),
        ),
{
    let co = s.active_record(borrower).unwrap().co_borrowers;
    lemma_next_co_signer(s, co, k, co.len() as int);
    assert(co.take(co.len() as int) =~= co);
}

proof fn lemma_next_co_signer(s: State, co: Seq<Address>, k: int, n: int)
    requires
        0 <= k < co.len(),
        0 <= n <= co.len(),
        s.granted.len() == k + 1,
        forall|i: int| 0 <= i < k ==> s.granted[i + 1] == #[trigger] co[i],
    ensures
        co_signing_refusal(s, co.take(n)) == if n <= k {
            None::<Stop>
        } else {
            Some(Stop::Ask(Question::Auth(co[k])))
        },
    decreases n,
{
    if n > 0 {
        assert(co.take(n).drop_last() =~= co.take(n - 1));
        assert(co.take(n).last() == co[n - 1]);
        lemma_next_co_signer(s, co, k, n - 1);
    }
}

/// A loan is only paid on if every co-borrower has authorized it too.
pub proof fn co_borrowers_have_signed(s: State, borrower: Address, payment: i128, i: int)
    requires
        collection_refusal(s, borrower, payment) is None,
        0 <= i < s.active_record(borrower).unwrap().co_borrowers.len(),
    ensures
        s.is_granted(i + 1, s.active_record(borrower).unwrap().co_borrowers[i]),
{
    lemma_co_signed(s, s.active_record(borrower).unwrap().co_borrowers, i);
}

proof fn lemma_co_signed(s: State, co_borrowers: Seq<Address>, i: int)
    requires
        co_signing_refusal(s, co_borrowers) is None,
        0 <= i < co_borrowers.len(),
    ensures
        s.is_granted(i + 1, co_borrowers[i]),
    decreases co_borrowers.len(),
{
    if i < co_borrowers.len() - 1 {
        lemma_co_signed(s, co_borrowers.drop_last(), i);
    }
}

/// While the contract is paused, referrals, loan requests, repayments,
/// contributions and claims are all refused.
pub proof fn paused_refuses(
    s: State,
    caller: Address,
    other: Address,
    amount: i128,
    threshold: i128,
    loan_id: u64,
)
    requires
        s.paused,
        s.is_granted(0, caller),
    ensures
        referral_refusal(s, caller, other) == Some(Stop::Error(ContractError::ContractPaused)),
        request_refusal(s, caller, amount, threshold, other) == Some(
            Stop::Error(ContractError::ContractPaused),
        ),
        collection_refusal(s, caller, amount) == Some(Stop::Error(ContractError::ContractPaused)),
        settlement_refusal(s, caller, amount) == Some(Stop::Error(ContractError::ContractPaused)),
        contribution_refusal(s, caller, amount) == Some(
            Stop::Error(ContractError::ContractPaused),
        ),
        claim_refusal(s, caller, loan_id) == Some(Stop::Error(ContractError::ContractPaused)),
{
}

/// A blacklisted borrower gets no loan.
pub proof fn blacklisted_gets_no_loan(
    s: State,
    borrower: Address,
    amount: i128,
    threshold: i128,
    token: Address,
)
    requires
        entry(s.blacklisted, borrower) == Some(true),
    ensures
        request_refusal(s, borrower, amount, threshold, token) is Some,
{
}

/// Nobody refers themselves, and nobody is referred while a loan is active.
pub proof fn referral_limits(s: State, borrower: Address, referrer: Address)
    requires
        borrower == referrer || s.has_active_loan(borrower),
    ensures
        referral_refusal(s, borrower, referrer) is Some,
{
}

/// A registered referrer is the one that is read back, and a later registration
/// replaces an earlier one.
pub proof fn last_referral_counts(
    s: State,
    borrower: Address,
    earlier: Address,
    referrer: Address,
)
    ensures
        entry(after_referral(s, borrower, referrer).referred_by, borrower) == Some(referrer),
        after_referral(after_referral(s, borrower, earlier), borrower, referrer).referred_by
            == after_referral(s, borrower, referrer).referred_by,
{
    assert(after_referral(after_referral(s, borrower, earlier), borrower, referrer).referred_by
        =~= after_referral(s, borrower, referrer).referred_by);
}

/// A granted loan is within every limit: the configured minimum and maximum, what
/// the contract holds, and the permitted part of the stake, which itself reaches
/// the threshold that was asked for.
pub proof fn granted_loan_is_within_limits(
    s: State,
    borrower: Address,
    amount: i128,
    threshold: i128,
    token: Address,
)
    requires
        request_refusal(s, borrower, amount, threshold, token) is None,
    ensures
        s.token_allowed(token),
        s.config.min_loan_amount <= amount,
        s.max_loan_amount matches Some(max) ==> (max > 0 ==> amount <= max),
        s.contract_balance matches Some(balance) && amount <= balance,
        0 < threshold <= stake_sum(in_token(s.vouches_of(borrower), token)),
        amount <= quotient(
            stake_sum(in_token(s.vouches_of(borrower), token)) * s.config.max_loan_to_stake_ratio,
            100,
        ),
        s.min_vouchers matches Some(min) ==> in_token(s.vouches_of(borrower), token).len() >= min,
{
}

/// Every vouch behind a granted loan is staked in the loan's token and has reached
/// the minimum age.
pub proof fn backing_has_aged(
    s: State,
    borrower: Address,
    amount: i128,
    threshold: i128,
    token: Address,
    i: int,
)
    requires
        request_refusal(s, borrower, amount, threshold, token) is None,
        0 <= i < in_token(s.vouches_of(borrower), token).len(),
    ensures
        in_token(s.vouches_of(borrower), token)[i].token == token,
        in_token(s.vouches_of(borrower), token)[i].vouch_timestamp + s.terms.min_vouch_age
            <= s.timestamp,
{
    same_token_only(s.vouches_of(borrower), token, i);
    lemma_aged(
        in_token(s.vouches_of(borrower), token),
        s.timestamp,
        s.terms.min_vouch_age,
        i,
    );
}

/// Only vouches in a loan's own token back it and are paid when it is repaid.
pub proof fn same_token_only(vouches: Seq<VouchRecord>, token: Address, i: int)
    requires
        0 <= i < in_token(vouches, token).len(),
    ensures
        in_token(vouches, token)[i].token == token,
        vouches.contains(in_token(vouches, token)[i]),
{
    broadcast use vstd::seq_lib::group_seq_properties;

    let chosen = in_token(vouches, token);
    vouches.lemma_filter_contains_rev(|v: VouchRecord| v.token == token, chosen[i]);
}

proof fn lemma_aged(vouches: Seq<VouchRecord>, now: u64, min_age: u64, i: int)
    requires
        age_refusal(vouches, now, min_age) is None,
        0 <= i < vouches.len(),
    ensures
        vouches[i].vouch_timestamp + min_age <= now,
    decreases vouches.len(),
{
    if i < vouches.len() - 1 {
        lemma_aged(vouches.drop_last(), now, min_age, i);
    }
}

/// A granted loan is what is read back, under its id and as the borrower's latest
/// and active loan; those who back it are kept with it; its id is larger than all
/// before it, and one more loan is counted.
pub proof fn granted_loan_is_read_back(
    s: State,
    borrower: Address,
    amount: i128,
    threshold: i128,
    purpose: soroban_sdk::String,
    token: Address,
)
    requires
        well_formed(s),
        request_refusal(s, borrower, amount, threshold, token) is None,
    ensures
        ({
            let loan = new_loan(s, borrower, amount, purpose, token);
            let t = after_request(s, borrower, amount, purpose, token);
            &&& entry(t.loans, loan.id) == Some(loan)
            &&& t.latest_record(borrower) == Some(loan)
            &&& t.active_record(borrower) == Some(loan)
            &&& t.has_active_loan(borrower)
            &&& entry(t.loan_vouchers, loan.id) == Some(
                vouchers_of(in_token(s.vouches_of(borrower), token)),
            )
            &&& loan.status == LoanStatus::Active
            &&& outstanding(loan) == amount + loan.total_yield
            &&& forall|id: u64| s.loans.contains_key(id) ==> id < loan.id
            &&& count_of(t.loan_count, borrower) == count_of(s.loan_count, borrower) + 1
        }),
{
}

/// A granted loan leaves every other borrower, and every other loan, alone.
pub proof fn granted_loan_leaves_others_alone(
    s: State,
    borrower: Address,
    amount: i128,
    threshold: i128,
    purpose: soroban_sdk::String,
    token: Address,
    other: Address,
    id: u64,
)
    requires
        well_formed(s),
        request_refusal(s, borrower, amount, threshold, token) is None,
        other != borrower,
        s.loans.contains_key(id),
    ensures
        ({
            let t = after_request(s, borrower, amount, purpose, token);
            &&& entry(t.loans, id) == entry(s.loans, id)
            &&& entry(t.loan_vouchers, id) == entry(s.loan_vouchers, id)
            &&& t.active_record(other) == s.active_record(other)
            &&& t.latest_record(other) == s.latest_record(other)
            &&& count_of(t.loan_count, other) == count_of(s.loan_count, other)
        }),
{
    let t = after_request(s, borrower, amount, purpose, token);
    if s.active_loan.contains_key(other) {
        assert(s.loans.contains_key(s.active_loan[other]));
    }
    if s.latest_loan.contains_key(other) {
        assert(s.loans.contains_key(s.latest_loan[other]));
    }
}

/// Whoever has just been given a loan is refused the next one, whatever they ask.
/// Where nothing else speaks against the request, the active loan is the reason.
pub proof fn second_loan_is_refused(
    s: State,
    borrower: Address,
    amount: i128,
    purpose: soroban_sdk::String,
    token: Address,
    amount2: i128,
    threshold2: i128,
    token2: Address,
)
    ensures
        request_refusal(
            after_request(s, borrower, amount, purpose, token),
            borrower,
            amount2,
            threshold2,
            token2,
        ) is Some,
        s.is_granted(0, borrower) && !s.paused && entry(s.blacklisted, borrower) != Some(true)
            && s.token_allowed(token2) && s.config.min_loan_amount <= amount2 && 0 < threshold2
            && (s.max_loan_amount matches Some(max) ==> !(0 < max < amount2)) ==> request_refusal(
            after_request(s, borrower, amount, purpose, token),
            borrower,
            amount2,
            threshold2,
            token2,
        ) == Some(Stop::Error(ContractError::ActiveLoanExists)),
{
}

/// Whoever is granted a loan was eligible for it.
pub proof fn granted_implies_eligible(
    s: State,
    borrower: Address,
    amount: i128,
    threshold: i128,
    token: Address,
)
    requires
        well_formed(s),
        request_refusal(s, borrower, amount, threshold, token) is None,
    ensures
        eligibility(s, borrower, threshold, token) == Ok::<bool, Stop>(true),
{
    if s.latest_loan.contains_key(borrower) {
        let id = s.latest_loan[borrower];
        assert(s.loans.contains_key(id));
    }
}

/// The yield never falls below zero, never falls with a better score, and never
/// rises with another default.
pub proof fn yield_follows_reputation(
    base: int,
    score: int,
    better: int,
    defaults: int,
    fewer: int,
)
    requires
        score <= better,
        fewer <= defaults,
    ensures
        0 <= yield_formula(base, score, defaults),
        yield_formula(base, score, defaults) <= yield_formula(base, better, fewer),
{
}

/// Without score and defaults the yield is the configured one, if that is not
/// negative.
pub proof fn plain_yield(s: State, borrower: Address)
    requires
        s.reputation_nft is None,
        count_of(s.default_count, borrower) == 0,
    ensures
        dynamic_yield(s, borrower) == Ok::<i128, Stop>(
            if s.config.yield_bps < 0 {
                0
            } else {
                s.config.yield_bps
            },
        ),
{
}

/// Stakes as they are when vouching is sound: none of them negative.
pub open spec fn stakes_nonnegative(backing: Seq<VouchRecord>) -> bool {
    forall|i: int| 0 <= i < backing.len() ==> (#[trigger] backing[i]).stake >= 0
}

/// What the vouchers earn together is never more than the loan's yield, and where
/// there is stake at all, rounding keeps back less than one unit of each voucher.
pub proof fn yield_is_not_exceeded(backing: Seq<VouchRecord>, total_yield: int)
    requires
        stakes_nonnegative(backing),
        total_yield >= 0,
    ensures
        0 <= distributed(backing, total_yield, stake_sum(backing)) <= total_yield,
        stake_sum(backing) > 0 ==> total_yield - backing.len() < distributed(
            backing,
            total_yield,
            stake_sum(backing),
        ),
{
    if stake_sum(backing) > 0 {
        let whole = stake_sum(backing);
        let n = backing.len() as int;
        let d = distributed(backing, total_yield, whole);
        lemma_distributed_floor(backing, total_yield, whole);
        assert(total_yield - n < d) by (nonlinear_arith)
            requires
                total_yield * whole + n <= (d + n) * whole,
                n > 0,
                whole > 0,
        ;
    }
    lemma_prefix_sum(backing, backing.len() as int);
    assert(backing.take(backing.len() as int) =~= backing);
    lemma_distributed_bound(backing, total_yield, stake_sum(backing));
}

/// Paying the vouchers never runs into want of yield.
pub proof fn payouts_do_not_lack_yield(backing: Seq<VouchRecord>, total_yield: int)
    requires
        stakes_nonnegative(backing),
        total_yield >= 0,
    ensures
        payout_refusal(backing, total_yield, stake_sum(backing)) matches Some(stop) ==> stop
            == Stop::Overflow,
{
    let n = backing.len() as int;
    assert(backing.take(n) =~= backing);
    lemma_payouts_do_not_lack_yield(backing, total_yield, n);
}

proof fn lemma_payouts_do_not_lack_yield(backing: Seq<VouchRecord>, total_yield: int, k: int)
    requires
        stakes_nonnegative(backing),
        total_yield >= 0,
        0 <= k <= backing.len(),
    ensures
        payout_refusal(backing.take(k), total_yield, stake_sum(backing)) matches Some(stop) ==> stop
            == Stop::Overflow,
    decreases k,
{
    if k > 0 {
        assert(backing.take(k).drop_last() =~= backing.take(k - 1));
        lemma_payouts_do_not_lack_yield(backing, total_yield, k - 1);
        lemma_prefix_sum(backing, k);
        lemma_distributed_bound(backing.take(k), total_yield, stake_sum(backing));
    }
}

/// A part of nonnegative stakes sums up to no more than all of them.
proof fn lemma_prefix_sum(backing: Seq<VouchRecord>, k: int)
    requires
        stakes_nonnegative(backing),
        0 <= k <= backing.len(),
    ensures
        0 <= stake_sum(backing.take(k)) <= stake_sum(backing),
    decreases backing.len(),
{
    if k == backing.len() {
        assert(backing.take(k) =~= backing);
        if k > 0 {
            lemma_prefix_sum(backing.drop_last(), k - 1);
            assert(backing.drop_last().take(k - 1) =~= backing.drop_last());
        }
    } else {
        assert(backing.drop_last().take(k) =~= backing.take(k));
        lemma_prefix_sum(backing.drop_last(), k);
    }
}

/// Rounding down each share gives away no more than the part of the yield that
/// the stakes are of the whole.
proof fn lemma_distributed_bound(backing: Seq<VouchRecord>, total_yield: int, whole: int)
    requires
        stakes_nonnegative(backing),
        total_yield >= 0,
        0 <= stake_sum(backing) <= whole,
    ensures
        0 <= distributed(backing, total_yield, whole) <= total_yield,
{
    if whole > 0 {
        lemma_distributed_scaled(backing, total_yield, whole);
        let d = distributed(backing, total_yield, whole);
        let sum = stake_sum(backing);
        assert(d <= total_yield) by (nonlinear_arith)
            requires
                d * whole <= total_yield * sum,
                sum <= whole,
                total_yield >= 0,
                whole > 0,
        ;
    } else {
        lemma_nothing_distributed(backing, total_yield, whole);
    }
}

proof fn lemma_distributed_scaled(backing: Seq<VouchRecord>, total_yield: int, whole: int)
    requires
        stakes_nonnegative(backing),
        total_yield >= 0,
        whole > 0,
    ensures
        0 <= distributed(backing, total_yield, whole),
        distributed(backing, total_yield, whole) * whole <= total_yield * stake_sum(backing),
    decreases backing.len(),
{
    if backing.len() > 0 {
        let stake = backing.last().stake as int;
        let before = distributed(backing.drop_last(), total_yield, whole);
        let sum = stake_sum(backing.drop_last());
        lemma_distributed_scaled(backing.drop_last(), total_yield, whole);
        lemma_share_bound(total_yield, stake, whole);
        let y = voucher_yield(total_yield, stake, whole);
        assert((before + y) * whole <= total_yield * (sum + stake)) by (nonlinear_arith)
            requires
                before * whole <= total_yield * sum,
                y * whole <= total_yield * stake,
        ;
    } else {
        assert(0 * whole <= total_yield * 0) by (nonlinear_arith);
    }
}

/// Rounding down each share keeps back less than one unit of each voucher.
proof fn lemma_distributed_floor(backing: Seq<VouchRecord>, total_yield: int, whole: int)
    requires
        stakes_nonnegative(backing),
        total_yield >= 0,
        whole > 0,
    ensures
        total_yield * stake_sum(backing) + backing.len() <= (distributed(
            backing,
            total_yield,
            whole,
        ) + backing.len()) * whole,
    decreases backing.len(),
{
    if backing.len() > 0 {
        let stake = backing.last().stake as int;
        let before = distributed(backing.drop_last(), total_yield, whole);
        let sum = stake_sum(backing.drop_last());
        let n = backing.drop_last().len() as int;
        lemma_distributed_floor(backing.drop_last(), total_yield, whole);
        lemma_share_bound(total_yield, stake, whole);
        let y = voucher_yield(total_yield, stake, whole);
        assert(total_yield * (sum + stake) + (n + 1) <= (before + y + (n + 1)) * whole)
            by (nonlinear_arith)
            requires
                total_yield * sum + n <= (before + n) * whole,
                total_yield * stake < (y + 1) * whole,
        ;
    } else {
        assert(total_yield * 0 + 0 <= (0 + 0) * whole) by (nonlinear_arith);
    }
}

/// One share, scaled up again, is no more than what it was rounded down from, and
/// less than one unit short of it.
proof fn lemma_share_bound(total_yield: int, stake: int, whole: int)
    requires
        total_yield >= 0,
        stake >= 0,
        whole > 0,
    ensures
        0 <= voucher_yield(total_yield, stake, whole),
        voucher_yield(total_yield, stake, whole) * whole <= total_yield * stake,
        total_yield * stake < (voucher_yield(total_yield, stake, whole) + 1) * whole,
{
    let product = total_yield * stake;
    assert(product >= 0) by (nonlinear_arith)
        requires
            total_yield >= 0,
            stake >= 0,
            product == total_yield * stake,
    ;
    assert(0 <= product / whole && (product / whole) * whole <= product && product < (product
        / whole + 1) * whole) by (nonlinear_arith)
        requires
            product >= 0,
            whole > 0,
    ;
}

proof fn lemma_nothing_distributed(backing: Seq<VouchRecord>, total_yield: int, whole: int)
    requires
        whole <= 0,
    ensures
        distributed(backing, total_yield, whole) == 0,
    decreases backing.len(),
{
    if backing.len() > 0 {
        lemma_nothing_distributed(backing.drop_last(), total_yield, whole);
    }
}

/// A repayment to a well-formed contract is never given up for want of yield, as
/// long as no stake is negative.
pub proof fn repayment_does_not_lack_yield(s: State, borrower: Address, payment: i128)
    requires
        well_formed(s),
        stakes_nonnegative(s.vouches_of(borrower)),
    ensures
        collection_refusal(s, borrower, payment) != Some(
            Stop::Panic(ContractError::InsufficientFunds),
        ),
        settlement_refusal(s, borrower, payment) != Some(
            Stop::Panic(ContractError::InsufficientFunds),
        ),
{
    if let Some(loan) = s.active_record(borrower) {
        assert(s.loans.contains_key(s.active_loan[borrower]));
        let vouches = s.vouches_of(borrower);
        let backing = in_token(vouches, loan.token_address);
        assert forall|i: int| 0 <= i < backing.len() implies (#[trigger] backing[i]).stake >= 0 by {
            same_token_only(vouches, loan.token_address, i);
            let j = choose|j: int| 0 <= j < vouches.len() && vouches[j] == backing[i];
            assert(vouches[j].stake >= 0);
        }
        payouts_do_not_lack_yield(backing, loan.total_yield as int);
        lemma_co_signing_only_asks(s, loan.co_borrowers);
    }
}

proof fn lemma_co_signing_only_asks(s: State, co_borrowers: Seq<Address>)
    ensures
        co_signing_refusal(s, co_borrowers) matches Some(stop) ==> stop is Ask,
    decreases co_borrowers.len(),
{
    if co_borrowers.len() > 0 {
        lemma_co_signing_only_asks(s, co_borrowers.drop_last());
    }
}

/// The sum of what is transferred.
pub open spec fn transferred(effects: Seq<Effect>) -> int
    decreases effects.len(),
{
    if effects.len() == 0 {
        0
    } else {
        transferred(effects.drop_last()) + match effects.last() {
            Effect::Transfer { amount, .. } => amount as int,
            _ => 0,
        }
    }
}

/// The payouts to the vouchers add up to their stakes and what they have earned.
pub proof fn payouts_add_up(
    contract: Address,
    token: Address,
    backing: Seq<VouchRecord>,
    total_yield: int,
    whole: int,
)
    requires
        payout_refusal(backing, total_yield, whole) is None,
    ensures
        transferred(payouts(contract, token, backing, total_yield, whole)) == stake_sum(backing)
            + distributed(backing, total_yield, whole),
    decreases backing.len(),
{
    let all = payouts(contract, token, backing, total_yield, whole);
    if backing.len() > 0 {
        let before = payouts(contract, token, backing.drop_last(), total_yield, whole);
        assert(all.drop_last() =~= before);
        payouts_add_up(contract, token, backing.drop_last(), total_yield, whole);
    }
}

/// Together the vouchers get their stakes back, and the loan's yield on top; where
/// there is stake at all, rounding keeps back less than one unit of each voucher.
pub proof fn vouchers_share_the_yield(
    contract: Address,
    token: Address,
    backing: Seq<VouchRecord>,
    total_yield: int,
)
    requires
        stakes_nonnegative(backing),
        total_yield >= 0,
        payout_refusal(backing, total_yield, stake_sum(backing)) is None,
    ensures
        stake_sum(backing) <= transferred(
            payouts(contract, token, backing, total_yield, stake_sum(backing)),
        ) <= stake_sum(backing) + total_yield,
        stake_sum(backing) > 0 ==> stake_sum(backing) + total_yield - backing.len() < transferred(
            payouts(contract, token, backing, total_yield, stake_sum(backing)),
        ),
{
    yield_is_not_exceeded(backing, total_yield);
    payouts_add_up(contract, token, backing, total_yield, stake_sum(backing));
}

/// Every voucher of a repaid loan gets the stake back, and what it has earned on
/// top is not negative.
pub proof fn stake_comes_back(
    contract: Address,
    token: Address,
    backing: Seq<VouchRecord>,
    total_yield: int,
    i: int,
)
    requires
        stakes_nonnegative(backing),
        total_yield >= 0,
        payout_refusal(backing, total_yield, stake_sum(backing)) is None,
        0 <= i < backing.len(),
    ensures
        payouts(contract, token, backing, total_yield, stake_sum(backing)).len() == backing.len(),
        payouts(contract, token, backing, total_yield, stake_sum(backing))[i] matches Effect::Transfer {
            to,
            amount,
            ..
        } && to == backing[i].voucher && amount >= backing[i].stake,
{
    let whole = stake_sum(backing);
    let stake = backing[i].stake as int;
    if whole > 0 {
        lemma_share_bound(total_yield, stake, whole);
    }
    lemma_payout_fits(backing, total_yield, whole, i);
}

proof fn lemma_payout_fits(backing: Seq<VouchRecord>, total_yield: int, whole: int, i: int)
    requires
        payout_refusal(backing, total_yield, whole) is None,
        0 <= i < backing.len(),
    ensures
        is_amount(
            backing[i].stake + voucher_yield(total_yield, backing[i].stake as int, whole),
        ),
    decreases backing.len(),
{
    if i < backing.len() - 1 {
        lemma_payout_fits(backing.drop_last(), total_yield, whole, i);
    }
}

/// A repayment is more than nothing and at most what is outstanding; it comes in
/// time, and it lowers what is outstanding by itself.
pub proof fn payment_lowers_debt(s: State, borrower: Address, payment: i128)
    requires
        settlement_refusal(s, borrower, payment) is None,
    ensures
        ({
            let loan = s.active_record(borrower).unwrap();
            let t = after_repayment(s, borrower, payment);
            &&& 0 < payment <= outstanding(loan)
            &&& loan.borrower == borrower
            &&& loan.status == LoanStatus::Active
            &&& s.timestamp <= loan.deadline
            &&& entry(t.loans, loan.id) == Some(paid_loan(s, loan, payment))
            &&& outstanding(paid_loan(s, loan, payment)) == outstanding(loan) - payment
        }),
{
}

/// A payment that leaves something outstanding touches nothing but the amount
/// repaid, and moves nothing but the payment.
pub proof fn part_payment_touches_only_the_loan(s: State, borrower: Address, payment: i128)
    requires
        settlement_refusal(s, borrower, payment) is None,
        payment < outstanding(s.active_record(borrower).unwrap()),
    ensures
        ({
            let loan = s.active_record(borrower).unwrap();
            after_repayment(s, borrower, payment) == State {
                loans: s.loans.insert(
                    loan.id,
                    Loan { amount_repaid: (loan.amount_repaid + payment) as i128, ..loan },
                ),
                effects: s.effects.push(
                    Effect::Transfer {
                        token: loan.token_address,
                        from: borrower,
                        to: s.contract,
                        amount: payment,
                    },
                ),
                ..s
            }
        }),
{
    let loan = s.active_record(borrower).unwrap();
    assert(after_repayment(s, borrower, payment).effects =~= s.effects.push(
        Effect::Transfer {
            token: loan.token_address,
            from: borrower,
            to: s.contract,
            amount: payment,
        },
    ));
}

/// The last payment closes the loan: it reads as repaid, the borrower has no
/// active loan and no vouches any more, and one more repayment is counted.
pub proof fn last_payment_closes_the_loan(s: State, borrower: Address, payment: i128)
    requires
        well_formed(s),
        settlement_refusal(s, borrower, payment) is None,
        payment == outstanding(s.active_record(borrower).unwrap()),
    ensures
        ({
            let t = after_repayment(s, borrower, payment);
            &&& t.latest_record(borrower) matches Some(closed)
            &&& closed.status == LoanStatus::Repaid
            &&& closed.amount_repaid == total_owed(closed)
            &&& closed.repayment_timestamp == Some(s.timestamp)
            &&& !t.has_active_loan(borrower)
            &&& t.active_record(borrower) is None
            &&& t.vouches_of(borrower).len() == 0
            &&& count_of(t.repayment_count, borrower) == count_of(s.repayment_count, borrower) + 1
        }),
{
    assert(s.active_loan.contains_key(borrower));
}

/// A loan that was closed cannot be paid on again.
pub proof fn closed_loan_takes_no_payment(s: State, borrower: Address, payment: i128, again: i128)
    requires
        settlement_refusal(s, borrower, payment) is None,
        payment == outstanding(s.active_record(borrower).unwrap()),
    ensures
        settlement_refusal(after_repayment(s, borrower, payment), borrower, again) == Some(
            Stop::Error(ContractError::NoActiveLoan),
        ),
{
}

/// It does not matter whether a loan is paid in one go or in two: the contract ends
/// up the same, and behind the borrower's own payments the same is carried out.
pub proof fn payments_add_up(s: State, borrower: Address, one: i128, two: i128)
    requires
        well_formed(s),
        settlement_refusal(s, borrower, one) is None,
        one < outstanding(s.active_record(borrower).unwrap()),
        settlement_refusal(after_repayment(s, borrower, one), borrower, two) is None,
    ensures
        is_amount(one + two),
        settlement_refusal(s, borrower, (one + two) as i128) is None,
        ({
            let twice = after_repayment(after_repayment(s, borrower, one), borrower, two);
            let once = after_repayment(s, borrower, (one + two) as i128);
            let token = s.active_record(borrower).unwrap().token_address;
            let rest = once.effects.skip(s.effects.len() as int + 1);
            let pays = |amount: i128|
                Effect::Transfer { token, from: borrower, to: s.contract, amount };
            &&& State { effects: once.effects, ..twice } == once
            &&& once.effects == s.effects + seq![pays((one + two) as i128)] + rest
            &&& twice.effects == s.effects + seq![pays(one), pays(two)] + rest
        }),
{
    let loan = s.active_record(borrower).unwrap();
    assert(s.active_loan.contains_key(borrower));
    assert(loan.id == s.active_loan[borrower]);
    let mid = after_repayment(s, borrower, one);
    let half = mid.active_record(borrower).unwrap();
    assert(half == paid_loan(s, loan, one));
    assert(outstanding(half) == outstanding(loan) - one);
    let whole = (one + two) as i128;
    lemma_co_signing_same(s, mid, loan.co_borrowers);
    let twice = after_repayment(mid, borrower, two);
    let once = after_repayment(s, borrower, whole);
    assert(paid_loan(mid, half, two) == paid_loan(s, loan, whole));
    assert(twice.loans =~= once.loans);
    assert(State { effects: once.effects, ..twice } =~= once);
    let rest = once.effects.skip(s.effects.len() as int + 1);
    let pays = |amount: i128|
        Effect::Transfer { token: loan.token_address, from: borrower, to: s.contract, amount };
    assert(mid.effects =~= s.effects.push(pays(one)));
    assert(once.effects =~= s.effects + seq![pays(whole)] + rest);
    assert(twice.effects =~= s.effects + seq![pays(one), pays(two)] + rest);
}

/// Who has to co-sign depends on the granted authorizations alone.
proof fn lemma_co_signing_same(s: State, t: State, co_borrowers: Seq<Address>)
    requires
        s.granted == t.granted,
    ensures
        co_signing_refusal(s, co_borrowers) == co_signing_refusal(t, co_borrowers),
    decreases co_borrowers.len(),
{
    if co_borrowers.len() > 0 {
        lemma_co_signing_same(s, t, co_borrowers.drop_last());
    }
}

/// A repayment leaves every other borrower, every other loan, and who vouched for
/// which loan alone.
pub proof fn repayment_leaves_others_alone(
    s: State,
    borrower: Address,
    payment: i128,
    other: Address,
    id: u64,
)
    requires
        well_formed(s),
        settlement_refusal(s, borrower, payment) is None,
        other != borrower,
        id != s.active_record(borrower).unwrap().id,
    ensures
        ({
            let t = after_repayment(s, borrower, payment);
            &&& entry(t.loans, id) == entry(s.loans, id)
            &&& t.loan_vouchers == s.loan_vouchers
            &&& t.active_record(other) == s.active_record(other)
            &&& t.latest_record(other) == s.latest_record(other)
            &&& t.vouches_of(other) == s.vouches_of(other)
            &&& count_of(t.repayment_count, other) == count_of(s.repayment_count, other)
        }),
{
    assert(s.active_loan.contains_key(borrower));
    if s.active_loan.contains_key(other) {
        assert(s.loans.contains_key(s.active_loan[other]));
    }
    if s.latest_loan.contains_key(other) {
        assert(s.loans.contains_key(s.latest_loan[other]));
    }
}

/// A repayment is its two parts, one after the other, with the balance that the
/// host reports in between.
pub proof fn parts_make_a_repayment(s: State, borrower: Address, payment: i128, balance: i128)
    requires
        collection_refusal(s, borrower, payment) is None,
    ensures
        ({
            let between = State {
                contract_balance: Some(balance),
                ..after_collection(s, borrower, payment)
            };
            let told = State { contract_balance: Some(balance), ..s };
            &&& settlement_refusal(between, borrower, payment) == settlement_refusal(
                told,
                borrower,
                payment,
            )
            &&& after_settlement(between, borrower, payment) == after_repayment(
                told,
                borrower,
                payment,
            )
        }),
{
    let between = State {
        contract_balance: Some(balance),
        ..after_collection(s, borrower, payment)
    };
    let told = State { contract_balance: Some(balance), ..s };
    let loan = s.active_record(borrower).unwrap();
    lemma_co_signing_same(s, between, loan.co_borrowers);
    lemma_co_signing_same(s, told, loan.co_borrowers);
    assert(between =~= after_collection(told, borrower, payment));
}

/// After its deadline a loan cannot be paid on.
pub proof fn late_payment_is_refused(s: State, borrower: Address, payment: i128)
    requires
        s.active_record(borrower) matches Some(loan) && loan.deadline < s.timestamp,
    ensures
        collection_refusal(s, borrower, payment) is Some,
        settlement_refusal(s, borrower, payment) is Some,
{
}

/// A referral bonus is only paid if the contract can afford it.
pub proof fn bonus_is_affordable(s: State, loan: Loan, borrower: Address)
    ensures
        bonus_payment(s, loan, borrower).len() > 0 ==> (s.contract_balance matches Some(balance)
            && 0 < transferred(bonus_payment(s, loan, borrower)) <= balance),
{
    let paid = bonus_payment(s, loan, borrower);
    if paid.len() > 0 {
        assert(paid.drop_last().drop_last() =~= Seq::<Effect>::empty());
        reveal_with_fuel(transferred, 3);
    }
}

/// Whoever has just repaid a loan can have a reputation token minted, where a
/// reputation contract is configured.
pub proof fn repaying_earns_reputation(s: State, borrower: Address, payment: i128)
    requires
        settlement_refusal(s, borrower, payment) is None,
        payment == outstanding(s.active_record(borrower).unwrap()),
        s.reputation_nft is Some,
    ensures
        mint_refusal(after_repayment(s, borrower, payment), borrower) is None,
{
}

/// A reputation token is minted only for a borrower who has repaid a loan, and
/// only where a reputation contract is configured.
pub proof fn reputation_is_earned(s: State, borrower: Address)
    requires
        mint_refusal(s, borrower) is None,
    ensures
        count_of(s.repayment_count, borrower) > 0,
        s.reputation_nft is Some,
{
}

/// A contribution raises the pool by itself.
pub proof fn contribution_raises_pool(s: State, contributor: Address, amount: i128)
    requires
        contribution_refusal(s, contributor, amount) is None,
    ensures
        after_contribution(s, contributor, amount).pool() == s.pool() + amount,
        after_contribution(s, contributor, amount).pool() > s.pool(),
{
}

/// A claim lowers the pool by what it pays: all of the loan's amount, or all that
/// the pool holds.
pub proof fn claim_lowers_pool(s: State, voucher: Address, loan_id: u64)
    requires
        well_formed(s),
        claim_refusal(s, voucher, loan_id) is None,
    ensures
        ({
            let paid = payout(s, s.loans[loan_id]);
            let t = after_claim(s, voucher, loan_id);
            &&& 0 <= paid <= s.pool()
            &&& paid <= s.loans[loan_id].amount
            &&& paid == s.pool() || paid == s.loans[loan_id].amount
            &&& t.pool() == s.pool() - paid
            &&& t.pool() >= 0
        }),
{
}

/// There is one claim for each loan: after it, whoever claims for that loan is
/// told that it was made.
pub proof fn one_claim_each(s: State, voucher: Address, loan_id: u64, other: Address)
    requires
        claim_refusal(s, voucher, loan_id) is None,
    ensures
        claim_refusal(after_claim(s, voucher, loan_id), other, loan_id) is Some,
        s.is_granted(0, other) ==> claim_refusal(
            after_claim(s, voucher, loan_id),
            other,
            loan_id,
        ) == Some(Stop::Error(ContractError::InsuranceClaimAlreadyMade)),
{
}

/// Insurance is paid only for loans that were written off, and only to somebody
/// who was a voucher on that very loan: in a well-formed contract, one who backed
/// it when it was disbursed or has come to stand behind it since.
pub proof fn claims_are_for_vouchers_of_defaults(s: State, voucher: Address, loan_id: u64)
    requires
        claim_refusal(s, voucher, loan_id) is None,
    ensures
        entry(s.loans, loan_id) matches Some(loan) && loan.status == LoanStatus::Defaulted
            && s.history_of(voucher).contains(loan.borrower),
        s.vouched_for_loan(voucher, loan_id),
        well_formed(s) ==> s.loan_vouchers[loan_id].contains(voucher) || s.stands_behind(
            voucher,
            s.loans[loan_id],
            loan_id,
        ),
        s.pool() > 0,
{
}

/// Whoever was no voucher on a loan gets no insurance for it, even if they have
/// vouched for its borrower on another loan. Where nothing else speaks against the
/// claim, that is the reason.
pub proof fn strangers_to_a_loan_cannot_claim(s: State, voucher: Address, loan_id: u64)
    requires
        !s.vouched_for_loan(voucher, loan_id),
    ensures
        claim_refusal(s, voucher, loan_id) is Some,
        s.is_granted(0, voucher) && !s.paused && (entry(s.loans, loan_id) matches Some(loan)
            && loan.status == LoanStatus::Defaulted) && !s.insurance_claim.contains_key(loan_id)
            ==> claim_refusal(s, voucher, loan_id) == Some(
            Stop::Error(ContractError::UnauthorizedCaller),
        ),
{
}

/// A voucher on a loan that was written off, whether from the start or later, is
/// paid, unless the pool is empty or somebody was paid before.
pub proof fn vouchers_of_defaults_can_claim(s: State, voucher: Address, loan_id: u64)
    requires
        well_formed(s),
        s.is_granted(0, voucher),
        !s.paused,
        s.loans.contains_key(loan_id),
        s.loans[loan_id].status == LoanStatus::Defaulted,
        s.history_of(voucher).contains(s.loans[loan_id].borrower),
        s.loan_vouchers[loan_id].contains(voucher) || s.stands_behind(
            voucher,
            s.loans[loan_id],
            loan_id,
        ),
        !s.insurance_claim.contains_key(loan_id),
        s.pool() > 0,
    ensures
        claim_refusal(s, voucher, loan_id) is None,
{
}

/// When a loan has just been granted, the vouchers on it are exactly those whose
/// stakes, in its token, back it.
pub proof fn backers_vouched_for_the_loan(
    s: State,
    borrower: Address,
    amount: i128,
    purpose: soroban_sdk::String,
    token: Address,
    voucher: Address,
)
    ensures
        ({
            let backing = in_token(s.vouches_of(borrower), token);
            let id = new_loan(s, borrower, amount, purpose, token).id;
            after_request(s, borrower, amount, purpose, token).vouched_for_loan(voucher, id)
                <==> exists|i: int|
                0 <= i < backing.len() && (#[trigger] backing[i]).voucher == voucher
        }),
{
    let backing = in_token(s.vouches_of(borrower), token);
    let vouchers = vouchers_of(backing);
    if vouchers.contains(voucher) {
        let i = choose|i: int| 0 <= i < vouchers.len() && vouchers[i] == voucher;
        assert(backing[i].voucher == voucher);
    }
    if exists|i: int| 0 <= i < backing.len() && (#[trigger] backing[i]).voucher == voucher {
        let i = choose|i: int|
            0 <= i < backing.len() && (#[trigger] backing[i]).voucher == voucher;
        assert(vouchers[i] == voucher);
    }
    let t = after_request(s, borrower, amount, purpose, token);
    let loan = new_loan(s, borrower, amount, purpose, token);
    if t.stands_behind(voucher, loan, loan.id) {
        let vouches = s.vouches_of(borrower);
        let i = choose|i: int|
            0 <= i < vouches.len() && backs(#[trigger] vouches[i], voucher, loan);
        vouches.lemma_filter_contains_rev(|v: VouchRecord| v.token == token, vouches[i]);
    }
}

/// Every loan that is due soon is reminded of.
pub proof fn due_loans_are_reminded(s: State, last: nat, id: u64)
    requires
        1 <= id <= last <= u64::MAX,
        is_due_soon(s, id),
    ensures
        reminders(s, last).contains(
            Effect::Publish(
                Event::RepaymentReminder {
                    borrower: s.loans[id].borrower,
                    deadline: s.loans[id].deadline,
                },
            ),
        ),
    decreases last,
{
    let effect = Effect::Publish(
        Event::RepaymentReminder {
            borrower: s.loans[id].borrower,
            deadline: s.loans[id].deadline,
        },
    );
    let all = reminders(s, last);
    if id == last {
        assert(all[all.len() - 1] == effect);
    } else {
        let before = reminders(s, (last - 1) as nat);
        due_loans_are_reminded(s, (last - 1) as nat, id);
        let k = choose|k: int| 0 <= k < before.len() && before[k] == effect;
        assert(all[k] == effect);
    }
}

/// Every reminder is for a loan that is due soon.
pub proof fn reminders_are_for_due_loans(s: State, last: nat, k: int) -> (id: u64)
    requires
        last <= u64::MAX,
        0 <= k < reminders(s, last).len(),
    ensures
        1 <= id <= last,
        is_due_soon(s, id),
        reminders(s, last)[k] == Effect::Publish(
            Event::RepaymentReminder {
                borrower: s.loans[id].borrower,
                deadline: s.loans[id].deadline,
            },
        ),
    decreases last,
{
    let before = reminders(s, (last - 1) as nat);
    if is_due_soon(s, last as u64) && k == before.len() {
        last as u64
    } else {
        reminders_are_for_due_loans(s, (last - 1) as nat, k)
    }
}

} // verus!
