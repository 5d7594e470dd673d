//! What referrals, loan requests and questions about them do.

use crate::helpers::quotient;
use crate::laws::numbers::{
    basis_points_are_ten_thousandths, division_rounds_toward_zero, holds, rounds_to, staked,
    stakes_are_added_up, stakes_hold,
};
use crate::ledger::{in_token, stake_sum, stakes_fit, State};
use crate::loan::{
    after_referral, after_request, age_refusal, backing_refusal, dynamic_yield, eligibility,
    funding_refusal, referral_refusal, request_refusal, screening_refusal,
};
use crate::types::{
    outcome, Address, ContractError, Effect, Event, LoanStatus, Question, Stop, VouchRecord,
};
use vstd::prelude::*;

verus! {

/// Whether the first authorization granted to the call is that of an address.
pub open spec fn signed_by(s: State, address: Address) -> bool {
    s.granted.len() > 0 && s.granted[0] == address
}

/// Whether a borrower's active entry leads to a loan that is still active.
pub open spec fn is_paying_back(s: State, borrower: Address) -> bool {
    s.active_loan.contains_key(borrower) && s.loans.contains_key(s.active_loan[borrower])
        && s.loans[s.active_loan[borrower]].status == LoanStatus::Active
}

/// The vouches behind a borrower that are staked in a token, in order.
pub open spec fn behind(s: State, borrower: Address, token: Address) -> Seq<VouchRecord> {
    if s.vouches.contains_key(borrower) {
        s.vouches[borrower].filter(|v: VouchRecord| v.token == token)
    } else {
        Seq::empty()
    }
}

/// A count that was never written is zero.
pub open spec fn counted(counts: Map<Address, u32>, address: Address) -> int {
    if counts.contains_key(address) {
        counts[address] as int
    } else {
        0
    }
}

/// The yield is the configured one, plus a hundredth of the score that the
/// reputation contract holds, minus fifty for each default, and never below zero.
/// The score is asked for where there is such a contract and it was not told, and
/// a sum that could not be held overflows.
pub proof fn yield_is_base_credit_and_defaults(s: State, borrower: Address, credit: int)
    requires
        rounds_to(
            match (s.reputation_nft, s.nft_balance) {
                (Some(_), Some(score)) => score as int,
                _ => 0,
            },
            100,
            credit,
        ),
    ensures
        ({
            let r = dynamic_yield(s, borrower);
            let raised = s.config.yield_bps + credit;
            let bps = raised - 50 * counted(s.default_count, borrower);
            match (s.reputation_nft, s.nft_balance) {
                (Some(nft), None) => r == Err::<i128, Stop>(
                    Stop::Ask(Question::NftBalance(nft, borrower)),
                ),
                _ => {
                    &&& holds(raised) && holds(bps) && bps >= 0 ==> (r matches Ok(y) && y == bps)
                    &&& holds(raised) && holds(bps) && bps < 0 ==> r == Ok::<i128, Stop>(0i128)
                    &&& !holds(raised) || !holds(bps) ==> r == Err::<i128, Stop>(Stop::Overflow)
                },
            }
        }),
{
    let score: int = match (s.reputation_nft, s.nft_balance) {
        (Some(_), Some(score)) => score as int,
        _ => 0,
    };
    division_rounds_toward_zero(score, 100, credit);
}

/// A referral is refused without the borrower's signature, while the contract is
/// paused, if it is of the borrower by themselves, and while they are paying a
/// loan back, in that order; any other is accepted.
pub proof fn referral_is_answered(s: State, borrower: Address, referrer: Address)
    ensures
        ({
            let r = outcome(referral_refusal(s, borrower, referrer));
            let signed = signed_by(s, borrower);
            let busy = is_paying_back(s, borrower);
            &&& r is Ok <==> signed && !s.paused && borrower != referrer && !busy
            &&& !signed ==> r == Err::<(), Stop>(Stop::Ask(Question::Auth(borrower)))
            &&& signed && s.paused ==> r == Err::<(), Stop>(
                Stop::Error(ContractError::ContractPaused),
            )
            &&& signed && !s.paused && borrower == referrer ==> r == Err::<(), Stop>(
                Stop::Panic(ContractError::UnauthorizedCaller),
            )
            &&& signed && !s.paused && borrower != referrer && busy ==> r == Err::<(), Stop>(
                Stop::Error(ContractError::ActiveLoanExists),
            )
        }),
{
}

/// A referral records the referrer with the borrower and announces both; nothing
/// else changes, and nothing is moved.
pub proof fn referral_is_recorded(s: State, borrower: Address, referrer: Address)
    ensures
        after_referral(s, borrower, referrer) == (State {
            referred_by: s.referred_by.insert(borrower, referrer),
            effects: s.effects.push(Effect::Publish(Event::ReferralSet { borrower, referrer })),
            ..s
        }),
{
    assert(after_referral(s, borrower, referrer).effects =~= s.effects.push(
        Effect::Publish(Event::ReferralSet { borrower, referrer }),
    ));
}

/// Whether a request is in order before its backing is looked at: signed, while
/// the contract runs, by a borrower who is neither barred nor paying a loan back,
/// in a token that is dealt in, for an amount within the limits.
pub open spec fn in_order(
    s: State,
    borrower: Address,
    amount: i128,
    threshold: i128,
    token: Address,
) -> bool {
    &&& signed_by(s, borrower)
    &&& !s.paused
    &&& !(s.blacklisted.contains_key(borrower) && s.blacklisted[borrower])
    &&& token == s.config.token || s.config.allowed_tokens.contains(token)
    &&& amount >= s.config.min_loan_amount
    &&& threshold > 0
    &&& s.max_loan_amount matches Some(max) ==> max <= 0 || amount <= max
    &&& !is_paying_back(s, borrower)
}

/// Whether a request has the backing that it needs: in the token of the loan,
/// enough stake from enough vouchers, all of whom vouched long enough ago, and no
/// more asked for than the permitted percentage of the stake.
pub open spec fn is_backed(
    s: State,
    borrower: Address,
    amount: i128,
    threshold: i128,
    token: Address,
) -> bool {
    let backing = behind(s, borrower, token);
    &&& stakes_hold(backing)
    &&& staked(backing) >= threshold
    &&& s.min_vouchers matches Some(min) ==> backing.len() >= min
    &&& forall|i: int|
        0 <= i < backing.len() ==> (#[trigger] backing[i]).vouch_timestamp + s.terms.min_vouch_age
            <= s.timestamp
    &&& holds(staked(backing) * s.config.max_loan_to_stake_ratio)
    &&& 100 * amount <= staked(backing) * s.config.max_loan_to_stake_ratio
}

/// Whether a request can be paid out and booked: the contract's balance is known
/// and covers it, the yield is known, and no number leaves its range.
pub open spec fn is_payable(s: State, borrower: Address, amount: i128) -> bool {
    &&& s.contract_balance matches Some(balance) && balance >= amount
    &&& s.timestamp + s.config.loan_duration <= u64::MAX
    &&& s.loan_counter matches Some(last) ==> last < u64::MAX
    &&& dynamic_yield(s, borrower) matches Ok(bps) && holds(amount * bps)
    &&& counted(s.loan_count, borrower) < u32::MAX
}

/// A request is granted exactly if it is in order, backed and payable.
pub proof fn request_is_granted_where_it_can_be(
    s: State,
    borrower: Address,
    amount: i128,
    threshold: i128,
    token: Address,
)
    ensures
        outcome(request_refusal(s, borrower, amount, threshold, token)) is Ok <==> in_order(
            s,
            borrower,
            amount,
            threshold,
            token,
        ) && is_backed(s, borrower, amount, threshold, token) && is_payable(s, borrower, amount),
{
    lemma_screened(s, borrower, amount, threshold, token);
    if in_order(s, borrower, amount, threshold, token) {
        lemma_backed(s, borrower, amount, threshold, token);
        lemma_funded(s, borrower, amount, token);
    }
}

/// A request that is not in order is refused for the first thing that is wrong
/// with it: signature, pause, blacklist, token, least amount, threshold, largest
/// amount, a loan not paid back yet.
pub proof fn request_out_of_order_is_refused(
    s: State,
    borrower: Address,
    amount: i128,
    threshold: i128,
    token: Address,
)
    ensures
        ({
            let r = outcome(request_refusal(s, borrower, amount, threshold, token));
            let signed = signed_by(s, borrower);
            let barred = s.blacklisted.contains_key(borrower) && s.blacklisted[borrower];
            let traded = token == s.config.token || s.config.allowed_tokens.contains(token);
            let small = amount < s.config.min_loan_amount;
            let large = s.max_loan_amount matches Some(max) && max > 0 && amount > max;
            let heard = signed && !s.paused && !barred;
            &&& !signed ==> r == Err::<(), Stop>(Stop::Ask(Question::Auth(borrower)))
            &&& signed && s.paused ==> r == Err::<(), Stop>(
                Stop::Error(ContractError::ContractPaused),
            )
            &&& signed && !s.paused && barred ==> r == Err::<(), Stop>(
                Stop::Error(ContractError::Blacklisted),
            )
            &&& heard && !traded ==> r == Err::<(), Stop>(Stop::Error(ContractError::InvalidToken))
            &&& heard && traded && small ==> r == Err::<(), Stop>(
                Stop::Error(ContractError::LoanBelowMinAmount),
            )
            &&& heard && traded && !small && threshold <= 0 ==> r == Err::<(), Stop>(
                Stop::Panic(ContractError::InvalidAmount),
            )
            &&& heard && traded && !small && threshold > 0 && large ==> r == Err::<(), Stop>(
                Stop::Error(ContractError::LoanExceedsMaxAmount),
            )
            &&& heard && traded && !small && threshold > 0 && !large && is_paying_back(s, borrower)
                ==> r == Err::<(), Stop>(Stop::Error(ContractError::ActiveLoanExists))
        }),
{
}

/// A request in order that lacks backing is refused for the first thing that is
/// missing: stakes that can be added up, enough of them, enough vouchers, age, a
/// limit that can be worked out, an amount within it.
pub proof fn request_without_backing_is_refused(
    s: State,
    borrower: Address,
    amount: i128,
    threshold: i128,
    token: Address,
)
    requires
        in_order(s, borrower, amount, threshold, token),
    ensures
        ({
            let r = outcome(request_refusal(s, borrower, amount, threshold, token));
            let backing = behind(s, borrower, token);
            let stake = staked(backing);
            let few = s.min_vouchers matches Some(min) && backing.len() < min;
            let enough = stakes_hold(backing) && stake >= threshold && !few;
            let aged = forall|i: int|
                0 <= i < backing.len() ==> (#[trigger] backing[i]).vouch_timestamp
                    + s.terms.min_vouch_age <= s.timestamp;
            let limit = stake * s.config.max_loan_to_stake_ratio;
            &&& !stakes_hold(backing) ==> r == Err::<(), Stop>(
                Stop::Error(ContractError::StakeOverflow),
            )
            &&& stakes_hold(backing) && stake < threshold ==> r == Err::<(), Stop>(
                Stop::Panic(ContractError::InsufficientFunds),
            )
            &&& stakes_hold(backing) && stake >= threshold && few ==> r == Err::<(), Stop>(
                Stop::Error(ContractError::InsufficientVouchers),
            )
            &&& enough && aged && !holds(limit) ==> r == Err::<(), Stop>(Stop::Overflow)
            &&& enough && aged && holds(limit) && 100 * amount > limit ==> r == Err::<(), Stop>(
                Stop::Panic(ContractError::LoanExceedsMaxAmount),
            )
        }),
{
    lemma_screened(s, borrower, amount, threshold, token);
    lemma_backed(s, borrower, amount, threshold, token);
}

/// A request with enough stake is refused for the first vouch that is too young,
/// or that would be of age only after the end of time.
pub proof fn request_on_young_vouches_is_refused(
    s: State,
    borrower: Address,
    amount: i128,
    threshold: i128,
    token: Address,
    i: int,
)
    requires
        in_order(s, borrower, amount, threshold, token),
        stakes_hold(behind(s, borrower, token)),
        staked(behind(s, borrower, token)) >= threshold,
        s.min_vouchers matches Some(min) ==> behind(s, borrower, token).len() >= min,
        0 <= i < behind(s, borrower, token).len(),
        behind(s, borrower, token)[i].vouch_timestamp + s.terms.min_vouch_age > s.timestamp,
        forall|j: int|
            0 <= j < i ==> (#[trigger] behind(s, borrower, token)[j]).vouch_timestamp
                + s.terms.min_vouch_age <= s.timestamp,
    ensures
        ({
            let r = outcome(request_refusal(s, borrower, amount, threshold, token));
            let of_age = behind(s, borrower, token)[i].vouch_timestamp + s.terms.min_vouch_age;
            &&& of_age <= u64::MAX ==> r == Err::<(), Stop>(
                Stop::Error(ContractError::VouchTooRecent),
            )
            &&& of_age > u64::MAX ==> r == Err::<(), Stop>(Stop::Overflow)
        }),
{
    lemma_screened(s, borrower, amount, threshold, token);
    lemma_behind(s, borrower, token);
    lemma_young(behind(s, borrower, token), s.timestamp, s.terms.min_vouch_age, i);
}

/// A request in order and backed is refused for the first thing that keeps it from
/// being paid out: a balance that has to be asked for or is too small, a deadline
/// or an id out of range, a yield that cannot be told, a yield or a count out of
/// range.
pub proof fn request_that_cannot_be_paid_is_refused(
    s: State,
    borrower: Address,
    amount: i128,
    threshold: i128,
    token: Address,
)
    requires
        in_order(s, borrower, amount, threshold, token),
        is_backed(s, borrower, amount, threshold, token),
    ensures
        ({
            let r = outcome(request_refusal(s, borrower, amount, threshold, token));
            match s.contract_balance {
                None => r == Err::<(), Stop>(Stop::Ask(Question::TokenBalance(token))),
                Some(balance) => {
                    let late = s.timestamp + s.config.loan_duration > u64::MAX;
                    let full = s.loan_counter == Some(u64::MAX);
                    &&& balance < amount ==> r == Err::<(), Stop>(
                        Stop::Error(ContractError::InsufficientFunds),
                    )
                    &&& balance >= amount && (late || full) ==> r == Err::<(), Stop>(Stop::Overflow)
                    &&& balance >= amount && !late && !full ==> match dynamic_yield(s, borrower) {
                        Err(stop) => r == Err::<(), Stop>(stop),
                        Ok(bps) => !holds(amount * bps) || counted(s.loan_count, borrower)
                            == u32::MAX ==> r == Err::<(), Stop>(Stop::Overflow),
                    }
                },
            }
        }),
{
    lemma_screened(s, borrower, amount, threshold, token);
    lemma_backed(s, borrower, amount, threshold, token);
    lemma_funded(s, borrower, amount, token);
}

/// A granted request moves the amount asked for, in the token asked for, from the
/// contract to the borrower, and announces just that, with the deadline of the
/// loan that it records.
pub proof fn granted_loan_is_paid_out(
    s: State,
    borrower: Address,
    amount: i128,
    threshold: i128,
    purpose: soroban_sdk::String,
    token: Address,
)
    requires
        request_refusal(s, borrower, amount, threshold, token) is None,
    ensures
        ({
            let t = after_request(s, borrower, amount, purpose, token);
            let loan = t.loans[t.active_loan[borrower]];
            &&& t.effects == s.effects + seq![
                Effect::Transfer { token, from: s.contract, to: borrower, amount },
                Effect::Publish(
                    Event::LoanDisbursed { borrower, amount, deadline: loan.deadline, token },
                ),
            ]
            &&& loan.token_address == token
            &&& loan.amount == amount
        }),
{
}

/// A granted request records one loan, under the number after the last one: with
/// the borrower, the amount, the purpose and the token asked for, nothing repaid,
/// from now until the configured time has passed, at the borrower's yield rounded
/// toward zero. It becomes the borrower's active and latest loan, the loan's
/// vouchers are those who back it, one more loan is counted, and nothing else
/// changes.
pub proof fn granted_loan_is_recorded(
    s: State,
    borrower: Address,
    amount: i128,
    threshold: i128,
    purpose: soroban_sdk::String,
    token: Address,
)
    requires
        request_refusal(s, borrower, amount, threshold, token) is None,
    ensures
        ({
            let t = after_request(s, borrower, amount, purpose, token);
            let last: int = match s.loan_counter {
                Some(last) => last as int,
                None => 0,
            };
            let id = (last + 1) as u64;
            let loan = t.loans[id];
            let backing = behind(s, borrower, token);
            &&& last < u64::MAX
            &&& t.loan_counter == Some(id)
            &&& t.loans == s.loans.insert(id, loan)
            &&& loan.id == id
            &&& loan.borrower == borrower
            &&& loan.co_borrowers.len() == 0
            &&& loan.amount == amount
            &&& loan.amount_repaid == 0
            &&& dynamic_yield(s, borrower) matches Ok(bps) && rounds_to(
                amount * bps,
                10_000,
                loan.total_yield as int,
            )
            &&& loan.status == LoanStatus::Active
            &&& loan.created_at == s.timestamp
            &&& loan.disbursement_timestamp == s.timestamp
            &&& loan.repayment_timestamp is None
            &&& loan.deadline == s.timestamp + s.config.loan_duration
            &&& loan.loan_purpose == purpose
            &&& loan.token_address == token
            &&& t.active_loan == s.active_loan.insert(borrower, id)
            &&& t.latest_loan == s.latest_loan.insert(borrower, id)
            &&& t.loan_vouchers == s.loan_vouchers.insert(id, t.loan_vouchers[id])
            &&& t.loan_vouchers[id].len() == backing.len()
            &&& forall|i: int|
                0 <= i < backing.len() ==> #[trigger] t.loan_vouchers[id][i] == backing[i].voucher
            &&& t.loan_count == s.loan_count.insert(borrower, t.loan_count[borrower])
            &&& t.loan_count[borrower] == counted(s.loan_count, borrower) + 1
            &&& t == State {
                loan_counter: t.loan_counter,
                loans: t.loans,
                loan_vouchers: t.loan_vouchers,
                active_loan: t.active_loan,
                latest_loan: t.latest_loan,
                loan_count: t.loan_count,
                effects: t.effects,
                ..s
            }
        }),
{
    let t = after_request(s, borrower, amount, purpose, token);
    let bps = dynamic_yield(s, borrower).unwrap();
    basis_points_are_ten_thousandths(amount as int, bps as int);
    lemma_behind(s, borrower, token);
    let backing = behind(s, borrower, token);
    stakes_are_added_up(backing, token);
}

/// A borrower is eligible exactly if a threshold above zero is reached by the
/// stake behind them in the token, and their latest loan is not an active one.
/// The stake is added up only where nothing else decides; a sum that cannot be
/// held overflows.
pub proof fn eligibility_is_stake_without_a_loan(
    s: State,
    borrower: Address,
    threshold: i128,
    token: Address,
)
    ensures
        ({
            let r = eligibility(s, borrower, threshold, token);
            let backing = behind(s, borrower, token);
            let busy = s.latest_loan.contains_key(borrower) && s.loans.contains_key(
                s.latest_loan[borrower],
            ) && s.loans[s.latest_loan[borrower]].status == LoanStatus::Active;
            &&& threshold <= 0 || busy ==> r == Ok::<bool, Stop>(false)
            &&& threshold > 0 && !busy && !stakes_hold(backing) ==> r == Err::<bool, Stop>(
                Stop::Overflow,
            )
            &&& threshold > 0 && !busy && stakes_hold(backing) ==> r == Ok::<bool, Stop>(
                staked(backing) >= threshold,
            )
        }),
{
    lemma_behind(s, borrower, token);
}

/// The vouches behind a borrower, and their sum, are the ones that the rules go by.
pub proof fn lemma_behind(s: State, borrower: Address, token: Address)
    ensures
        in_token(s.vouches_of(borrower), token) == behind(s, borrower, token),
        stake_sum(behind(s, borrower, token)) == staked(behind(s, borrower, token)),
        stakes_fit(behind(s, borrower, token)) == stakes_hold(behind(s, borrower, token)),
{
    stakes_are_added_up(s.vouches_of(borrower), token);
    stakes_are_added_up(behind(s, borrower, token), token);
    reveal(Seq::filter);
}

proof fn lemma_screened(
    s: State,
    borrower: Address,
    amount: i128,
    threshold: i128,
    token: Address,
)
    ensures
        screening_refusal(s, borrower, amount, threshold, token) is None <==> in_order(
            s,
            borrower,
            amount,
            threshold,
            token,
        ),
{
}

/// What is missing of the backing, in order.
proof fn lemma_backed(s: State, borrower: Address, amount: i128, threshold: i128, token: Address)
    requires
        threshold > 0,
    ensures
        backing_refusal(s, borrower, amount, threshold, token) is None <==> is_backed(
            s,
            borrower,
            amount,
            threshold,
            token,
        ),
        ({
            let r = backing_refusal(s, borrower, amount, threshold, token);
            let backing = behind(s, borrower, token);
            let stake = staked(backing);
            let few = s.min_vouchers matches Some(min) && backing.len() < min;
            let enough = stakes_hold(backing) && stake >= threshold && !few;
            let aged = forall|i: int|
                0 <= i < backing.len() ==> (#[trigger] backing[i]).vouch_timestamp
                    + s.terms.min_vouch_age <= s.timestamp;
            let limit = stake * s.config.max_loan_to_stake_ratio;
            &&& enough && aged && !holds(limit) ==> r == Some(Stop::Overflow)
            &&& enough && aged && holds(limit) && 100 * amount > limit ==> r == Some(
                Stop::Panic(ContractError::LoanExceedsMaxAmount),
            )
            &&& !stakes_hold(backing) ==> r == Some(Stop::Error(ContractError::StakeOverflow))
            &&& stakes_hold(backing) && stake < threshold ==> r == Some(
                Stop::Panic(ContractError::InsufficientFunds),
            )
            &&& stakes_hold(backing) && stake >= threshold && few ==> r == Some(
                Stop::Error(ContractError::InsufficientVouchers),
            )
        }),
{
    let backing = behind(s, borrower, token);
    let now = s.timestamp;
    let min_age = s.terms.min_vouch_age;
    lemma_behind(s, borrower, token);
    if forall|i: int|
        0 <= i < backing.len() ==> (#[trigger] backing[i]).vouch_timestamp + min_age <= now {
        lemma_of_age(backing, now, min_age);
    } else {
        let i = choose|i: int|
            0 <= i < backing.len() && (#[trigger] backing[i]).vouch_timestamp + min_age > now;
        lemma_some_young(backing, now, min_age, i);
    }
    let stake = staked(backing);
    let limit = stake * s.config.max_loan_to_stake_ratio;
    if stake >= threshold {
        assert(limit >= 0) by (nonlinear_arith)
            requires
                stake > 0,
                limit == stake * s.config.max_loan_to_stake_ratio,
        ;
        division_rounds_toward_zero(limit, 100, quotient(limit, 100));
    }
}

proof fn lemma_funded(s: State, borrower: Address, amount: i128, token: Address)
    ensures
        funding_refusal(s, borrower, amount, token) is None <==> is_payable(s, borrower, amount),
        s.contract_balance matches Some(balance) && balance >= amount && s.timestamp
            + s.config.loan_duration <= u64::MAX && s.loan_counter != Some(u64::MAX) ==> {
            let r = funding_refusal(s, borrower, amount, token);
            match dynamic_yield(s, borrower) {
                Err(stop) => r == Some(stop),
                Ok(bps) => !holds(amount * bps) || counted(s.loan_count, borrower) == u32::MAX
                    ==> r == Some(Stop::Overflow),
            }
        },
{
    if let Ok(bps) = dynamic_yield(s, borrower) {
        basis_points_are_ten_thousandths(amount as int, bps as int);
    }
}

proof fn lemma_of_age(vouches: Seq<VouchRecord>, now: u64, min_age: u64)
    requires
        forall|i: int|
            0 <= i < vouches.len() ==> (#[trigger] vouches[i]).vouch_timestamp + min_age <= now,
    ensures
        age_refusal(vouches, now, min_age) is None,
    decreases vouches.len(),
{
    if vouches.len() > 0 {
        assert forall|i: int| 0 <= i < vouches.drop_last().len() implies (
        #[trigger] vouches.drop_last()[i]).vouch_timestamp + min_age <= now by {
            assert(vouches.drop_last()[i] == vouches[i]);
        }
        lemma_of_age(vouches.drop_last(), now, min_age);
        assert(vouches.last() == vouches[vouches.len() - 1]);
    }
}

proof fn lemma_some_young(vouches: Seq<VouchRecord>, now: u64, min_age: u64, i: int)
    requires
        0 <= i < vouches.len(),
        vouches[i].vouch_timestamp + min_age > now,
    ensures
        age_refusal(vouches, now, min_age) is Some,
    decreases vouches.len(),
{
    if i < vouches.len() - 1 {
        lemma_some_young(vouches.drop_last(), now, min_age, i);
    }
}

proof fn lemma_young(vouches: Seq<VouchRecord>, now: u64, min_age: u64, i: int)
    requires
        0 <= i < vouches.len(),
        vouches[i].vouch_timestamp + min_age > now,
        forall|j: int|
            0 <= j < i ==> (#[trigger] vouches[j]).vouch_timestamp + min_age <= now,
    ensures
        age_refusal(vouches, now, min_age) == Some(
            if vouches[i].vouch_timestamp + min_age > u64::MAX {
                Stop::Overflow
            } else {
                Stop::Error(ContractError::VouchTooRecent)
            },
        ),
    decreases vouches.len(),
{
    let rest = vouches.drop_last();
    assert forall|j: int| 0 <= j < i implies (#[trigger] rest[j]).vouch_timestamp + min_age
        <= now by {
        assert(rest[j] == vouches[j]);
    }
    if i == vouches.len() - 1 {
        lemma_of_age(rest, now, min_age);
    } else {
        lemma_young(rest, now, min_age, i);
    }
}

} // verus!
