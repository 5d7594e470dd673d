//! What contributions and claims do.

use crate::insurance::{after_claim, after_contribution, claim_refusal, contribution_refusal};
use crate::laws::numbers::holds;
use crate::ledger::{backs, State};
use crate::types::{
    outcome, Address, ContractError, Effect, Event, LoanStatus, Question, Stop,
};
use vstd::prelude::*;

verus! {

/// A contribution is refused without the contributor's signature, while the
/// contract is paused, if it is not more than nothing, and if the pool could not
/// hold it, in that order; any other is accepted.
pub proof fn contribution_is_answered(s: State, contributor: Address, amount: i128)
    ensures
        ({
            let r = outcome(contribution_refusal(s, contributor, amount));
            let signed = s.granted.len() > 0 && s.granted[0] == contributor;
            let pool: int = match s.insurance_pool {
                Some(p) => p as int,
                None => 0,
            };
            &&& r is Ok <==> signed && !s.paused && amount > 0 && holds(pool + amount)
            &&& !signed ==> r == Err::<(), Stop>(Stop::Ask(Question::Auth(contributor)))
            &&& signed && s.paused ==> r == Err::<(), Stop>(
                Stop::Error(ContractError::ContractPaused),
            )
            &&& signed && !s.paused && amount <= 0 ==> r == Err::<(), Stop>(
                Stop::Error(ContractError::InvalidAmount),
            )
            &&& signed && !s.paused && amount > 0 && !holds(pool + amount) ==> r == Err::<
                (),
                Stop,
            >(Stop::Overflow)
        }),
{
}

/// A contribution takes its amount, in the main token, from the contributor, and
/// the pool rises by just what was taken. It is announced with the same amount,
/// and nothing else changes.
pub proof fn contribution_goes_into_the_pool(s: State, contributor: Address, amount: i128)
    requires
        contribution_refusal(s, contributor, amount) is None,
    ensures
        ({
            let t = after_contribution(s, contributor, amount);
            let pool: int = match s.insurance_pool {
                Some(p) => p as int,
                None => 0,
            };
            &&& t.insurance_pool matches Some(p) && p == pool + amount
            &&& t.effects == s.effects + seq![
                Effect::Transfer {
                    token: s.config.token,
                    from: contributor,
                    to: s.contract,
                    amount,
                },
                Effect::Publish(Event::InsuranceContributed { contributor, amount }),
            ]
            &&& t == State { insurance_pool: t.insurance_pool, effects: t.effects, ..s }
        }),
{
}

/// Whether an address was a voucher on a loan, as far as the entries tell: it is
/// recorded with the loan, or has a vouch in the loan's token, from no later than
/// its deadline, behind the borrower whose latest loan it is, or nothing was
/// recorded with the loan at all.
pub open spec fn voucher_on(s: State, voucher: Address, loan_id: u64) -> bool {
    let loan = s.loans[loan_id];
    ||| !s.loan_vouchers.contains_key(loan_id)
    ||| s.loan_vouchers[loan_id].contains(voucher)
    ||| s.latest_loan.contains_key(loan.borrower) && s.latest_loan[loan.borrower] == loan_id
        && s.vouches.contains_key(loan.borrower) && exists|i: int|
        0 <= i < s.vouches[loan.borrower].len() && (#[trigger] s.vouches[loan.borrower][i]).voucher
            == voucher && s.vouches[loan.borrower][i].token == loan.token_address
            && s.vouches[loan.borrower][i].vouch_timestamp <= loan.deadline
}

/// A claim is refused without the claimant's signature, while the contract is
/// paused, without such a loan, for a loan that was not written off, after an
/// earlier claim, from anyone but a voucher on the loan, for want of money in the
/// pool, and if what is left in the pool could not be held, in that order; any
/// other is accepted.
pub proof fn claim_is_answered(s: State, voucher: Address, loan_id: u64)
    ensures
        ({
            let r = outcome(claim_refusal(s, voucher, loan_id));
            let signed = s.granted.len() > 0 && s.granted[0] == voucher;
            let loan = s.loans[loan_id];
            let known = s.loans.contains_key(loan_id);
            let lost = loan.status == LoanStatus::Defaulted;
            let claimed = s.insurance_claim.contains_key(loan_id);
            let entitled = s.voucher_history.contains_key(voucher)
                && s.voucher_history[voucher].contains(loan.borrower) && voucher_on(
                s,
                voucher,
                loan_id,
            );
            let pool: int = match s.insurance_pool {
                Some(p) => p as int,
                None => 0,
            };
            let due = signed && !s.paused && known && lost && !claimed;
            &&& r is Ok <==> due && entitled && pool > 0 && (loan.amount < pool ==> holds(
                pool - loan.amount,
            ))
            &&& !signed ==> r == Err::<(), Stop>(Stop::Ask(Question::Auth(voucher)))
            &&& signed && s.paused ==> r == Err::<(), Stop>(
                Stop::Error(ContractError::ContractPaused),
            )
            &&& signed && !s.paused && !known ==> r == Err::<(), Stop>(
                Stop::Error(ContractError::NoActiveLoan),
            )
            &&& signed && !s.paused && known && !lost ==> r == Err::<(), Stop>(
                Stop::Error(ContractError::InvalidStateTransition),
            )
            &&& signed && !s.paused && known && lost && claimed ==> r == Err::<(), Stop>(
                Stop::Error(ContractError::InsuranceClaimAlreadyMade),
            )
            &&& due && !entitled ==> r == Err::<(), Stop>(
                Stop::Error(ContractError::UnauthorizedCaller),
            )
            &&& due && entitled && pool <= 0 ==> r == Err::<(), Stop>(
                Stop::Error(ContractError::InsurancePoolEmpty),
            )
            &&& due && entitled && pool > 0 && loan.amount < pool && !holds(pool - loan.amount)
                ==> r == Err::<(), Stop>(Stop::Overflow)
        }),
{
    let loan = s.loans[loan_id];
    if s.loans.contains_key(loan_id) && s.loan_vouchers.contains_key(loan_id) {
        let vouches = s.vouches_of(loan.borrower);
        if s.stands_behind(voucher, loan, loan_id) {
            let i = choose|i: int|
                0 <= i < vouches.len() && backs(#[trigger] vouches[i], voucher, loan);
            assert(s.vouches[loan.borrower][i].voucher == voucher);
        }
        assert(voucher_on(s, voucher, loan_id) == s.vouched_for_loan(voucher, loan_id)) by {
            if voucher_on(s, voucher, loan_id) && !s.loan_vouchers[loan_id].contains(voucher) {
                let i = choose|i: int|
                    0 <= i < s.vouches[loan.borrower].len() && (
                    #[trigger] s.vouches[loan.borrower][i]).voucher == voucher
                        && s.vouches[loan.borrower][i].token == loan.token_address
                        && s.vouches[loan.borrower][i].vouch_timestamp <= loan.deadline;
                assert(backs(vouches[i], voucher, loan));
            }
        }
    }
}

/// A claim moves one sum, in the loan's token, from the contract to the claimant:
/// the smaller of the loan's amount and what the pool held. The pool falls by just
/// what was moved, the same sum is announced, the claim is recorded under the
/// loan, and nothing else changes. What was repaid of the loan plays no part.
pub proof fn claim_is_paid_out_of_the_pool(s: State, voucher: Address, loan_id: u64)
    requires
        claim_refusal(s, voucher, loan_id) is None,
    ensures
        ({
            let t = after_claim(s, voucher, loan_id);
            let n = s.effects.len() as int;
            let loan = s.loans[loan_id];
            let pool: int = match s.insurance_pool {
                Some(p) => p as int,
                None => 0,
            };
            &&& t.effects.len() == n + 2
            &&& t.effects.take(n) == s.effects
            &&& t.effects[n] matches Effect::Transfer { token, from, to, amount } && {
                &&& token == loan.token_address
                &&& from == s.contract
                &&& to == voucher
                &&& amount <= pool && amount <= loan.amount
                &&& amount == pool || amount == loan.amount
                &&& t.insurance_pool matches Some(left) && left == pool - amount
                &&& t.effects[n + 1] == Effect::Publish(
                    Event::InsuranceClaimed { voucher, loan_id, payout: amount },
                )
            }
            &&& t.insurance_claim == s.insurance_claim.insert(loan_id, voucher)
            &&& t == State {
                insurance_pool: t.insurance_pool,
                insurance_claim: t.insurance_claim,
                effects: t.effects,
                ..s
            }
        }),
{
    let t = after_claim(s, voucher, loan_id);
    assert(t.effects.take(s.effects.len() as int) =~= s.effects);
}

/// What a contributor puts in, a claim can take out: a contribution to an empty
/// pool that covers a loan is just what the loan's voucher is then paid.
pub proof fn contributions_pay_claims(
    s: State,
    contributor: Address,
    voucher: Address,
    loan_id: u64,
)
    requires
        s.insurance_pool is None,
        contribution_refusal(s, contributor, s.loans[loan_id].amount) is None,
        claim_refusal(
            State {
                granted: seq![voucher],
                ..after_contribution(s, contributor, s.loans[loan_id].amount)
            },
            voucher,
            loan_id,
        ) is None,
    ensures
        ({
            let amount = s.loans[loan_id].amount;
            let between = State {
                granted: seq![voucher],
                ..after_contribution(s, contributor, amount)
            };
            let t = after_claim(between, voucher, loan_id);
            &&& t.insurance_pool == Some(0i128)
            &&& t.effects[t.effects.len() - 2] == Effect::Transfer {
                token: s.loans[loan_id].token_address,
                from: s.contract,
                to: voucher,
                amount,
            }
        }),
{
}

} // verus!
