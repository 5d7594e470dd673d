//! The insurance pool, out of which vouchers are compensated when a borrower
//! defaults.

use crate::helpers::{minus, plus, require_auth, require_not_paused};
use crate::ledger::{backs, entry, is_amount, Ledger, Loan, LoanRecord, State};
use crate::types::{
    outcome, Address, ContractError, Effect, Event, LoanStatus, Question, Stop,
};
use vstd::prelude::*;

verus! {

broadcast use vstd::std_specs::btree::group_btree_axioms;

/// Why a contribution is refused.
pub open spec fn contribution_refusal(s: State, contributor: Address, amount: i128) -> Option<Stop> {
    if !s.is_granted(0, contributor) {
        Some(Stop::Ask(Question::Auth(contributor)))
    } else if s.paused {
        Some(Stop::Error(ContractError::ContractPaused))
    } else if amount <= 0 {
        Some(Stop::Error(ContractError::InvalidAmount))
    } else if !is_amount(s.pool() + amount) {
        Some(Stop::Overflow)
    } else {
        None
    }
}

/// The state after a contribution.
pub open spec fn after_contribution(s: State, contributor: Address, amount: i128) -> State {
    State { insurance_pool: Some((s.pool() + amount) as i128), ..s }.with_effects(
        seq![
            Effect::Transfer {
                token: s.config.token,
                from: contributor,
                to: s.contract,
                amount,
            },
            Effect::Publish(Event::InsuranceContributed { contributor, amount }),
        ],
    )
}

/// Adds an amount of the main token to the pool. Anyone may.
pub fn contribute_to_insurance(ledger: &mut Ledger, contributor: Address, amount: i128) -> (r: Result<
    (),
    Stop,
>)
    ensures
        r == outcome(contribution_refusal(old(ledger)@, contributor, amount)),
        final(ledger)@ == if r is Ok {
            after_contribution(old(ledger)@, contributor, amount)
        } else {
            old(ledger)@
        },
{
    require_auth(ledger, 0, contributor)?;
    require_not_paused(ledger)?;
    if amount <= 0 {
        return Err(Stop::Error(ContractError::InvalidAmount));
    }
    let pool: i128 = plus(get_insurance_pool_balance(ledger), amount)?;
    ledger.effects.push(
        Effect::Transfer {
            token: ledger.config.token,
            from: contributor,
            to: ledger.contract,
            amount,
        },
    );
    ledger.insurance_pool = Some(pool);
    ledger.effects.push(Effect::Publish(Event::InsuranceContributed { contributor, amount }));
    proof {
        assert(ledger@ =~= after_contribution(old(ledger)@, contributor, amount));
    }
    Ok(())
}

/// What a claim for a loan pays: the loan's amount, as far as the pool reaches.
pub open spec fn payout(s: State, loan: Loan) -> i128 {
    if loan.amount < s.pool() {
        loan.amount
    } else {
        s.pool()
    }
}

/// Why a claim is refused.
pub open spec fn claim_refusal(s: State, voucher: Address, loan_id: u64) -> Option<Stop> {
    if !s.is_granted(0, voucher) {
        Some(Stop::Ask(Question::Auth(voucher)))
    } else if s.paused {
        Some(Stop::Error(ContractError::ContractPaused))
    } else {
        match entry(s.loans, loan_id) {
            None => Some(Stop::Error(ContractError::NoActiveLoan)),
            Some(loan) => if loan.status != LoanStatus::Defaulted {
                Some(Stop::Error(ContractError::InvalidStateTransition))
            } else if s.insurance_claim.contains_key(loan_id) {
                Some(Stop::Error(ContractError::InsuranceClaimAlreadyMade))
            } else if !s.history_of(voucher).contains(loan.borrower) {
                Some(Stop::Error(ContractError::UnauthorizedCaller))
            } else if !s.vouched_for_loan(voucher, loan_id) {
                Some(Stop::Error(ContractError::UnauthorizedCaller))
            } else if s.pool() <= 0 {
                Some(Stop::Error(ContractError::InsurancePoolEmpty))
            } else if !is_amount(s.pool() - payout(s, loan)) {
                Some(Stop::Overflow)
            } else {
                None
            },
        }
    }
}

/// The state after a claim.
pub open spec fn after_claim(s: State, voucher: Address, loan_id: u64) -> State {
    let loan = s.loans[loan_id];
    State {
        insurance_pool: Some((s.pool() - payout(s, loan)) as i128),
        insurance_claim: s.insurance_claim.insert(loan_id, voucher),
        ..s
    }.with_effects(
        seq![
            Effect::Transfer {
                token: loan.token_address,
                from: s.contract,
                to: voucher,
                amount: payout(s, loan),
            },
            Effect::Publish(
                Event::InsuranceClaimed { voucher, loan_id, payout: payout(s, loan) },
            ),
        ],
    )
}

/// Whether a voucher has ever vouched for a borrower.
fn has_vouched(ledger: &Ledger, voucher: Address, borrower: Address) -> (r: bool)
    ensures
        r == ledger@.history_of(voucher).contains(borrower),
{
    match ledger.voucher_history.get(&voucher) {
        Some(history) => history.contains(borrower),
        None => false,
    }
}

/// Whether a voucher's stake stands behind a loan that has been disbursed.
fn stands_behind(ledger: &Ledger, voucher: Address, loan: &LoanRecord, loan_id: u64) -> (r: bool)
    ensures
        r == ledger@.stands_behind(voucher, loan@, loan_id),
{
    let is_latest: bool = match ledger.latest_loan.get(&loan.borrower) {
        Some(id) => *id == loan_id,
        None => false,
    };
    if !is_latest {
        return false;
    }
    match ledger.vouches.get(&loan.borrower) {
        None => false,
        Some(vouches) => {
            let n: u32 = vouches.len();
            let mut i: u32 = 0;
            while i < n
                invariant
                    i <= n,
                    n == vouches@.len(),
                    vouches@ == ledger@.vouches_of(loan.borrower),
                    entry(ledger@.latest_loan, loan.borrower) == Some(loan_id),
                    forall|j: int| 0 <= j < i ==> !backs(#[trigger] vouches@[j], voucher, loan@),
                decreases n - i,
            {
                if let Some(v) = vouches.get(i) {
                    if v.voucher == voucher && v.token == loan.token_address && v.vouch_timestamp
                        <= loan.deadline {
                        assert(backs(vouches@[i as int], voucher, loan@));
                        return true;
                    }
                }
                i += 1;
            }
            false
        },
    }
}

/// Whether an address was a voucher on a loan.
fn has_vouched_for_loan(ledger: &Ledger, voucher: Address, loan: &LoanRecord, loan_id: u64) -> (r:
    bool)
    requires
        entry(ledger@.loans, loan_id) == Some(loan@),
    ensures
        r == ledger@.vouched_for_loan(voucher, loan_id),
{
    match ledger.loan_vouchers.get(&loan_id) {
        None => has_vouched(ledger, voucher, loan.borrower),
        Some(vouchers) => vouchers.contains(voucher) || stands_behind(
            ledger,
            voucher,
            loan,
            loan_id,
        ),
    }
}

/// Claims the insurance for a loan that was written off. The claimant has to
/// have been a voucher on that very loan: one who backed it when it was disbursed,
/// or has vouched in its token since, while it was the borrower's latest loan and
/// could still be repaid. Having vouched for the borrower on another loan, or in
/// another token, is not enough; only where it was not recorded who backed the
/// loan does the voucher's history alone decide. There is one claim for each loan.
/// It pays the loan's amount, as far as the pool reaches.
pub fn claim_insurance(ledger: &mut Ledger, voucher: Address, loan_id: u64) -> (r: Result<(), Stop>)
    ensures
        r == outcome(claim_refusal(old(ledger)@, voucher, loan_id)),
        final(ledger)@ == if r is Ok {
            after_claim(old(ledger)@, voucher, loan_id)
        } else {
            old(ledger)@
        },
{
    require_auth(ledger, 0, voucher)?;
    require_not_paused(ledger)?;
    let loan = match ledger.loans.get(&loan_id) {
        Some(loan) => loan,
        None => {
            return Err(Stop::Error(ContractError::NoActiveLoan));
        },
    };
    if loan.status != LoanStatus::Defaulted {
        return Err(Stop::Error(ContractError::InvalidStateTransition));
    }
    if ledger.insurance_claim.contains_key(&loan_id) {
        return Err(Stop::Error(ContractError::InsuranceClaimAlreadyMade));
    }
    if !has_vouched(ledger, voucher, loan.borrower) {
        return Err(Stop::Error(ContractError::UnauthorizedCaller));
    }
    if !has_vouched_for_loan(ledger, voucher, loan, loan_id) {
        return Err(Stop::Error(ContractError::UnauthorizedCaller));
    }
    let pool: i128 = get_insurance_pool_balance(ledger);
    if pool <= 0 {
        return Err(Stop::Error(ContractError::InsurancePoolEmpty));
    }
    let payout: i128 = if loan.amount < pool {
        loan.amount
    } else {
        pool
    };
    let token: Address = loan.token_address;
    let rest: i128 = minus(pool, payout)?;
    ledger.insurance_pool = Some(rest);
    ledger.insurance_claim.insert(loan_id, voucher);
    ledger.effects.push(
        Effect::Transfer { token, from: ledger.contract, to: voucher, amount: payout },
    );
    ledger.effects.push(Effect::Publish(Event::InsuranceClaimed { voucher, loan_id, payout }));
    proof {
        assert(ledger@ =~= after_claim(old(ledger)@, voucher, loan_id));
    }
    Ok(())
}

/// What the insurance pool holds.
pub fn get_insurance_pool_balance(ledger: &Ledger) -> (r: i128)
    ensures
        r == ledger@.pool(),
        ledger.insurance_pool matches Some(pool) ==> r == pool,
        ledger.insurance_pool is None ==> r == 0,
{
    ledger.insurance_pool.unwrap_or(0)
}

} // verus!
