//! Arithmetic that notices overflow, and the lookups that the rules share.

use crate::host::{AddressList, VouchList};
use crate::ledger::{
    in_token, is_amount, stake_sum, stakes_fit, vouchers_of, Ledger, LoanRecord,
};
use crate::types::{
    Address, ContractError, LoanStatus, Question, Stop, VouchRecord, BPS_DENOMINATOR,
};
use vstd::prelude::*;

verus! {

broadcast use vstd::std_specs::btree::group_btree_axioms;

/// The quotient of two numbers, rounded toward zero.
pub open spec fn quotient(a: int, b: int) -> int
    recommends
        b > 0,
{
    if a >= 0 {
        a / b
    } else {
        -((-a) / b)
    }
}

/// A number as an amount, or the overflow that it causes.
pub open spec fn amount_of(x: int) -> Result<i128, Stop> {
    if is_amount(x) {
        Ok(x as i128)
    } else {
        Err(Stop::Overflow)
    }
}

/// `bps` basis points of an amount, rounded toward zero. The product has to be
/// an amount itself.
pub open spec fn share_of(amount: int, bps: int) -> Result<i128, Stop> {
    match amount_of(amount * bps) {
        Ok(p) => Ok(quotient(p as int, BPS_DENOMINATOR as int) as i128),
        Err(stop) => Err(stop),
    }
}

/// `a + b`.
pub fn plus(a: i128, b: i128) -> (r: Result<i128, Stop>)
    ensures
        r == amount_of(a + b),
{
    match a.checked_add(b) {
        Some(x) => Ok(x),
        None => Err(Stop::Overflow),
    }
}

/// `a - b`.
pub fn minus(a: i128, b: i128) -> (r: Result<i128, Stop>)
    ensures
        r == amount_of(a - b),
{
    match a.checked_sub(b) {
        Some(x) => Ok(x),
        None => Err(Stop::Overflow),
    }
}

/// `a * b`.
pub fn times(a: i128, b: i128) -> (r: Result<i128, Stop>)
    ensures
        r == amount_of(a * b),
{
    match a.checked_mul(b) {
        Some(x) => Ok(x),
        None => Err(Stop::Overflow),
    }
}

/// `a / b`, rounded toward zero.
pub fn divided(a: i128, b: i128) -> (r: i128)
    requires
        b > 0,
    ensures
        r == quotient(a as int, b as int),
{
    a / b
}

/// `bps` basis points of an amount.
pub fn bps_of(amount: i128, bps: u32) -> (r: Result<i128, Stop>)
    ensures
        r == share_of(amount as int, bps as int),
{
    let product: i128 = times(amount, bps as i128)?;
    Ok(divided(product, BPS_DENOMINATOR))
}

/// Demands, as the `i`-th of the call, the authorization of an address.
pub fn require_auth(ledger: &Ledger, i: usize, address: Address) -> (r: Result<(), Stop>)
    ensures
        r == if ledger@.is_granted(i as int, address) {
            Ok(())
        } else {
            Err(Stop::Ask(Question::Auth(address)))
        },
{
    if i < ledger.granted.len() && ledger.granted[i] == address {
        Ok(())
    } else {
        Err(Stop::Ask(Question::Auth(address)))
    }
}

/// Refuses while the contract is paused.
pub fn require_not_paused(ledger: &Ledger) -> (r: Result<(), Stop>)
    ensures
        r == if ledger@.paused {
            Err(Stop::Error(ContractError::ContractPaused))
        } else {
            Ok(())
        },
{
    if ledger.paused {
        Err(Stop::Error(ContractError::ContractPaused))
    } else {
        Ok(())
    }
}

/// Refuses a token that the contract does not deal in.
pub fn require_allowed_token(ledger: &Ledger, token: Address) -> (r: Result<(), Stop>)
    ensures
        r == if ledger@.token_allowed(token) {
            Ok(())
        } else {
            Err(Stop::Error(ContractError::InvalidToken))
        },
{
    if token == ledger.config.token || ledger.config.allowed_tokens.contains(token) {
        Ok(())
    } else {
        Err(Stop::Error(ContractError::InvalidToken))
    }
}

/// The loan that a borrower's active entry leads to.
pub fn get_active_loan_record(ledger: &Ledger, borrower: Address) -> (r: Result<&LoanRecord, Stop>)
    ensures
        match r {
            Ok(loan) => ledger@.active_record(borrower) == Some(loan@),
            Err(stop) => ledger@.active_record(borrower) is None && stop == Stop::Error(
                ContractError::NoActiveLoan,
            ),
        },
{
    match ledger.active_loan.get(&borrower) {
        Some(id) => match ledger.loans.get(id) {
            Some(loan) => Ok(loan),
            None => Err(Stop::Error(ContractError::NoActiveLoan)),
        },
        None => Err(Stop::Error(ContractError::NoActiveLoan)),
    }
}

/// The latest loan of a borrower.
pub fn get_latest_loan_record(ledger: &Ledger, borrower: Address) -> (r: Option<&LoanRecord>)
    ensures
        match r {
            Some(loan) => ledger@.latest_record(borrower) == Some(loan@),
            None => ledger@.latest_record(borrower) is None,
        },
{
    match ledger.latest_loan.get(&borrower) {
        Some(id) => ledger.loans.get(id),
        None => None,
    }
}

/// Whether a borrower has a loan to pay back.
pub fn has_active_loan(ledger: &Ledger, borrower: Address) -> (r: bool)
    ensures
        r == ledger@.has_active_loan(borrower),
{
    match get_active_loan_record(ledger, borrower) {
        Ok(loan) => loan.status == LoanStatus::Active,
        Err(_) => false,
    }
}

/// The id that the next loan gets.
pub fn next_loan_id(ledger: &Ledger) -> (r: Result<u64, Stop>)
    ensures
        r == if ledger@.last_loan_id() < u64::MAX {
            Ok((ledger@.last_loan_id() + 1) as u64)
        } else {
            Err(Stop::Overflow)
        },
{
    let last: u64 = ledger.loan_counter.unwrap_or(0);
    match last.checked_add(1) {
        Some(id) => Ok(id),
        None => Err(Stop::Overflow),
    }
}

/// A count, one higher.
pub fn one_more(count: u32) -> (r: Result<u32, Stop>)
    ensures
        r == if count < u32::MAX {
            Ok((count + 1) as u32)
        } else {
            Err(Stop::Overflow)
        },
{
    match count.checked_add(1) {
        Some(n) => Ok(n),
        None => Err(Stop::Overflow),
    }
}

/// The part of a borrower's vouches that is staked in a token, in order.
pub fn token_vouches(ledger: &Ledger, borrower: Address, token: Address) -> (r: VouchList)
    ensures
        r@ == in_token(ledger@.vouches_of(borrower), token),
{
    let mut chosen = VouchList::new(&ledger.env);
    match ledger.vouches.get(&borrower) {
        None => {
            assert(in_token(Seq::<VouchRecord>::empty(), token) =~= Seq::<VouchRecord>::empty()) by {
                reveal(Seq::filter);
            }
            chosen
        },
        Some(vouches) => {
            let n: u32 = vouches.len();
            let mut i: u32 = 0;
            assert(in_token(vouches@.take(0), token) =~= Seq::<VouchRecord>::empty()) by {
                reveal(Seq::filter);
            }
            while i < n
                invariant
                    i <= n,
                    n == vouches@.len(),
                    chosen@ == in_token(vouches@.take(i as int), token),
                    chosen@.len() <= i,
                decreases n - i,
            {
                proof {
                    lemma_in_token_step(vouches@, token, i as int);
                }
                if let Some(v) = vouches.get(i) {
                    if v.token == token {
                        chosen = chosen.with(v);
                    }
                }
                i += 1;
            }
            assert(vouches@.take(n as int) =~= vouches@);
            chosen
        },
    }
}

/// The sum of the stakes, if they can be added up.
pub fn total_stake(vouches: &VouchList) -> (r: Option<i128>)
    ensures
        r == if stakes_fit(vouches@) {
            Some(stake_sum(vouches@) as i128)
        } else {
            None
        },
        stakes_fit(vouches@) ==> is_amount(stake_sum(vouches@)),
{
    let n: u32 = vouches.len();
    let mut i: u32 = 0;
    let mut total: i128 = 0;
    assert(vouches@.take(n as int) =~= vouches@);
    while i < n
        invariant
            i <= n,
            n == vouches@.len(),
            total == stake_sum(vouches@.take(i as int)),
            forall|k: int|
                0 <= k <= i ==> is_amount(#[trigger] stake_sum(vouches@.take(k))),
        decreases n - i,
    {
        assert(vouches@.take(i + 1).drop_last() =~= vouches@.take(i as int));
        if let Some(v) = vouches.get(i) {
            match total.checked_add(v.stake) {
                Some(sum) => {
                    total = sum;
                },
                None => {
                    assert(!is_amount(stake_sum(vouches@.take(i + 1))));
                    return None;
                },
            }
        }
        i += 1;
    }
    Some(total)
}

/// Who made the vouches, in order.
pub fn list_vouchers(env: &soroban_sdk::Env, vouches: &VouchList) -> (r: AddressList)
    ensures
        r@ == vouchers_of(vouches@),
{
    let n: u32 = vouches.len();
    let mut i: u32 = 0;
    let mut vouchers = AddressList::new(env);
    while i < n
        invariant
            i <= n,
            n == vouches@.len(),
            vouchers@ =~= vouchers_of(vouches@.take(i as int)),
        decreases n - i,
    {
        if let Some(v) = vouches.get(i) {
            vouchers = vouchers.with(v.voucher);
        }
        i += 1;
    }
    assert(vouches@.take(n as int) =~= vouches@);
    vouchers
}

/// Looking at one more vouch adds it to the chosen ones exactly if it is staked
/// in the token.
proof fn lemma_in_token_step(vouches: Seq<VouchRecord>, token: Address, i: int)
    requires
        0 <= i < vouches.len(),
    ensures
        in_token(vouches.take(i + 1), token) == if vouches[i].token == token {
            in_token(vouches.take(i), token).push(vouches[i])
        } else {
            in_token(vouches.take(i), token)
        },
{
    reveal(Seq::filter);
    assert(vouches.take(i + 1).drop_last() =~= vouches.take(i));
}

} // verus!
