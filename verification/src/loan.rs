//! Referrals, loan requests, and what can be read of loans.

use crate::helpers::{
    divided, get_latest_loan_record, has_active_loan, list_vouchers, minus, next_loan_id, one_more,
    plus, quotient, require_allowed_token, require_auth, require_not_paused, share_of, times,
    token_vouches, total_stake,
};
use crate::host::{AddressList, VouchList};
use crate::ledger::{
    count_of, entry, in_token, is_amount, stake_sum, stakes_fit, vouchers_of, Ledger, Loan,
    LoanRecord, State,
};
use crate::types::{
    first, outcome, Address, ContractError, Effect, Event, LoanStatus, Question, Stop,
    VouchRecord, BPS_DENOMINATOR, REMINDER_WINDOW,
};
use vstd::prelude::*;

verus! {

broadcast use vstd::std_specs::btree::group_btree_axioms;

/// The yield in basis points for a base yield, a credit score and a number of
/// past defaults: a hundred points of score add one basis point, a default
/// takes fifty away, and nobody gets less than zero.
pub open spec fn yield_formula(base: int, score: int, defaults: int) -> int {
    let bps = base + quotient(score, 100) - defaults * 50;
    if bps < 0 {
        0
    } else {
        bps
    }
}

/// A borrower's credit score: what the reputation contract holds for them, and
/// zero where none is configured.
pub open spec fn credit_score(s: State, borrower: Address) -> Result<i128, Stop> {
    match s.reputation_nft {
        None => Ok(0i128),
        Some(nft) => match s.nft_balance {
            None => Err(Stop::Ask(Question::NftBalance(nft, borrower))),
            Some(balance) => Ok(balance),
        },
    }
}

/// The yield in basis points that a borrower's loan carries.
pub open spec fn dynamic_yield(s: State, borrower: Address) -> Result<i128, Stop> {
    match credit_score(s, borrower) {
        Err(stop) => Err(stop),
        Ok(score) => {
            let base = s.config.yield_bps as int;
            let defaults = count_of(s.default_count, borrower) as int;
            if is_amount(base + quotient(score as int, 100)) && is_amount(
                base + quotient(score as int, 100) - defaults * 50,
            ) {
                Ok(yield_formula(base, score as int, defaults) as i128)
            } else {
                Err(Stop::Overflow)
            }
        },
    }
}

/// The yield in basis points that a borrower's loan carries: the configured
/// yield, plus a hundredth of the credit score, minus fifty for each past
/// default, and at least zero.
pub fn calculate_dynamic_yield(ledger: &Ledger, borrower: Address) -> (r: Result<i128, Stop>)
    ensures
        r == dynamic_yield(ledger@, borrower),
{
    let score: i128 = match ledger.reputation_nft {
        None => 0,
        Some(nft) => match ledger.nft_balance {
            None => {
                return Err(Stop::Ask(Question::NftBalance(nft, borrower)));
            },
            Some(balance) => balance,
        },
    };
    let defaults: u32 = default_count(ledger, borrower);
    let with_credit: i128 = plus(ledger.config.yield_bps, divided(score, 100))?;
    let bps: i128 = minus(with_credit, defaults as i128 * 50)?;
    if bps < 0 {
        Ok(0)
    } else {
        Ok(bps)
    }
}

/// Why a referral is refused.
pub open spec fn referral_refusal(s: State, borrower: Address, referrer: Address) -> Option<Stop> {
    if !s.is_granted(0, borrower) {
        Some(Stop::Ask(Question::Auth(borrower)))
    } else if s.paused {
        Some(Stop::Error(ContractError::ContractPaused))
    } else if borrower == referrer {
        Some(Stop::Panic(ContractError::UnauthorizedCaller))
    } else if s.has_active_loan(borrower) {
        Some(Stop::Error(ContractError::ActiveLoanExists))
    } else {
        None
    }
}

/// The state after a referral.
pub open spec fn after_referral(s: State, borrower: Address, referrer: Address) -> State {
    State { referred_by: s.referred_by.insert(borrower, referrer), ..s }.with_effects(
        seq![Effect::Publish(Event::ReferralSet { borrower, referrer })],
    )
}

/// Registers who referred a borrower; a later registration replaces an earlier
/// one. Nobody refers themselves, and not while a loan is active.
pub fn register_referral(ledger: &mut Ledger, borrower: Address, referrer: Address) -> (r: Result<
    (),
    Stop,
>)
    ensures
        r == outcome(referral_refusal(old(ledger)@, borrower, referrer)),
        final(ledger)@ == if r is Ok {
            after_referral(old(ledger)@, borrower, referrer)
        } else {
            old(ledger)@
        },
{
    require_auth(ledger, 0, borrower)?;
    require_not_paused(ledger)?;
    if borrower == referrer {
        return Err(Stop::Panic(ContractError::UnauthorizedCaller));
    }
    if has_active_loan(ledger, borrower) {
        return Err(Stop::Error(ContractError::ActiveLoanExists));
    }
    ledger.referred_by.insert(borrower, referrer);
    ledger.effects.push(Effect::Publish(Event::ReferralSet { borrower, referrer }));
    proof {
        assert(ledger@ =~= after_referral(old(ledger)@, borrower, referrer));
    }
    Ok(())
}

/// Who referred a borrower.
pub fn get_referrer(ledger: &Ledger, borrower: Address) -> (r: Option<Address>)
    ensures
        r == entry(ledger@.referred_by, borrower),
        r is Some <==> ledger.referred_by@.contains_key(borrower),
        r matches Some(referrer) ==> referrer == ledger.referred_by@[borrower],
{
    match ledger.referred_by.get(&borrower) {
        Some(referrer) => Some(*referrer),
        None => None,
    }
}

/// Why a loan request is refused before its backing is looked at.
pub open spec fn screening_refusal(
    s: State,
    borrower: Address,
    amount: i128,
    threshold: i128,
    token: Address,
) -> Option<Stop> {
    if !s.is_granted(0, borrower) {
        Some(Stop::Ask(Question::Auth(borrower)))
    } else if s.paused {
        Some(Stop::Error(ContractError::ContractPaused))
    } else if entry(s.blacklisted, borrower) == Some(true) {
        Some(Stop::Error(ContractError::Blacklisted))
    } else if !s.token_allowed(token) {
        Some(Stop::Error(ContractError::InvalidToken))
    } else if amount < s.config.min_loan_amount {
        Some(Stop::Error(ContractError::LoanBelowMinAmount))
    } else if threshold <= 0 {
        Some(Stop::Panic(ContractError::InvalidAmount))
    } else if s.max_loan_amount matches Some(max) && 0 < max < amount {
        Some(Stop::Error(ContractError::LoanExceedsMaxAmount))
    } else if s.has_active_loan(borrower) {
        Some(Stop::Error(ContractError::ActiveLoanExists))
    } else {
        None
    }
}

/// Why vouches are refused for their age: the first one, in order, that is too
/// young or whose age cannot be told.
pub open spec fn age_refusal(vouches: Seq<VouchRecord>, now: u64, min_age: u64) -> Option<Stop>
    decreases vouches.len(),
{
    if vouches.len() == 0 {
        None
    } else {
        let matures = vouches.last().vouch_timestamp + min_age;
        first(
            age_refusal(vouches.drop_last(), now, min_age),
            if matures > u64::MAX {
                Some(Stop::Overflow)
            } else if now < matures {
                Some(Stop::Error(ContractError::VouchTooRecent))
            } else {
                None
            },
        )
    }
}

/// Why a loan request is refused for want of backing. Only vouches in the
/// loan's own token count.
pub open spec fn backing_refusal(
    s: State,
    borrower: Address,
    amount: i128,
    threshold: i128,
    token: Address,
) -> Option<Stop> {
    let backing = in_token(s.vouches_of(borrower), token);
    let stake = stake_sum(backing);
    let ratio = s.config.max_loan_to_stake_ratio;
    if !stakes_fit(backing) {
        Some(Stop::Error(ContractError::StakeOverflow))
    } else if stake < threshold {
        Some(Stop::Panic(ContractError::InsufficientFunds))
    } else if s.min_vouchers matches Some(min) && backing.len() < min {
        Some(Stop::Error(ContractError::InsufficientVouchers))
    } else {
        first(
            age_refusal(backing, s.timestamp, s.terms.min_vouch_age),
            if !is_amount(stake * ratio) {
                Some(Stop::Overflow)
            } else if amount > quotient(stake * ratio, 100) {
                Some(Stop::Panic(ContractError::LoanExceedsMaxAmount))
            } else {
                None
            },
        )
    }
}

/// Why a loan that is backed is not paid out.
pub open spec fn funding_refusal(s: State, borrower: Address, amount: i128, token: Address) -> Option<
    Stop,
> {
    match s.contract_balance {
        None => Some(Stop::Ask(Question::TokenBalance(token))),
        Some(balance) => if balance < amount {
            Some(Stop::Error(ContractError::InsufficientFunds))
        } else if s.timestamp + s.config.loan_duration > u64::MAX || s.last_loan_id() == u64::MAX {
            Some(Stop::Overflow)
        } else {
            match dynamic_yield(s, borrower) {
                Err(stop) => Some(stop),
                Ok(bps) => if share_of(amount as int, bps as int) is Err || count_of(
                    s.loan_count,
                    borrower,
                ) == u32::MAX {
                    Some(Stop::Overflow)
                } else {
                    None
                },
            }
        },
    }
}

/// Why a loan request is refused.
pub open spec fn request_refusal(
    s: State,
    borrower: Address,
    amount: i128,
    threshold: i128,
    token: Address,
) -> Option<Stop> {
    first(
        screening_refusal(s, borrower, amount, threshold, token),
        first(
            backing_refusal(s, borrower, amount, threshold, token),
            funding_refusal(s, borrower, amount, token),
        ),
    )
}

/// The loan that a granted request makes.
pub open spec fn new_loan(
    s: State,
    borrower: Address,
    amount: i128,
    loan_purpose: soroban_sdk::String,
    token: Address,
) -> Loan {
    Loan {
        id: (s.last_loan_id() + 1) as u64,
        borrower,
        co_borrowers: Seq::empty(),
        amount,
        amount_repaid: 0,
        total_yield: share_of(
            amount as int,
            dynamic_yield(s, borrower).unwrap() as int,
        ).unwrap(),
        status: LoanStatus::Active,
        created_at: s.timestamp,
        disbursement_timestamp: s.timestamp,
        repayment_timestamp: None,
        deadline: (s.timestamp + s.config.loan_duration) as u64,
        loan_purpose,
        token_address: token,
    }
}

/// The state after a granted request.
pub open spec fn after_request(
    s: State,
    borrower: Address,
    amount: i128,
    loan_purpose: soroban_sdk::String,
    token: Address,
) -> State {
    let loan = new_loan(s, borrower, amount, loan_purpose, token);
    State {
        loan_counter: Some(loan.id),
        loans: s.loans.insert(loan.id, loan),
        loan_vouchers: s.loan_vouchers.insert(
            loan.id,
            vouchers_of(in_token(s.vouches_of(borrower), token)),
        ),
        active_loan: s.active_loan.insert(borrower, loan.id),
        latest_loan: s.latest_loan.insert(borrower, loan.id),
        loan_count: s.loan_count.insert(borrower, (count_of(s.loan_count, borrower) + 1) as u32),
        ..s
    }.with_effects(
        seq![
            Effect::Transfer { token, from: s.contract, to: borrower, amount },
            Effect::Publish(
                Event::LoanDisbursed { borrower, amount, deadline: loan.deadline, token },
            ),
        ],
    )
}

/// Looks at everything but the backing.
fn screen_request(
    ledger: &Ledger,
    borrower: Address,
    amount: i128,
    threshold: i128,
    token: Address,
) -> (r: Result<(), Stop>)
    ensures
        r == outcome(screening_refusal(ledger@, borrower, amount, threshold, token)),
{
    require_auth(ledger, 0, borrower)?;
    require_not_paused(ledger)?;
    let blacklisted: bool = match ledger.blacklisted.get(&borrower) {
        Some(flag) => *flag,
        None => false,
    };
    if blacklisted {
        return Err(Stop::Error(ContractError::Blacklisted));
    }
    require_allowed_token(ledger, token)?;
    if amount < ledger.config.min_loan_amount {
        return Err(Stop::Error(ContractError::LoanBelowMinAmount));
    }
    if threshold <= 0 {
        return Err(Stop::Panic(ContractError::InvalidAmount));
    }
    let max_loan_amount: i128 = ledger.max_loan_amount.unwrap_or(0);
    if max_loan_amount > 0 && amount > max_loan_amount {
        return Err(Stop::Error(ContractError::LoanExceedsMaxAmount));
    }
    if has_active_loan(ledger, borrower) {
        return Err(Stop::Error(ContractError::ActiveLoanExists));
    }
    Ok(())
}

/// Looks at the ages of the vouches.
fn require_aged(vouches: &VouchList, now: u64, min_age: u64) -> (r: Result<(), Stop>)
    ensures
        r == outcome(age_refusal(vouches@, now, min_age)),
{
    let n: u32 = vouches.len();
    let mut i: u32 = 0;
    assert(vouches@.take(n as int) =~= vouches@);
    while i < n
        invariant
            i <= n,
            n == vouches@.len(),
            age_refusal(vouches@.take(i as int), now, min_age) is None,
        decreases n - i,
    {
        assert(vouches@.take(i + 1).drop_last() =~= vouches@.take(i as int));
        if let Some(v) = vouches.get(i) {
            let refusal: Option<Stop> = match v.vouch_timestamp.checked_add(min_age) {
                None => Some(Stop::Overflow),
                Some(matures) => if now < matures {
                    Some(Stop::Error(ContractError::VouchTooRecent))
                } else {
                    None
                },
            };
            if let Some(stop) = refusal {
                proof {
                    lemma_age_refusal_stays(vouches@, now, min_age, i + 1);
                }
                return Err(stop);
            }
        }
        i += 1;
    }
    Ok(())
}

/// Once some of the vouches are refused for their age, all of them are, for the
/// same reason.
proof fn lemma_age_refusal_stays(vouches: Seq<VouchRecord>, now: u64, min_age: u64, k: int)
    requires
        0 <= k <= vouches.len(),
        age_refusal(vouches.take(k), now, min_age) is Some,
    ensures
        age_refusal(vouches, now, min_age) == age_refusal(vouches.take(k), now, min_age),
    decreases vouches.len(),
{
    if k == vouches.len() {
        assert(vouches.take(k) =~= vouches);
    } else {
        assert(vouches.drop_last().take(k) =~= vouches.take(k));
        lemma_age_refusal_stays(vouches.drop_last(), now, min_age, k);
    }
}

/// Looks at the backing; tells whose it is.
fn weigh_backing(
    ledger: &Ledger,
    borrower: Address,
    amount: i128,
    threshold: i128,
    token: Address,
) -> (r: Result<AddressList, Stop>)
    ensures
        match r {
            Err(stop) => backing_refusal(ledger@, borrower, amount, threshold, token) == Some(stop),
            Ok(vouchers) => {
                &&& backing_refusal(ledger@, borrower, amount, threshold, token) is None
                &&& vouchers@ == vouchers_of(in_token(ledger@.vouches_of(borrower), token))
            },
        },
{
    let backing = token_vouches(ledger, borrower, token);
    let stake: i128 = match total_stake(&backing) {
        Some(sum) => sum,
        None => {
            return Err(Stop::Error(ContractError::StakeOverflow));
        },
    };
    if stake < threshold {
        return Err(Stop::Panic(ContractError::InsufficientFunds));
    }
    let min_vouchers: u32 = ledger.min_vouchers.unwrap_or(0);
    if backing.len() < min_vouchers {
        return Err(Stop::Error(ContractError::InsufficientVouchers));
    }
    require_aged(&backing, ledger.timestamp, ledger.terms.min_vouch_age)?;
    let product: i128 = times(stake, ledger.config.max_loan_to_stake_ratio as i128)?;
    if amount > divided(product, 100) {
        return Err(Stop::Panic(ContractError::LoanExceedsMaxAmount));
    }
    Ok(list_vouchers(&ledger.env, &backing))
}

/// What a granted request fixes.
struct Quote {
    id: u64,
    deadline: u64,
    total_yield: i128,
    loan_count: u32,
}

/// Looks at the money and works out the loan.
fn quote_loan(ledger: &Ledger, borrower: Address, amount: i128, token: Address) -> (r: Result<
    Quote,
    Stop,
>)
    ensures
        match r {
            Err(stop) => funding_refusal(ledger@, borrower, amount, token) == Some(stop),
            Ok(q) => {
                &&& funding_refusal(ledger@, borrower, amount, token) is None
                &&& q.id == ledger@.last_loan_id() + 1
                &&& q.deadline == ledger@.timestamp + ledger@.config.loan_duration
                &&& q.total_yield == share_of(
                    amount as int,
                    dynamic_yield(ledger@, borrower).unwrap() as int,
                ).unwrap()
                &&& q.loan_count == count_of(ledger@.loan_count, borrower) + 1
            },
        },
{
    let balance: i128 = match ledger.contract_balance {
        None => {
            return Err(Stop::Ask(Question::TokenBalance(token)));
        },
        Some(balance) => balance,
    };
    if balance < amount {
        return Err(Stop::Error(ContractError::InsufficientFunds));
    }
    let deadline: u64 = match ledger.timestamp.checked_add(ledger.config.loan_duration) {
        Some(deadline) => deadline,
        None => {
            return Err(Stop::Overflow);
        },
    };
    let id: u64 = next_loan_id(ledger)?;
    let bps: i128 = calculate_dynamic_yield(ledger, borrower)?;
    let product: i128 = times(amount, bps)?;
    let total_yield: i128 = divided(product, BPS_DENOMINATOR);
    let loan_count: u32 = one_more(loan_count(ledger, borrower))?;
    Ok(Quote { id, deadline, total_yield, loan_count })
}

/// Requests a loan.
///
/// `amount` is what is paid out, and `threshold` the least total stake, in the
/// same token, that has to be vouched for the borrower. Whose vouches they are is
/// kept with the loan.
pub fn request_loan(
    ledger: &mut Ledger,
    borrower: Address,
    amount: i128,
    threshold: i128,
    loan_purpose: soroban_sdk::String,
    token_addr: Address,
) -> (r: Result<(), Stop>)
    ensures
        r == outcome(request_refusal(old(ledger)@, borrower, amount, threshold, token_addr)),
        final(ledger)@ == if r is Ok {
            after_request(old(ledger)@, borrower, amount, loan_purpose, token_addr)
        } else {
            old(ledger)@
        },
{
    screen_request(ledger, borrower, amount, threshold, token_addr)?;
    let vouchers = weigh_backing(ledger, borrower, amount, threshold, token_addr)?;
    let quote = quote_loan(ledger, borrower, amount, token_addr)?;
    let loan = LoanRecord {
        id: quote.id,
        borrower,
        co_borrowers: AddressList::new(&ledger.env),
        amount,
        amount_repaid: 0,
        total_yield: quote.total_yield,
        status: LoanStatus::Active,
        created_at: ledger.timestamp,
        disbursement_timestamp: ledger.timestamp,
        repayment_timestamp: None,
        deadline: quote.deadline,
        loan_purpose,
        token_address: token_addr,
    };
    let ghost record = loan@;
    let ghost behind = vouchers@;
    ledger.loan_counter = Some(quote.id);
    ledger.loans.insert(quote.id, loan);
    ledger.loan_vouchers.insert(quote.id, vouchers);
    ledger.active_loan.insert(borrower, quote.id);
    ledger.latest_loan.insert(borrower, quote.id);
    ledger.loan_count.insert(borrower, quote.loan_count);
    ledger.effects.push(
        Effect::Transfer { token: token_addr, from: ledger.contract, to: borrower, amount },
    );
    ledger.effects.push(
        Effect::Publish(
            Event::LoanDisbursed { borrower, amount, deadline: quote.deadline, token: token_addr },
        ),
    );
    proof {
        let s = old(ledger)@;
        assert(record =~= new_loan(s, borrower, amount, loan_purpose, token_addr));
        assert(ledger@.loans =~= s.loans.insert(quote.id, record));
        assert(ledger@.loan_vouchers =~= s.loan_vouchers.insert(quote.id, behind));
        assert(ledger@ =~= after_request(s, borrower, amount, loan_purpose, token_addr));
    }
    Ok(())
}

/// How many loans a borrower has been given.
pub fn loan_count(ledger: &Ledger, borrower: Address) -> (r: u32)
    ensures
        r == count_of(ledger@.loan_count, borrower),
        ledger.loan_count@.contains_key(borrower) ==> r == ledger.loan_count@[borrower],
        !ledger.loan_count@.contains_key(borrower) ==> r == 0,
{
    match ledger.loan_count.get(&borrower) {
        Some(n) => *n,
        None => 0,
    }
}

/// How many loans a borrower has paid back.
pub fn repayment_count(ledger: &Ledger, borrower: Address) -> (r: u32)
    ensures
        r == count_of(ledger@.repayment_count, borrower),
        ledger.repayment_count@.contains_key(borrower) ==> r == ledger.repayment_count@[borrower],
        !ledger.repayment_count@.contains_key(borrower) ==> r == 0,
{
    match ledger.repayment_count.get(&borrower) {
        Some(n) => *n,
        None => 0,
    }
}

/// How many of a borrower's loans were written off.
pub fn default_count(ledger: &Ledger, borrower: Address) -> (r: u32)
    ensures
        r == count_of(ledger@.default_count, borrower),
        ledger.default_count@.contains_key(borrower) ==> r == ledger.default_count@[borrower],
        !ledger.default_count@.contains_key(borrower) ==> r == 0,
{
    match ledger.default_count.get(&borrower) {
        Some(n) => *n,
        None => 0,
    }
}

/// Where a borrower's latest loan stands.
pub fn loan_status(ledger: &Ledger, borrower: Address) -> (r: LoanStatus)
    ensures
        r == match ledger@.latest_record(borrower) {
            Some(loan) => loan.status,
            None => LoanStatus::NoLoan,
        },
        ({
            let id = ledger.latest_loan@[borrower];
            if ledger.latest_loan@.contains_key(borrower) && ledger.loans@.contains_key(id) {
                r == ledger.loans@[id].status
            } else {
                r is NoLoan
            }
        }),
{
    match get_latest_loan_record(ledger, borrower) {
        None => LoanStatus::NoLoan,
        Some(loan) => loan.status,
    }
}

/// A borrower's latest loan.
pub fn get_loan(ledger: &Ledger, borrower: Address) -> (r: Option<LoanRecord>)
    ensures
        match r {
            Some(loan) => ledger@.latest_record(borrower) == Some(loan@),
            None => ledger@.latest_record(borrower) is None,
        },
        ({
            let id = ledger.latest_loan@[borrower];
            if ledger.latest_loan@.contains_key(borrower) && ledger.loans@.contains_key(id) {
                r matches Some(loan) && loan@ == ledger.loans@[id]@
            } else {
                r is None
            }
        }),
{
    match get_latest_loan_record(ledger, borrower) {
        Some(loan) => Some(loan.clone()),
        None => None,
    }
}

/// The loan with an id.
pub fn get_loan_by_id(ledger: &Ledger, loan_id: u64) -> (r: Option<LoanRecord>)
    ensures
        match r {
            Some(loan) => entry(ledger@.loans, loan_id) == Some(loan@),
            None => entry(ledger@.loans, loan_id) is None,
        },
        r is Some <==> ledger.loans@.contains_key(loan_id),
        r matches Some(loan) ==> loan@ == ledger.loans@[loan_id]@,
{
    match ledger.loans.get(&loan_id) {
        Some(loan) => Some(loan.clone()),
        None => None,
    }
}

/// Whether a borrower is eligible for a loan: no latest loan still active, and
/// enough stake in the token. The stakes have to add up to an amount.
pub open spec fn eligibility(s: State, borrower: Address, threshold: i128, token: Address) -> Result<
    bool,
    Stop,
> {
    let backing = in_token(s.vouches_of(borrower), token);
    if threshold <= 0 {
        Ok(false)
    } else if s.latest_record(borrower) matches Some(loan) && loan.status == LoanStatus::Active {
        Ok(false)
    } else if !stakes_fit(backing) {
        Err(Stop::Overflow)
    } else {
        Ok(stake_sum(backing) >= threshold)
    }
}

/// Whether a borrower is eligible for a loan that asks for `threshold` of stake
/// in a token.
pub fn is_eligible(ledger: &Ledger, borrower: Address, threshold: i128, token_addr: Address) -> (r:
    Result<bool, Stop>)
    ensures
        r == eligibility(ledger@, borrower, threshold, token_addr),
{
    if threshold <= 0 {
        return Ok(false);
    }
    if let Some(loan) = get_latest_loan_record(ledger, borrower) {
        if loan.status == LoanStatus::Active {
            return Ok(false);
        }
    }
    let backing = token_vouches(ledger, borrower, token_addr);
    match total_stake(&backing) {
        None => Err(Stop::Overflow),
        Some(stake) => Ok(stake >= threshold),
    }
}

/// Whether a loan is to be reminded of: active, and due within the reminder
/// window but not overdue.
pub open spec fn is_due_soon(s: State, id: u64) -> bool {
    &&& entry(s.loans, id) matches Some(loan)
    &&& loan.status == LoanStatus::Active
    &&& s.timestamp < loan.deadline <= s.timestamp + REMINDER_WINDOW
}

/// The reminders for the loans with ids from one to `last`, in that order.
pub open spec fn reminders(s: State, last: nat) -> Seq<Effect>
    decreases last,
{
    if last == 0 {
        Seq::empty()
    } else {
        let before = reminders(s, (last - 1) as nat);
        if is_due_soon(s, last as u64) {
            let loan = s.loans[last as u64];
            before.push(
                Effect::Publish(
                    Event::RepaymentReminder { borrower: loan.borrower, deadline: loan.deadline },
                ),
            )
        } else {
            before
        }
    }
}

/// Announces every active loan whose deadline is within seven days.
pub fn emit_repayment_reminders(ledger: &mut Ledger)
    ensures
        final(ledger)@ == old(ledger)@.with_effects(
            reminders(old(ledger)@, old(ledger)@.last_loan_id() as nat),
        ),
{
    let ghost s = ledger@;
    let last: u64 = ledger.loan_counter.unwrap_or(0);
    let mut id: u64 = 0;
    proof {
        assert(s =~= s.with_effects(reminders(s, 0)));
    }
    while id < last
        invariant
            id <= last,
            last == s.last_loan_id(),
            ledger@ == s.with_effects(reminders(s, id as nat)),
        decreases last - id,
    {
        id += 1;
        let mut reminder: Option<Effect> = None;
        if let Some(loan) = ledger.loans.get(&id) {
            if loan.status == LoanStatus::Active && loan.deadline > ledger.timestamp
                && loan.deadline - ledger.timestamp <= REMINDER_WINDOW {
                reminder = Some(
                    Effect::Publish(
                        Event::RepaymentReminder {
                            borrower: loan.borrower,
                            deadline: loan.deadline,
                        },
                    ),
                );
            }
        }
        let ghost before = ledger@;
        if let Some(effect) = reminder {
            ledger.effects.push(effect);
        }
        proof {
            assert(before.loans == s.loans);
            assert(ledger@.effects =~= s.effects + reminders(s, id as nat));
            assert(ledger@ =~= s.with_effects(reminders(s, id as nat)));
        }
    }
}

/// Why a reputation token is not minted.
pub open spec fn mint_refusal(s: State, borrower: Address) -> Option<Stop> {
    if !s.is_granted(0, borrower) {
        Some(Stop::Ask(Question::Auth(borrower)))
    } else if count_of(s.repayment_count, borrower) == 0 {
        Some(Stop::Error(ContractError::NoActiveLoan))
    } else if s.reputation_nft is None {
        Some(Stop::Error(ContractError::NoActiveLoan))
    } else {
        None
    }
}

/// The state after a reputation token was minted.
pub open spec fn after_mint(s: State, borrower: Address) -> State {
    s.with_effects(
        seq![
            Effect::Mint { nft: s.reputation_nft.unwrap(), to: borrower },
            Effect::Publish(Event::ReputationMinted { borrower }),
        ],
    )
}

/// Mints a reputation token for a borrower who has paid back at least one loan,
/// where a reputation contract is configured.
pub fn mint_reputation_nft(ledger: &mut Ledger, borrower: Address) -> (r: Result<(), Stop>)
    ensures
        r == outcome(mint_refusal(old(ledger)@, borrower)),
        final(ledger)@ == if r is Ok {
            after_mint(old(ledger)@, borrower)
        } else {
            old(ledger)@
        },
{
    require_auth(ledger, 0, borrower)?;
    if repayment_count(ledger, borrower) == 0 {
        return Err(Stop::Error(ContractError::NoActiveLoan));
    }
    let nft: Address = match ledger.reputation_nft {
        Some(nft) => nft,
        None => {
            return Err(Stop::Error(ContractError::NoActiveLoan));
        },
    };
    ledger.effects.push(Effect::Mint { nft, to: borrower });
    ledger.effects.push(Effect::Publish(Event::ReputationMinted { borrower }));
    proof {
        assert(ledger@ =~= after_mint(old(ledger)@, borrower));
    }
    Ok(())
}

} // verus!
