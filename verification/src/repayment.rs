//! Paying a loan back.
//!
//! A repayment has two parts. The first takes the payment and, where it is the
//! last one, pays fee, stakes and yield out. The second can only run once the
//! host has moved that money, because the referral bonus depends on what is left
//! with the contract; it pays the bonus and books the repayment.

use crate::helpers::{
    bps_of, divided, get_active_loan_record, minus, one_more, plus, quotient, require_auth,
    require_not_paused, share_of, times, token_vouches, total_stake,
};
use crate::host::{AddressList, VouchList};
use crate::ledger::{
    count_of, entry, in_token, is_amount, stake_sum, stakes_fit, Ledger, Loan, LoanRecord, State,
};
use crate::loan::repayment_count;
use crate::types::{
    first, outcome, Address, ContractError, Effect, Event, LoanStatus, Question, Stop, VouchRecord,
};
use vstd::prelude::*;

verus! {

broadcast use vstd::std_specs::btree::group_btree_axioms;

/// What a loan costs in all.
pub open spec fn total_owed(loan: Loan) -> int {
    loan.amount + loan.total_yield
}

/// What is still to be paid.
pub open spec fn outstanding(loan: Loan) -> int {
    total_owed(loan) - loan.amount_repaid
}

/// What one voucher's stake earns of the yield: its share of the whole stake,
/// rounded toward zero.
pub open spec fn voucher_yield(total_yield: int, stake: int, whole: int) -> int {
    if whole > 0 {
        quotient(total_yield * stake, whole)
    } else {
        0
    }
}

/// What the vouchers earn together.
pub open spec fn distributed(backing: Seq<VouchRecord>, total_yield: int, whole: int) -> int
    decreases backing.len(),
{
    if backing.len() == 0 {
        0
    } else {
        distributed(backing.drop_last(), total_yield, whole) + voucher_yield(
            total_yield,
            backing.last().stake as int,
            whole,
        )
    }
}

/// Why the vouchers cannot be paid: the first of them, in order, whose payout
/// leaves the range of an amount, or with whom more than the yield is given away.
pub open spec fn payout_refusal(backing: Seq<VouchRecord>, total_yield: int, whole: int) -> Option<
    Stop,
>
    decreases backing.len(),
{
    if backing.len() == 0 {
        None
    } else {
        let stake = backing.last().stake as int;
        let given = distributed(backing, total_yield, whole);
        first(
            payout_refusal(backing.drop_last(), total_yield, whole),
            if whole > 0 && !is_amount(total_yield * stake) {
                Some(Stop::Overflow)
            } else if !is_amount(given) {
                Some(Stop::Overflow)
            } else if given > total_yield {
                Some(Stop::Panic(ContractError::InsufficientFunds))
            } else if !is_amount(stake + voucher_yield(total_yield, stake, whole)) {
                Some(Stop::Overflow)
            } else {
                None
            },
        )
    }
}

/// What each voucher is paid: the stake back, and what it has earned.
pub open spec fn payouts(
    contract: Address,
    token: Address,
    backing: Seq<VouchRecord>,
    total_yield: int,
    whole: int,
) -> Seq<Effect> {
    backing.map_values(
        |v: VouchRecord|
            Effect::Transfer {
                token,
                from: contract,
                to: v.voucher,
                amount: (v.stake + voucher_yield(total_yield, v.stake as int, whole)) as i128,
            },
    )
}

/// The protocol's fee on a loan.
pub open spec fn protocol_fee(s: State, loan: Loan) -> Result<i128, Stop> {
    share_of(
        loan.amount as int,
        match s.protocol_fee_bps {
            Some(bps) => bps as int,
            None => 0,
        },
    )
}

/// The transfer of the fee, where there is one and somebody to take it.
pub open spec fn fee_payment(s: State, loan: Loan) -> Seq<Effect> {
    match (protocol_fee(s, loan), s.fee_treasury) {
        (Ok(fee), Some(treasury)) => if fee > 0 {
            seq![
                Effect::Transfer {
                    token: loan.token_address,
                    from: s.contract,
                    to: treasury,
                    amount: fee,
                },
            ]
        } else {
            Seq::empty()
        },
        _ => Seq::empty(),
    }
}

/// The vouches that a loan has to pay back.
pub open spec fn backing_of(s: State, loan: Loan, borrower: Address) -> Seq<VouchRecord> {
    in_token(s.vouches_of(borrower), loan.token_address)
}

/// Which co-borrower still has to authorize the repayment: the first, in order,
/// whose authorization is not the next one granted after the borrower's.
pub open spec fn co_signing_refusal(s: State, co_borrowers: Seq<Address>) -> Option<Stop>
    decreases co_borrowers.len(),
{
    if co_borrowers.len() == 0 {
        None
    } else {
        first(
            co_signing_refusal(s, co_borrowers.drop_last()),
            if s.is_granted(co_borrowers.len() as int, co_borrowers.last()) {
                None
            } else {
                Some(Stop::Ask(Question::Auth(co_borrowers.last())))
            },
        )
    }
}

/// Why a payment on a loan is refused.
pub open spec fn payment_refusal(s: State, loan: Loan, borrower: Address, payment: i128) -> Option<
    Stop,
> {
    if borrower != loan.borrower {
        Some(Stop::Error(ContractError::UnauthorizedCaller))
    } else {
        first(
            co_signing_refusal(s, loan.co_borrowers),
            if loan.status != LoanStatus::Active {
                Some(Stop::Error(ContractError::NoActiveLoan))
            } else if s.timestamp > loan.deadline {
                Some(Stop::Panic(ContractError::LoanPastDeadline))
            } else if !is_amount(total_owed(loan)) || !is_amount(outstanding(loan)) {
                Some(Stop::Overflow)
            } else if payment <= 0 || payment > outstanding(loan) {
                Some(Stop::Panic(ContractError::InvalidAmount))
            } else {
                None
            },
        )
    }
}

/// Why the last payment on a loan is refused though it is the right amount: fee
/// or payouts cannot be worked out.
pub open spec fn closing_refusal(s: State, loan: Loan, borrower: Address) -> Option<Stop> {
    let backing = backing_of(s, loan, borrower);
    if protocol_fee(s, loan) is Err || !stakes_fit(backing) {
        Some(Stop::Overflow)
    } else {
        payout_refusal(backing, loan.total_yield as int, stake_sum(backing))
    }
}

/// Why the first part of a repayment is refused.
pub open spec fn collection_refusal(s: State, borrower: Address, payment: i128) -> Option<Stop> {
    if !s.is_granted(0, borrower) {
        Some(Stop::Ask(Question::Auth(borrower)))
    } else if s.paused {
        Some(Stop::Error(ContractError::ContractPaused))
    } else {
        match s.active_record(borrower) {
            None => Some(Stop::Error(ContractError::NoActiveLoan)),
            Some(loan) => first(
                payment_refusal(s, loan, borrower, payment),
                if payment == outstanding(loan) {
                    closing_refusal(s, loan, borrower)
                } else {
                    None
                },
            ),
        }
    }
}

/// What the first part of a repayment moves: the payment to the contract and,
/// with the last payment, the fee and what each voucher is due.
pub open spec fn collection(s: State, loan: Loan, borrower: Address, payment: i128) -> Seq<Effect> {
    let backing = backing_of(s, loan, borrower);
    seq![
        Effect::Transfer {
            token: loan.token_address,
            from: borrower,
            to: s.contract,
            amount: payment,
        },
    ] + if payment == outstanding(loan) {
        fee_payment(s, loan) + payouts(
            s.contract,
            loan.token_address,
            backing,
            loan.total_yield as int,
            stake_sum(backing),
        )
    } else {
        Seq::empty()
    }
}

/// The state after the first part of a repayment.
pub open spec fn after_collection(s: State, borrower: Address, payment: i128) -> State {
    s.with_effects(collection(s, s.active_record(borrower).unwrap(), borrower, payment))
}

/// The bonus that a referrer may get for a loan.
pub open spec fn referral_bonus(s: State, loan: Loan) -> Result<i128, Stop> {
    share_of(
        loan.amount as int,
        match s.referral_bonus_bps {
            Some(bps) => bps as int,
            None => s.terms.default_referral_bonus_bps as int,
        },
    )
}

/// Why the second part of a repayment is refused though the first was not.
pub open spec fn booking_refusal(s: State, loan: Loan, borrower: Address) -> Option<Stop> {
    let count_refusal = if count_of(s.repayment_count, borrower) == u32::MAX {
        Some(Stop::Overflow)
    } else {
        None
    };
    match entry(s.referred_by, borrower) {
        None => count_refusal,
        Some(referrer) => match referral_bonus(s, loan) {
            Err(stop) => Some(stop),
            Ok(bonus) => if bonus > 0 && s.contract_balance is None {
                Some(Stop::Ask(Question::TokenBalance(loan.token_address)))
            } else {
                count_refusal
            },
        },
    }
}

/// Why the second part of a repayment is refused.
pub open spec fn settlement_refusal(s: State, borrower: Address, payment: i128) -> Option<Stop> {
    first(
        collection_refusal(s, borrower, payment),
        match s.active_record(borrower) {
            None => None,
            Some(loan) => if payment == outstanding(loan) {
                booking_refusal(s, loan, borrower)
            } else {
                None
            },
        },
    )
}

/// What paying a bonus takes; nothing where there is none to pay.
pub open spec fn bonus_effects(
    contract: Address,
    token: Address,
    borrower: Address,
    bonus: Option<(Address, i128)>,
) -> Seq<Effect> {
    match bonus {
        None => Seq::empty(),
        Some((referrer, amount)) => seq![
            Effect::Transfer { token, from: contract, to: referrer, amount },
            Effect::Publish(Event::ReferralBonus { referrer, borrower, bonus: amount }),
        ],
    }
}

/// The referrer's bonus, where there is one and the contract can afford it.
pub open spec fn bonus_payment(s: State, loan: Loan, borrower: Address) -> Seq<Effect> {
    match (entry(s.referred_by, borrower), referral_bonus(s, loan), s.contract_balance) {
        (Some(referrer), Ok(bonus), Some(balance)) => bonus_effects(
            s.contract,
            loan.token_address,
            borrower,
            if 0 < bonus <= balance {
                Some((referrer, bonus))
            } else {
                None
            },
        ),
        _ => Seq::empty(),
    }
}

/// The reputation token for a repayment, where a reputation contract is configured.
pub open spec fn reputation_reward(s: State, borrower: Address) -> Seq<Effect> {
    match s.reputation_nft {
        Some(nft) => seq![Effect::Mint { nft, to: borrower }],
        None => Seq::empty(),
    }
}

/// A loan after a payment.
pub open spec fn paid_loan(s: State, loan: Loan, payment: i128) -> Loan {
    let paid = (loan.amount_repaid + payment) as i128;
    if payment == outstanding(loan) {
        Loan {
            amount_repaid: paid,
            status: LoanStatus::Repaid,
            repayment_timestamp: Some(s.timestamp),
            ..loan
        }
    } else {
        Loan { amount_repaid: paid, ..loan }
    }
}

/// The state after the second part of a repayment.
pub open spec fn after_settlement(s: State, borrower: Address, payment: i128) -> State {
    let loan = s.active_record(borrower).unwrap();
    let booked = State { loans: s.loans.insert(loan.id, paid_loan(s, loan, payment)), ..s };
    if payment == outstanding(loan) {
        State {
            repayment_count: s.repayment_count.insert(
                borrower,
                (count_of(s.repayment_count, borrower) + 1) as u32,
            ),
            active_loan: s.active_loan.remove(borrower),
            vouches: s.vouches.remove(borrower),
            ..booked
        }.with_effects(
            bonus_payment(s, loan, borrower) + reputation_reward(s, borrower) + seq![
                Effect::Publish(Event::LoanRepaid { borrower, amount: loan.amount }),
            ],
        )
    } else {
        booked
    }
}

/// The state after a repayment.
pub open spec fn after_repayment(s: State, borrower: Address, payment: i128) -> State {
    after_settlement(after_collection(s, borrower, payment), borrower, payment)
}

/// Demands the authorization of each co-borrower.
fn require_co_signed(ledger: &Ledger, co_borrowers: &AddressList) -> (r: Result<(), Stop>)
    ensures
        r == outcome(co_signing_refusal(ledger@, co_borrowers@)),
{
    let n: u32 = co_borrowers.len();
    let mut i: u32 = 0;
    assert(co_borrowers@.take(n as int) =~= co_borrowers@);
    while i < n
        invariant
            i <= n,
            n == co_borrowers@.len(),
            co_signing_refusal(ledger@, co_borrowers@.take(i as int)) is None,
        decreases n - i,
    {
        assert(co_borrowers@.take(i + 1).drop_last() =~= co_borrowers@.take(i as int));
        if let Some(address) = co_borrowers.get(i) {
            if let Err(stop) = require_auth(ledger, i as usize + 1, address) {
                proof {
                    lemma_co_signing_stays(ledger@, co_borrowers@, i + 1);
                }
                return Err(stop);
            }
        }
        i += 1;
    }
    Ok(())
}

/// Once one of the co-borrowers still has to authorize, that is the one to ask.
proof fn lemma_co_signing_stays(s: State, co_borrowers: Seq<Address>, k: int)
    requires
        0 <= k <= co_borrowers.len(),
        co_signing_refusal(s, co_borrowers.take(k)) is Some,
    ensures
        co_signing_refusal(s, co_borrowers) == co_signing_refusal(s, co_borrowers.take(k)),
    decreases co_borrowers.len(),
{
    if k == co_borrowers.len() {
        assert(co_borrowers.take(k) =~= co_borrowers);
    } else {
        assert(co_borrowers.drop_last().take(k) =~= co_borrowers.take(k));
        lemma_co_signing_stays(s, co_borrowers.drop_last(), k);
    }
}

/// What one voucher's stake earns of the yield.
fn earned(total_yield: i128, stake: i128, whole: i128) -> (r: Result<i128, Stop>)
    ensures
        match r {
            Err(stop) => stop == Stop::Overflow && whole > 0 && !is_amount(total_yield * stake),
            Ok(y) => (whole > 0 ==> is_amount(total_yield * stake)) && y == voucher_yield(
                total_yield as int,
                stake as int,
                whole as int,
            ),
        },
{
    if whole > 0 {
        let product: i128 = times(total_yield, stake)?;
        Ok(divided(product, whole))
    } else {
        Ok(0)
    }
}

/// Works out what each voucher is paid.
fn work_out_payouts(
    contract: Address,
    token: Address,
    backing: &VouchList,
    total_yield: i128,
    whole: i128,
) -> (r: Result<Vec<Effect>, Stop>)
    ensures
        match r {
            Err(stop) => payout_refusal(backing@, total_yield as int, whole as int) == Some(stop),
            Ok(effects) => {
                &&& payout_refusal(backing@, total_yield as int, whole as int) is None
                &&& effects@ == payouts(
                    contract,
                    token,
                    backing@,
                    total_yield as int,
                    whole as int,
                )
            },
        },
{
    let n: u32 = backing.len();
    let mut i: u32 = 0;
    let mut given: i128 = 0;
    let mut effects: Vec<Effect> = Vec::new();
    assert(backing@.take(n as int) =~= backing@);
    while i < n
        invariant
            i <= n,
            n == backing@.len(),
            given == distributed(backing@.take(i as int), total_yield as int, whole as int),
            payout_refusal(backing@.take(i as int), total_yield as int, whole as int) is None,
            effects@ =~= payouts(
                contract,
                token,
                backing@.take(i as int),
                total_yield as int,
                whole as int,
            ),
        decreases n - i,
    {
        assert(backing@.take(i + 1).drop_last() =~= backing@.take(i as int));
        assert(backing@.take(i + 1).last() == backing@[i as int]);
        if let Some(v) = backing.get(i) {
            match pay_voucher(v.stake, total_yield, whole, given) {
                Err(stop) => {
                    proof {
                        lemma_payout_refusal_stays(
                            backing@,
                            total_yield as int,
                            whole as int,
                            i + 1,
                        );
                    }
                    return Err(stop);
                },
                Ok((sum, amount)) => {
                    given = sum;
                    effects.push(Effect::Transfer { token, from: contract, to: v.voucher, amount });
                },
            }
        }
        i += 1;
    }
    Ok(effects)
}

/// Works out what a voucher is paid, and what has been given away with it.
fn pay_voucher(stake: i128, total_yield: i128, whole: i128, given: i128) -> (r: Result<
    (i128, i128),
    Stop,
>)
    ensures
        ({
            let y = voucher_yield(total_yield as int, stake as int, whole as int);
            if whole > 0 && !is_amount(total_yield * stake) {
                r == Err::<(i128, i128), Stop>(Stop::Overflow)
            } else if !is_amount(given + y) {
                r == Err::<(i128, i128), Stop>(Stop::Overflow)
            } else if given + y > total_yield {
                r == Err::<(i128, i128), Stop>(Stop::Panic(ContractError::InsufficientFunds))
            } else if !is_amount(stake + y) {
                r == Err::<(i128, i128), Stop>(Stop::Overflow)
            } else {
                r == Ok::<(i128, i128), Stop>(((given + y) as i128, (stake + y) as i128))
            }
        }),
{
    let y: i128 = earned(total_yield, stake, whole)?;
    let sum: i128 = plus(given, y)?;
    if sum > total_yield {
        return Err(Stop::Panic(ContractError::InsufficientFunds));
    }
    let amount: i128 = plus(stake, y)?;
    Ok((sum, amount))
}

/// Once some of the vouchers cannot be paid, the rest of them changes nothing.
proof fn lemma_payout_refusal_stays(
    backing: Seq<VouchRecord>,
    total_yield: int,
    whole: int,
    k: int,
)
    requires
        0 <= k <= backing.len(),
        payout_refusal(backing.take(k), total_yield, whole) is Some,
    ensures
        payout_refusal(backing, total_yield, whole) == payout_refusal(
            backing.take(k),
            total_yield,
            whole,
        ),
    decreases backing.len(),
{
    if k == backing.len() {
        assert(backing.take(k) =~= backing);
    } else {
        assert(backing.drop_last().take(k) =~= backing.take(k));
        lemma_payout_refusal_stays(backing.drop_last(), total_yield, whole, k);
    }
}

/// Looks at a payment on a loan; tells whether it is the last one.
fn check_payment(ledger: &Ledger, loan: &LoanRecord, borrower: Address, payment: i128) -> (r: Result<
    bool,
    Stop,
>)
    ensures
        match r {
            Err(stop) => payment_refusal(ledger@, loan@, borrower, payment) == Some(stop),
            Ok(last) => {
                &&& payment_refusal(ledger@, loan@, borrower, payment) is None
                &&& last == (payment == outstanding(loan@))
            },
        },
{
    if borrower != loan.borrower {
        return Err(Stop::Error(ContractError::UnauthorizedCaller));
    }
    require_co_signed(ledger, &loan.co_borrowers)?;
    if loan.status != LoanStatus::Active {
        return Err(Stop::Error(ContractError::NoActiveLoan));
    }
    if ledger.timestamp > loan.deadline {
        return Err(Stop::Panic(ContractError::LoanPastDeadline));
    }
    let owed: i128 = plus(loan.amount, loan.total_yield)?;
    let open: i128 = minus(owed, loan.amount_repaid)?;
    if payment <= 0 || payment > open {
        return Err(Stop::Panic(ContractError::InvalidAmount));
    }
    Ok(loan.amount_repaid + payment >= owed)
}

/// Works out the fee and the payouts that go with the last payment.
fn work_out_closing(ledger: &Ledger, loan: &LoanRecord, borrower: Address) -> (r: Result<
    Vec<Effect>,
    Stop,
>)
    ensures
        match r {
            Err(stop) => closing_refusal(ledger@, loan@, borrower) == Some(stop),
            Ok(effects) => {
                let backing = backing_of(ledger@, loan@, borrower);
                &&& closing_refusal(ledger@, loan@, borrower) is None
                &&& effects@ == fee_payment(ledger@, loan@) + payouts(
                    ledger@.contract,
                    loan.token_address,
                    backing,
                    loan.total_yield as int,
                    stake_sum(backing),
                )
            },
        },
{
    let fee: i128 = bps_of(loan.amount, ledger.protocol_fee_bps.unwrap_or(0))?;
    let mut effects: Vec<Effect> = Vec::new();
    if fee > 0 {
        if let Some(treasury) = ledger.fee_treasury {
            effects.push(
                Effect::Transfer {
                    token: loan.token_address,
                    from: ledger.contract,
                    to: treasury,
                    amount: fee,
                },
            );
        }
    }
    assert(effects@ =~= fee_payment(ledger@, loan@));
    let backing = token_vouches(ledger, borrower, loan.token_address);
    let whole: i128 = match total_stake(&backing) {
        Some(sum) => sum,
        None => {
            return Err(Stop::Overflow);
        },
    };
    let mut paid_out = work_out_payouts(
        ledger.contract,
        loan.token_address,
        &backing,
        loan.total_yield,
        whole,
    )?;
    effects.append(&mut paid_out);
    Ok(effects)
}

/// Works out what the first part of a repayment moves.
fn work_out_collection(ledger: &Ledger, borrower: Address, payment: i128) -> (r: Result<
    Vec<Effect>,
    Stop,
>)
    ensures
        match r {
            Err(stop) => collection_refusal(ledger@, borrower, payment) == Some(stop),
            Ok(effects) => {
                &&& collection_refusal(ledger@, borrower, payment) is None
                &&& effects@ == collection(
                    ledger@,
                    ledger@.active_record(borrower).unwrap(),
                    borrower,
                    payment,
                )
            },
        },
{
    require_auth(ledger, 0, borrower)?;
    require_not_paused(ledger)?;
    let loan = get_active_loan_record(ledger, borrower)?;
    let last: bool = check_payment(ledger, loan, borrower, payment)?;
    let mut effects: Vec<Effect> = Vec::new();
    effects.push(
        Effect::Transfer {
            token: loan.token_address,
            from: borrower,
            to: ledger.contract,
            amount: payment,
        },
    );
    if last {
        let mut closing = work_out_closing(ledger, loan, borrower)?;
        effects.append(&mut closing);
    }
    assert(effects@ =~= collection(ledger@, loan@, borrower, payment));
    Ok(effects)
}

/// The first part of a repayment: takes the payment and, where it is the last
/// one, pays the fee, the stakes and the yield out.
pub fn collect_repayment(ledger: &mut Ledger, borrower: Address, payment: i128) -> (r: Result<
    (),
    Stop,
>)
    ensures
        r == outcome(collection_refusal(old(ledger)@, borrower, payment)),
        final(ledger)@ == if r is Ok {
            after_collection(old(ledger)@, borrower, payment)
        } else {
            old(ledger)@
        },
{
    let mut effects = work_out_collection(ledger, borrower, payment)?;
    ledger.effects.append(&mut effects);
    proof {
        assert(ledger@ =~= after_collection(old(ledger)@, borrower, payment));
    }
    Ok(())
}

/// What the second part of a repayment adds to the books.
struct Booking {
    loan: LoanRecord,
    last: bool,
    /// The referrer and the bonus to pay them.
    bonus: Option<(Address, i128)>,
    repayment_count: u32,
}

/// Works out the referrer's bonus.
fn work_out_bonus(ledger: &Ledger, loan: &LoanRecord, borrower: Address) -> (r: Result<
    Option<(Address, i128)>,
    Stop,
>)
    ensures
        match r {
            Err(stop) => booking_refusal(ledger@, loan@, borrower) == Some(stop),
            Ok(bonus) => {
                &&& booking_refusal(ledger@, loan@, borrower) == if count_of(
                    ledger@.repayment_count,
                    borrower,
                ) == u32::MAX {
                    Some(Stop::Overflow)
                } else {
                    None
                }
                &&& bonus_payment(ledger@, loan@, borrower) == bonus_effects(
                    ledger@.contract,
                    loan.token_address,
                    borrower,
                    bonus,
                )
            },
        },
{
    let referrer: Address = match ledger.referred_by.get(&borrower) {
        None => {
            return Ok(None);
        },
        Some(referrer) => *referrer,
    };
    let bps: u32 = ledger.referral_bonus_bps.unwrap_or(ledger.terms.default_referral_bonus_bps);
    let bonus: i128 = bps_of(loan.amount, bps)?;
    if bonus <= 0 {
        return Ok(None);
    }
    match ledger.contract_balance {
        None => Err(Stop::Ask(Question::TokenBalance(loan.token_address))),
        Some(balance) => if balance >= bonus {
            Ok(Some((referrer, bonus)))
        } else {
            Ok(None)
        },
    }
}

/// Works out what the second part of a repayment adds to the books.
fn work_out_booking(ledger: &Ledger, borrower: Address, payment: i128) -> (r: Result<Booking, Stop>)
    requires
        collection_refusal(ledger@, borrower, payment) is None,
    ensures
        match r {
            Err(stop) => settlement_refusal(ledger@, borrower, payment) == Some(stop),
            Ok(b) => {
                let s = ledger@;
                let loan = s.active_record(borrower).unwrap();
                &&& settlement_refusal(s, borrower, payment) is None
                &&& b.loan@ == paid_loan(s, loan, payment)
                &&& b.last == (payment == outstanding(loan))
                &&& b.last ==> {
                    &&& bonus_payment(s, loan, borrower) == bonus_effects(
                        s.contract,
                        loan.token_address,
                        borrower,
                        b.bonus,
                    )
                    &&& b.repayment_count == count_of(s.repayment_count, borrower) + 1
                }
            },
        },
{
    let found = get_active_loan_record(ledger, borrower)?;
    let mut loan = found.clone();
    let ghost before = loan@;
    loan.amount_repaid = loan.amount_repaid + payment;
    let last: bool = loan.amount_repaid >= loan.amount + loan.total_yield;
    if !last {
        assert(loan@ =~= paid_loan(ledger@, before, payment));
        return Ok(Booking { loan, last, bonus: None, repayment_count: 0 });
    }
    let bonus = work_out_bonus(ledger, found, borrower)?;
    let count: u32 = one_more(repayment_count(ledger, borrower))?;
    loan.status = LoanStatus::Repaid;
    loan.repayment_timestamp = Some(ledger.timestamp);
    assert(loan@ =~= paid_loan(ledger@, before, payment));
    Ok(Booking { loan, last, bonus, repayment_count: count })
}

/// Books what was worked out.
fn book(ledger: &mut Ledger, borrower: Address, b: Booking)
    ensures
        final(ledger)@ == ({
            let s = old(ledger)@;
            let booked = State { loans: s.loans.insert(b.loan.id, b.loan@), ..s };
            if b.last {
                State {
                    repayment_count: s.repayment_count.insert(borrower, b.repayment_count),
                    active_loan: s.active_loan.remove(borrower),
                    vouches: s.vouches.remove(borrower),
                    ..booked
                }.with_effects(
                    bonus_effects(s.contract, b.loan.token_address, borrower, b.bonus)
                        + reputation_reward(s, borrower) + seq![
                        Effect::Publish(Event::LoanRepaid { borrower, amount: b.loan.amount }),
                    ],
                )
            } else {
                booked
            }
        }),
{
    let ghost s = ledger@;
    let ghost record = b.loan@;
    if b.last {
        if let Some((referrer, amount)) = b.bonus {
            ledger.effects.push(
                Effect::Transfer {
                    token: b.loan.token_address,
                    from: ledger.contract,
                    to: referrer,
                    amount,
                },
            );
            ledger.effects.push(
                Effect::Publish(Event::ReferralBonus { referrer, borrower, bonus: amount }),
            );
        }
        ledger.repayment_count.insert(borrower, b.repayment_count);
        if let Some(nft) = ledger.reputation_nft {
            ledger.effects.push(Effect::Mint { nft, to: borrower });
        }
        ledger.active_loan.remove(&borrower);
        ledger.vouches.remove(&borrower);
        ledger.effects.push(
            Effect::Publish(Event::LoanRepaid { borrower, amount: b.loan.amount }),
        );
        assert(ledger@.vouches =~= s.vouches.remove(borrower));
    }
    let id: u64 = b.loan.id;
    ledger.loans.insert(id, b.loan);
    assert(ledger@.loans =~= s.loans.insert(id, record));
}

/// The second part of a repayment, once the host has moved what the first part
/// recorded: pays the referrer's bonus, where the contract can afford it, and
/// books the payment.
pub fn settle_repayment(ledger: &mut Ledger, borrower: Address, payment: i128) -> (r: Result<
    (),
    Stop,
>)
    ensures
        r == outcome(settlement_refusal(old(ledger)@, borrower, payment)),
        final(ledger)@ == if r is Ok {
            after_settlement(old(ledger)@, borrower, payment)
        } else {
            old(ledger)@
        },
{
    let _ = work_out_collection(ledger, borrower, payment)?;
    let booking = work_out_booking(ledger, borrower, payment)?;
    book(ledger, borrower, booking);
    proof {
        assert(ledger@ =~= after_settlement(old(ledger)@, borrower, payment));
    }
    Ok(())
}

/// Pays a loan back, in part or in full: both parts of a repayment. The balance
/// that the host has answered is taken for the one after the first part.
pub fn repay(ledger: &mut Ledger, borrower: Address, payment: i128) -> (r: Result<(), Stop>)
    ensures
        r == outcome(settlement_refusal(old(ledger)@, borrower, payment)),
        final(ledger)@ == if r is Ok {
            after_repayment(old(ledger)@, borrower, payment)
        } else {
            old(ledger)@
        },
{
    let mut effects = work_out_collection(ledger, borrower, payment)?;
    let booking = work_out_booking(ledger, borrower, payment)?;
    ledger.effects.append(&mut effects);
    proof {
        assert(ledger@ =~= after_collection(old(ledger)@, borrower, payment));
    }
    book(ledger, borrower, booking);
    proof {
        assert(ledger@ =~= after_repayment(old(ledger)@, borrower, payment));
    }
    Ok(())
}

} // verus!
