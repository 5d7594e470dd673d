//! What repayments do.

use crate::laws::numbers::{
    basis_points_are_ten_thousandths, division_rounds_toward_zero, holds, rounds_to, staked,
    stakes_are_added_up, stakes_hold,
};
use crate::laws::requests::{behind, counted, lemma_behind, signed_by};
use crate::ledger::{Loan, State};
use crate::repayment::{
    after_collection, after_repayment, after_settlement, co_signing_refusal, collection_refusal,
    distributed, payout_refusal, protocol_fee, referral_bonus, settlement_refusal, voucher_yield,
};
use crate::types::{
    outcome, Address, ContractError, Effect, Event, LoanStatus, Question, Stop, VouchRecord,
};
use vstd::prelude::*;

verus! {

/// The loan under the number that stands as the borrower's active one.
pub open spec fn loan_of(s: State, borrower: Address) -> Loan {
    s.loans[s.active_loan[borrower]]
}

/// What is still owed of a loan.
pub open spec fn owed(loan: Loan) -> int {
    loan.amount + loan.total_yield - loan.amount_repaid
}

/// Whether `e` is what each vouch earns of a yield: its part of the whole stake,
/// rounded toward zero, and nothing where there is no stake.
pub open spec fn are_shares(e: Seq<int>, backing: Seq<VouchRecord>, total_yield: int) -> bool {
    &&& e.len() == backing.len()
    &&& forall|i: int|
        0 <= i < backing.len() ==> if staked(backing) > 0 {
            rounds_to(total_yield * (#[trigger] backing[i]).stake, staked(backing), e[i])
        } else {
            e[i] == 0
        }
}

/// The sum of numbers.
pub open spec fn summed(e: Seq<int>) -> int {
    e.fold_left(0int, |sum: int, x: int| sum + x)
}

/// Whether the part of the yield that one vouch earns can be worked out, without
/// leaving the range of an amount and without giving away more than the yield.
pub open spec fn can_be_paid(
    e: Seq<int>,
    backing: Seq<VouchRecord>,
    total_yield: int,
    i: int,
) -> bool {
    &&& staked(backing) > 0 ==> holds(total_yield * backing[i].stake)
    &&& holds(summed(e.take(i + 1)))
    &&& summed(e.take(i + 1)) <= total_yield
    &&& holds(backing[i].stake + e[i])
}

/// Whether the signature of the `i`-th co-borrower is the one granted in their turn,
/// after that of the borrower.
pub open spec fn co_signed(s: State, co_borrowers: Seq<Address>, i: int) -> bool {
    i + 1 < s.granted.len() && s.granted[i + 1] == co_borrowers[i]
}

/// Whether a payment comes from the borrower of an active loan, signed by them and
/// then by every co-borrower in order, while the contract runs and in time.
pub open spec fn is_heard(s: State, borrower: Address) -> bool {
    let loan = loan_of(s, borrower);
    &&& signed_by(s, borrower)
    &&& !s.paused
    &&& s.active_loan.contains_key(borrower) && s.loans.contains_key(s.active_loan[borrower])
    &&& loan.borrower == borrower
    &&& forall|i: int|
        0 <= i < loan.co_borrowers.len() ==> #[trigger] co_signed(s, loan.co_borrowers, i)
    &&& loan.status == LoanStatus::Active
    &&& s.timestamp <= loan.deadline
}

/// Whether a payment is more than nothing and no more than what is owed.
pub open spec fn is_in_range(loan: Loan, payment: i128) -> bool {
    holds(loan.amount + loan.total_yield) && holds(owed(loan)) && 0 < payment <= owed(loan)
}

/// A fee rate that was never set is zero.
pub open spec fn fee_rate(s: State) -> int {
    match s.protocol_fee_bps {
        Some(bps) => bps as int,
        None => 0,
    }
}

/// Whether the fee and what each voucher is due can be worked out.
pub open spec fn can_be_closed(s: State, borrower: Address, e: Seq<int>) -> bool {
    let loan = loan_of(s, borrower);
    let backing = behind(s, borrower, loan.token_address);
    &&& holds(loan.amount * fee_rate(s))
    &&& stakes_hold(backing)
    &&& forall|i: int|
        0 <= i < backing.len() ==> #[trigger] can_be_paid(e, backing, loan.total_yield as int, i)
}

/// A payment is taken exactly if it is heard and in range and, where it is the
/// last one, the loan can be closed.
pub proof fn payment_is_taken_where_it_can_be(
    s: State,
    borrower: Address,
    payment: i128,
    e: Seq<int>,
)
    requires
        are_shares(
            e,
            behind(s, borrower, loan_of(s, borrower).token_address),
            loan_of(s, borrower).total_yield as int,
        ),
    ensures
        outcome(collection_refusal(s, borrower, payment)) is Ok <==> is_heard(s, borrower)
            && is_in_range(loan_of(s, borrower), payment) && (payment == owed(loan_of(s, borrower))
            ==> can_be_closed(s, borrower, e)),
{
    let loan = loan_of(s, borrower);
    let backing = behind(s, borrower, loan.token_address);
    let y = loan.total_yield as int;
    lemma_behind(s, borrower, loan.token_address);
    lemma_co_signed(s, loan.co_borrowers);
    basis_points_are_ten_thousandths(loan.amount as int, fee_rate(s));
    if forall|i: int| 0 <= i < backing.len() ==> #[trigger] can_be_paid(e, backing, y, i) {
        lemma_all_paid(backing, e, y, backing.len() as int);
        assert(backing.take(backing.len() as int) =~= backing);
    } else {
        let i = lemma_first_unpaid(backing, e, y, backing.len() as int);
        lemma_unpaid(backing, e, y, i, backing.len() as int);
        assert(backing.take(backing.len() as int) =~= backing);
    }
}

/// A payment that is not heard is refused for the first thing that is wrong: the
/// borrower's signature, pause, no loan, somebody else's loan; then, once all
/// co-borrowers have signed, a loan that is not active, a deadline that has passed,
/// numbers out of range, and a payment of nothing or of too much.
pub proof fn wrong_payment_is_refused(s: State, borrower: Address, payment: i128)
    ensures
        ({
            let r = outcome(collection_refusal(s, borrower, payment));
            let loan = loan_of(s, borrower);
            let signed = signed_by(s, borrower);
            let found = s.active_loan.contains_key(borrower) && s.loans.contains_key(
                s.active_loan[borrower],
            );
            let named = signed && !s.paused && found && loan.borrower == borrower;
            let agreed = named && forall|i: int|
                0 <= i < loan.co_borrowers.len() ==> #[trigger] co_signed(s, loan.co_borrowers, i);
            &&& !signed ==> r == Err::<(), Stop>(Stop::Ask(Question::Auth(borrower)))
            &&& signed && s.paused ==> r == Err::<(), Stop>(
                Stop::Error(ContractError::ContractPaused),
            )
            &&& signed && !s.paused && !found ==> r == Err::<(), Stop>(
                Stop::Error(ContractError::NoActiveLoan),
            )
            &&& signed && !s.paused && found && loan.borrower != borrower ==> r == Err::<(), Stop>(
                Stop::Error(ContractError::UnauthorizedCaller),
            )
            &&& agreed && loan.status != LoanStatus::Active ==> r == Err::<(), Stop>(
                Stop::Error(ContractError::NoActiveLoan),
            )
            &&& agreed && loan.status == LoanStatus::Active && s.timestamp > loan.deadline ==> r
                == Err::<(), Stop>(Stop::Panic(ContractError::LoanPastDeadline))
            &&& is_heard(s, borrower) && !(holds(loan.amount + loan.total_yield) && holds(
                owed(loan),
            )) ==> r == Err::<(), Stop>(Stop::Overflow)
            &&& is_heard(s, borrower) && holds(loan.amount + loan.total_yield) && holds(owed(loan))
                && (payment <= 0 || payment > owed(loan)) ==> r == Err::<(), Stop>(
                Stop::Panic(ContractError::InvalidAmount),
            )
        }),
{
    lemma_co_signed(s, loan_of(s, borrower).co_borrowers);
}

/// The first co-borrower whose signature is not the next one granted is asked for
/// it.
pub proof fn next_co_borrower_is_asked(s: State, borrower: Address, payment: i128, i: int)
    requires
        signed_by(s, borrower),
        !s.paused,
        s.active_loan.contains_key(borrower),
        s.loans.contains_key(s.active_loan[borrower]),
        loan_of(s, borrower).borrower == borrower,
        0 <= i < loan_of(s, borrower).co_borrowers.len(),
        !co_signed(s, loan_of(s, borrower).co_borrowers, i),
        forall|j: int|
            0 <= j < i ==> #[trigger] co_signed(s, loan_of(s, borrower).co_borrowers, j),
    ensures
        outcome(collection_refusal(s, borrower, payment)) == Err::<(), Stop>(
            Stop::Ask(Question::Auth(loan_of(s, borrower).co_borrowers[i])),
        ),
{
    lemma_first_unsigned(s, loan_of(s, borrower).co_borrowers, i);
}

/// A last payment whose fee or stakes cannot be worked out overflows. Otherwise
/// the first vouch that cannot be paid decides: with it more than the yield would
/// be given away, or a number leaves its range.
pub proof fn loan_that_cannot_be_closed_is_refused(
    s: State,
    borrower: Address,
    payment: i128,
    e: Seq<int>,
    i: int,
)
    requires
        is_heard(s, borrower),
        is_in_range(loan_of(s, borrower), payment),
        payment == owed(loan_of(s, borrower)),
        are_shares(
            e,
            behind(s, borrower, loan_of(s, borrower).token_address),
            loan_of(s, borrower).total_yield as int,
        ),
    ensures
        ({
            let r = outcome(collection_refusal(s, borrower, payment));
            let loan = loan_of(s, borrower);
            let y = loan.total_yield as int;
            let backing = behind(s, borrower, loan.token_address);
            let given = summed(e.take(i + 1));
            let ready = holds(loan.amount * fee_rate(s)) && stakes_hold(backing);
            let first = 0 <= i < backing.len() && !can_be_paid(e, backing, y, i) && forall|j: int|
                0 <= j < i ==> #[trigger] can_be_paid(e, backing, y, j);
            let short = (staked(backing) > 0 ==> holds(y * backing[i].stake)) && holds(given)
                && given > y;
            &&& !ready ==> r == Err::<(), Stop>(Stop::Overflow)
            &&& ready && first && short ==> r == Err::<(), Stop>(
                Stop::Panic(ContractError::InsufficientFunds),
            )
            &&& ready && first && !short ==> r == Err::<(), Stop>(Stop::Overflow)
        }),
{
    let loan = loan_of(s, borrower);
    let y = loan.total_yield as int;
    let backing = behind(s, borrower, loan.token_address);
    lemma_behind(s, borrower, loan.token_address);
    lemma_co_signed(s, loan.co_borrowers);
    basis_points_are_ten_thousandths(loan.amount as int, fee_rate(s));
    if 0 <= i < backing.len() && !can_be_paid(e, backing, y, i) && forall|j: int|
        0 <= j < i ==> #[trigger] can_be_paid(e, backing, y, j) {
        lemma_unpaid(backing, e, y, i, backing.len() as int);
        assert(backing.take(backing.len() as int) =~= backing);
    }
}

/// The first part of a repayment moves the payment, in the loan's token, from the
/// borrower to the contract. If something stays owed, that is all. With the last
/// payment the contract pays out, all in the loan's token: first, where it comes
/// to something and there is a treasury, the fee on the loan's amount to the
/// treasury; then to each voucher, in order, the stake and what it has earned.
/// Nothing else changes.
pub proof fn payment_is_moved(
    s: State,
    borrower: Address,
    payment: i128,
    fee: int,
    e: Seq<int>,
)
    requires
        collection_refusal(s, borrower, payment) is None,
        rounds_to(loan_of(s, borrower).amount * fee_rate(s), 10_000, fee),
        are_shares(
            e,
            behind(s, borrower, loan_of(s, borrower).token_address),
            loan_of(s, borrower).total_yield as int,
        ),
    ensures
        ({
            let t = after_collection(s, borrower, payment);
            let loan = loan_of(s, borrower);
            let backing = behind(s, borrower, loan.token_address);
            let n = s.effects.len() as int;
            let m: int = if fee > 0 && s.fee_treasury is Some {
                1
            } else {
                0
            };
            &&& t == State { effects: t.effects, ..s }
            &&& t.effects.take(n) == s.effects
            &&& t.effects[n] == Effect::Transfer {
                token: loan.token_address,
                from: borrower,
                to: s.contract,
                amount: payment,
            }
            &&& payment != owed(loan) ==> t.effects.len() == n + 1
            &&& payment == owed(loan) ==> {
                &&& t.effects.len() == n + 1 + m + backing.len()
                &&& m == 1 ==> (t.effects[n + 1] matches Effect::Transfer {
                    token,
                    from,
                    to,
                    amount,
                } && token == loan.token_address && from == s.contract && Some(to) == s.fee_treasury
                    && amount == fee)
                &&& forall|i: int|
                    0 <= i < backing.len() ==> (#[trigger] t.effects[n + 1 + m
                        + i] matches Effect::Transfer { token, from, to, amount } && token
                        == loan.token_address && from == s.contract && to == backing[i].voucher
                        && amount == backing[i].stake + e[i])
            }
        }),
{
    let t = after_collection(s, borrower, payment);
    let loan = loan_of(s, borrower);
    let y = loan.total_yield as int;
    let backing = behind(s, borrower, loan.token_address);
    let n = s.effects.len() as int;
    let m: int = if fee > 0 && s.fee_treasury is Some {
        1
    } else {
        0
    };
    lemma_behind(s, borrower, loan.token_address);
    assert(t.effects.take(n) =~= s.effects);
    if payment == owed(loan) {
        basis_points_are_ten_thousandths(loan.amount as int, fee_rate(s));
        division_rounds_toward_zero(loan.amount * fee_rate(s), 10_000, fee);
        division_rounds_toward_zero(
            loan.amount * fee_rate(s),
            10_000,
            protocol_fee(s, loan).unwrap() as int,
        );
        payment_is_taken_where_it_can_be(s, borrower, payment, e);
        assert forall|i: int| 0 <= i < backing.len() implies (#[trigger] t.effects[n + 1 + m
            + i] matches Effect::Transfer { token, from, to, amount } && token
            == loan.token_address && from == s.contract && to == backing[i].voucher && amount
            == backing[i].stake + e[i]) by {
            lemma_share(backing, e, y, i);
            assert(can_be_paid(e, backing, y, i));
        }
    }
}

/// Whatever a repayment moves is in the loan's token.
pub proof fn repayment_moves_the_loans_token_only(
    s: State,
    borrower: Address,
    payment: i128,
    k: int,
)
    requires
        settlement_refusal(s, borrower, payment) is None,
        s.effects.len() <= k < after_repayment(s, borrower, payment).effects.len(),
    ensures
        after_repayment(s, borrower, payment).effects[k] matches Effect::Transfer { token, .. }
            ==> token == loan_of(s, borrower).token_address,
{
}

/// The rate of the referral bonus: the one that was set, or the fixed one.
pub open spec fn bonus_rate(s: State) -> int {
    match s.referral_bonus_bps {
        Some(bps) => bps as int,
        None => s.terms.default_referral_bonus_bps as int,
    }
}

/// A payment that is not taken is not booked, for the same reason; one that leaves
/// something owed is booked whenever it is taken. For the last payment, a referral
/// bonus that cannot be worked out overflows, a bonus above zero makes the
/// contract's balance be asked for, and the count of repayments has to have room.
pub proof fn booking_is_answered(s: State, borrower: Address, payment: i128, bonus: int)
    requires
        rounds_to(loan_of(s, borrower).amount * bonus_rate(s), 10_000, bonus),
    ensures
        ({
            let taken = outcome(collection_refusal(s, borrower, payment));
            let r = outcome(settlement_refusal(s, borrower, payment));
            let loan = loan_of(s, borrower);
            let last = taken is Ok && payment == owed(loan);
            let referred = s.referred_by.contains_key(borrower);
            let fits = holds(loan.amount * bonus_rate(s));
            let open = bonus > 0 && s.contract_balance is None;
            let full = counted(s.repayment_count, borrower) == u32::MAX;
            &&& taken is Err ==> r == taken
            &&& taken is Ok && !last ==> r is Ok
            &&& last && referred && !fits ==> r == Err::<(), Stop>(Stop::Overflow)
            &&& last && referred && fits && open ==> r == Err::<(), Stop>(
                Stop::Ask(Question::TokenBalance(loan.token_address)),
            )
            &&& last && !(referred && !fits) && !(referred && open) && full ==> r == Err::<
                (),
                Stop,
            >(Stop::Overflow)
            &&& last && !(referred && !fits) && !(referred && open) && !full ==> r is Ok
        }),
{
    let loan = loan_of(s, borrower);
    basis_points_are_ten_thousandths(loan.amount as int, bonus_rate(s));
    if holds(loan.amount * bonus_rate(s)) {
        division_rounds_toward_zero(loan.amount * bonus_rate(s), 10_000, bonus);
        division_rounds_toward_zero(
            loan.amount * bonus_rate(s),
            10_000,
            referral_bonus(s, loan).unwrap() as int,
        );
    }
}

/// Booking a payment that leaves something owed raises what was repaid of the loan
/// by the payment, and changes nothing else.
pub proof fn part_payment_is_booked(s: State, borrower: Address, payment: i128)
    requires
        settlement_refusal(s, borrower, payment) is None,
        payment != owed(loan_of(s, borrower)),
    ensures
        ({
            let t = after_settlement(s, borrower, payment);
            let loan = loan_of(s, borrower);
            let now = t.loans[loan.id];
            &&& t == State { loans: s.loans.insert(loan.id, now), ..s }
            &&& now == Loan { amount_repaid: now.amount_repaid, ..loan }
            &&& now.amount_repaid == loan.amount_repaid + payment
            &&& owed(now) == owed(loan) - payment
        }),
{
}

/// Booking the last payment marks the loan as repaid in full, as of now. The
/// borrower has no active loan and no vouches any more, and one more repayment is
/// counted. A referrer is paid the bonus on the loan's amount, in its token, if
/// that comes to something and the contract has as much, and this is announced;
/// the reputation contract, where there is one, mints for the borrower; and the
/// loan's amount is announced as repaid. Nothing else changes.
pub proof fn last_payment_is_booked(s: State, borrower: Address, payment: i128, bonus: int)
    requires
        settlement_refusal(s, borrower, payment) is None,
        payment == owed(loan_of(s, borrower)),
        rounds_to(loan_of(s, borrower).amount * bonus_rate(s), 10_000, bonus),
    ensures
        ({
            let t = after_settlement(s, borrower, payment);
            let loan = loan_of(s, borrower);
            let closed = t.loans[loan.id];
            let referrer = s.referred_by[borrower];
            let affordable = s.contract_balance matches Some(balance) && bonus <= balance;
            let rewarded = s.referred_by.contains_key(borrower) && bonus > 0 && affordable;
            &&& t.loans == s.loans.insert(loan.id, closed)
            &&& closed == Loan {
                amount_repaid: closed.amount_repaid,
                status: LoanStatus::Repaid,
                repayment_timestamp: Some(s.timestamp),
                ..loan
            }
            &&& closed.amount_repaid == loan.amount + loan.total_yield
            &&& t.active_loan == s.active_loan.remove(borrower)
            &&& t.vouches == s.vouches.remove(borrower)
            &&& t.repayment_count == s.repayment_count.insert(borrower, t.repayment_count[borrower])
            &&& t.repayment_count[borrower] == counted(s.repayment_count, borrower) + 1
            &&& rewarded ==> holds(bonus)
            &&& t.effects == s.effects + (if rewarded {
                seq![
                    Effect::Transfer {
                        token: loan.token_address,
                        from: s.contract,
                        to: referrer,
                        amount: bonus as i128,
                    },
                    Effect::Publish(
                        Event::ReferralBonus { referrer, borrower, bonus: bonus as i128 },
                    ),
                ]
            } else {
                Seq::empty()
            }) + (match s.reputation_nft {
                Some(nft) => seq![Effect::Mint { nft, to: borrower }],
                None => Seq::empty(),
            }) + seq![Effect::Publish(Event::LoanRepaid { borrower, amount: loan.amount })]
            &&& t == State {
                loans: t.loans,
                active_loan: t.active_loan,
                vouches: t.vouches,
                repayment_count: t.repayment_count,
                effects: t.effects,
                ..s
            }
        }),
{
    let t = after_settlement(s, borrower, payment);
    let loan = loan_of(s, borrower);
    basis_points_are_ten_thousandths(loan.amount as int, bonus_rate(s));
    if s.referred_by.contains_key(borrower) {
        division_rounds_toward_zero(loan.amount * bonus_rate(s), 10_000, bonus);
        division_rounds_toward_zero(
            loan.amount * bonus_rate(s),
            10_000,
            referral_bonus(s, loan).unwrap() as int,
        );
    }
}

/// A repayment in one go carries out what its first part does and then what its
/// second part does, and leaves the entries as the second part does.
pub proof fn repayment_is_taken_and_booked(s: State, borrower: Address, payment: i128)
    requires
        settlement_refusal(s, borrower, payment) is None,
    ensures
        ({
            let t = after_repayment(s, borrower, payment);
            let taken = after_collection(s, borrower, payment);
            let booked = after_settlement(s, borrower, payment);
            &&& t.effects == taken.effects + booked.effects.skip(s.effects.len() as int)
            &&& t == State { effects: t.effects, ..booked }
        }),
{
    let t = after_repayment(s, borrower, payment);
    let taken = after_collection(s, borrower, payment);
    let booked = after_settlement(s, borrower, payment);
    assert(t.effects =~= taken.effects + booked.effects.skip(s.effects.len() as int));
}

proof fn lemma_co_signed(s: State, co: Seq<Address>)
    ensures
        co_signing_refusal(s, co) is None <==> forall|i: int|
            0 <= i < co.len() ==> #[trigger] co_signed(s, co, i),
    decreases co.len(),
{
    if co.len() > 0 {
        let rest = co.drop_last();
        lemma_co_signed(s, rest);
        assert(forall|i: int|
            0 <= i < rest.len() ==> #[trigger] co_signed(s, rest, i) == co_signed(s, co, i));
        assert(co.last() == co[co.len() - 1]);
        if co_signing_refusal(s, co) is None {
            assert forall|i: int| 0 <= i < co.len() implies #[trigger] co_signed(s, co, i) by {
                if i < rest.len() {
                    assert(co_signed(s, rest, i));
                }
            }
        } else if forall|i: int| 0 <= i < co.len() ==> #[trigger] co_signed(s, co, i) {
            assert(co_signed(s, co, co.len() - 1));
        }
    }
}

proof fn lemma_first_unsigned(s: State, co: Seq<Address>, i: int)
    requires
        0 <= i < co.len(),
        !co_signed(s, co, i),
        forall|j: int| 0 <= j < i ==> #[trigger] co_signed(s, co, j),
    ensures
        co_signing_refusal(s, co) == Some(Stop::Ask(Question::Auth(co[i]))),
    decreases co.len(),
{
    let rest = co.drop_last();
    assert(forall|j: int|
        0 <= j < rest.len() ==> #[trigger] co_signed(s, rest, j) == co_signed(s, co, j));
    if i == co.len() - 1 {
        lemma_co_signed(s, rest);
    } else {
        lemma_first_unsigned(s, rest, i);
    }
}

proof fn lemma_share(backing: Seq<VouchRecord>, e: Seq<int>, y: int, i: int)
    requires
        are_shares(e, backing, y),
        0 <= i < backing.len(),
    ensures
        e[i] == voucher_yield(y, backing[i].stake as int, staked(backing)),
{
    let whole = staked(backing);
    let product = y * backing[i].stake;
    if whole > 0 {
        assert(rounds_to(y * backing[i].stake, whole, e[i]));
        division_rounds_toward_zero(product, whole, e[i]);
    }
}

proof fn lemma_given(backing: Seq<VouchRecord>, e: Seq<int>, y: int, k: int)
    requires
        are_shares(e, backing, y),
        0 <= k <= backing.len(),
    ensures
        distributed(backing.take(k), y, staked(backing)) == summed(e.take(k)),
    decreases k,
{
    reveal(Seq::fold_left);
    if k > 0 {
        lemma_given(backing, e, y, k - 1);
        lemma_share(backing, e, y, k - 1);
        assert(backing.take(k).drop_last() =~= backing.take(k - 1));
        assert(e.take(k).drop_last() =~= e.take(k - 1));
        assert(e.take(k).last() == e[k - 1]);
    }
}

proof fn lemma_all_paid(backing: Seq<VouchRecord>, e: Seq<int>, y: int, k: int)
    requires
        are_shares(e, backing, y),
        0 <= k <= backing.len(),
        forall|i: int| 0 <= i < k ==> #[trigger] can_be_paid(e, backing, y, i),
    ensures
        payout_refusal(backing.take(k), y, staked(backing)) is None,
    decreases k,
{
    if k > 0 {
        lemma_all_paid(backing, e, y, k - 1);
        lemma_share(backing, e, y, k - 1);
        lemma_given(backing, e, y, k);
        assert(can_be_paid(e, backing, y, k - 1));
        assert(backing.take(k).drop_last() =~= backing.take(k - 1));
        assert(backing.take(k).last() == backing[k - 1]);
    }
}

proof fn lemma_unpaid(backing: Seq<VouchRecord>, e: Seq<int>, y: int, i: int, k: int)
    requires
        are_shares(e, backing, y),
        0 <= i < k <= backing.len(),
        !can_be_paid(e, backing, y, i),
        forall|j: int| 0 <= j < i ==> #[trigger] can_be_paid(e, backing, y, j),
    ensures
        payout_refusal(backing.take(k), y, staked(backing)) == Some(
            if (staked(backing) > 0 ==> holds(y * backing[i].stake)) && holds(
                summed(e.take(i + 1)),
            ) && summed(e.take(i + 1)) > y {
                Stop::Panic(ContractError::InsufficientFunds)
            } else {
                Stop::Overflow
            },
        ),
    decreases k,
{
    assert(backing.take(k).drop_last() =~= backing.take(k - 1));
    assert(backing.take(k).last() == backing[k - 1]);
    if i == k - 1 {
        lemma_all_paid(backing, e, y, k - 1);
        lemma_share(backing, e, y, i);
        lemma_given(backing, e, y, k);
    } else {
        lemma_unpaid(backing, e, y, i, k - 1);
    }
}

proof fn lemma_first_unpaid(backing: Seq<VouchRecord>, e: Seq<int>, y: int, k: int) -> (i: int)
    requires
        0 <= k <= backing.len(),
        exists|i: int| 0 <= i < k && !#[trigger] can_be_paid(e, backing, y, i),
    ensures
        0 <= i < k,
        !can_be_paid(e, backing, y, i),
        forall|j: int| 0 <= j < i ==> #[trigger] can_be_paid(e, backing, y, j),
    decreases k,
{
    if exists|i: int| 0 <= i < k - 1 && !#[trigger] can_be_paid(e, backing, y, i) {
        lemma_first_unpaid(backing, e, y, k - 1)
    } else {
        k - 1
    }
}

} // verus!
