//! What reminders and reputation tokens do.

use crate::ledger::State;
use crate::loan::{after_mint, mint_refusal, reminders};
use crate::types::{
    outcome, Address, ContractError, Effect, Event, LoanStatus, Question, Stop,
};
use vstd::prelude::*;

verus! {

/// Whether a loan is active and due within the next seven days.
pub open spec fn due_within_a_week(s: State, id: u64) -> bool {
    s.loans.contains_key(id) && s.loans[id].status == LoanStatus::Active && s.timestamp
        < s.loans[id].deadline <= s.timestamp + 7 * 24 * 60 * 60
}

/// The numbers from one to `last`.
pub open spec fn numbers_to(last: nat) -> Seq<u64> {
    Seq::new(last, |i: int| (i + 1) as u64)
}

/// Sending reminders publishes one for each active loan, of all that were ever
/// numbered, whose deadline is ahead but no more than seven days away: in the
/// order of their numbers, with the loan's borrower and deadline. Nothing else is
/// published, and nothing else changes.
pub proof fn each_due_loan_is_reminded_once(s: State)
    ensures
        ({
            let t = s.with_effects(reminders(s, s.last_loan_id() as nat));
            let last: nat = match s.loan_counter {
                Some(last) => last as nat,
                None => 0,
            };
            let due = numbers_to(last).filter(|id: u64| due_within_a_week(s, id));
            &&& t.effects == s.effects + due.map_values(
                |id: u64|
                    Effect::Publish(
                        Event::RepaymentReminder {
                            borrower: s.loans[id].borrower,
                            deadline: s.loans[id].deadline,
                        },
                    ),
            )
            &&& t == State { effects: t.effects, ..s }
        }),
{
    lemma_reminders(s, s.last_loan_id() as nat);
}

proof fn lemma_reminders(s: State, last: nat)
    requires
        last <= u64::MAX,
    ensures
        reminders(s, last) == numbers_to(last).filter(
            |id: u64| due_within_a_week(s, id),
        ).map_values(
            |id: u64|
                Effect::Publish(
                    Event::RepaymentReminder {
                        borrower: s.loans[id].borrower,
                        deadline: s.loans[id].deadline,
                    },
                ),
        ),
    decreases last,
{
    let due = |id: u64| due_within_a_week(s, id);
    let text = |id: u64|
        Effect::Publish(
            Event::RepaymentReminder {
                borrower: s.loans[id].borrower,
                deadline: s.loans[id].deadline,
            },
        );
    let all = numbers_to(last);
    reveal(Seq::filter);
    if last > 0 {
        let before = (last - 1) as nat;
        lemma_reminders(s, before);
        assert(all.drop_last() =~= numbers_to(before));
        assert(all.last() == last as u64);
        assert(reminders(s, last) =~= all.filter(due).map_values(text));
    } else {
        assert(reminders(s, last) =~= all.filter(due).map_values(text));
    }
}

/// Whatever is added by sending reminders is a reminder of some loan that is
/// active, not overdue, and due in at most seven days. So a loan that was repaid
/// or written off is never the reason for one.
pub proof fn only_active_loans_are_reminded(s: State, k: int) -> (id: u64)
    requires
        s.effects.len() <= k < s.with_effects(
            reminders(s, s.last_loan_id() as nat),
        ).effects.len(),
    ensures
        s.loans.contains_key(id),
        s.loan_counter matches Some(last) && 1 <= id <= last,
        s.loans[id].status == LoanStatus::Active,
        s.timestamp < s.loans[id].deadline,
        s.loans[id].deadline - s.timestamp <= 604_800,
        s.with_effects(reminders(s, s.last_loan_id() as nat)).effects[k] == Effect::Publish(
            Event::RepaymentReminder {
                borrower: s.loans[id].borrower,
                deadline: s.loans[id].deadline,
            },
        ),
{
    let last = s.last_loan_id() as nat;
    let due = |id: u64| due_within_a_week(s, id);
    let n = k - s.effects.len();
    lemma_reminders(s, last);
    let ids = numbers_to(last).filter(due);
    numbers_to(last).lemma_filter_pred(due, n);
    assert(ids.contains(ids[n]));
    numbers_to(last).lemma_filter_contains_rev(due, ids[n]);
    ids[n]
}

/// Where no loan is both active and due within seven days, nothing is published.
pub proof fn without_due_loans_nothing_is_published(s: State)
    requires
        forall|id: u64| #[trigger]
            s.loans.contains_key(id) ==> s.loans[id].status != LoanStatus::Active
                || s.loans[id].deadline <= s.timestamp || s.loans[id].deadline - s.timestamp
                > 604_800,
    ensures
        s.with_effects(reminders(s, s.last_loan_id() as nat)) == s,
{
    let t = s.with_effects(reminders(s, s.last_loan_id() as nat));
    if reminders(s, s.last_loan_id() as nat).len() > 0 {
        let id = only_active_loans_are_reminded(s, s.effects.len() as int);
        assert(s.loans.contains_key(id));
    }
    assert(t.effects =~= s.effects);
    assert(t =~= s);
}

/// A reputation token is refused without the borrower's signature, to a borrower
/// who has not repaid a loan, and where there is no reputation contract; in any
/// other case it is minted, even while the contract is paused.
pub proof fn reputation_is_answered(s: State, borrower: Address)
    ensures
        ({
            let r = outcome(mint_refusal(s, borrower));
            let signed = s.granted.len() > 0 && s.granted[0] == borrower;
            let repaid = s.repayment_count.contains_key(borrower) && s.repayment_count[borrower]
                > 0;
            &&& r is Ok <==> signed && repaid && s.reputation_nft is Some
            &&& !signed ==> r == Err::<(), Stop>(Stop::Ask(Question::Auth(borrower)))
            &&& signed && !(repaid && s.reputation_nft is Some) ==> r == Err::<(), Stop>(
                Stop::Error(ContractError::NoActiveLoan),
            )
        }),
{
}

/// The reputation token is minted by the configured contract, once, for the
/// borrower, and announced; nothing else changes.
pub proof fn reputation_is_minted_for_the_borrower(s: State, borrower: Address, nft: Address)
    requires
        s.reputation_nft == Some(nft),
    ensures
        after_mint(s, borrower) == (State {
            effects: s.effects + seq![
                Effect::Mint { nft, to: borrower },
                Effect::Publish(Event::ReputationMinted { borrower }),
            ],
            ..s
        }),
{
}

} // verus!
