//! Plain values that the rules read and write.

use vstd::prelude::*;

verus! {

/// The number under which the host side keeps an account or a contract. Two
/// addresses are the same exactly if their numbers are.
pub type Address = u64;

/// One basis point is this fraction of the whole.
pub const BPS_DENOMINATOR: i128 = 10_000;

/// How long before its deadline a loan starts to be reminded of, in seconds.
pub const REMINDER_WINDOW: u64 = 604_800;

/// Why a call is refused.
#[derive(Clone, Copy, PartialEq, Eq, Structural, Debug)]
pub enum ContractError {
    /// The contract is paused.
    ContractPaused,
    /// The caller may not do this.
    UnauthorizedCaller,
    /// The borrower already has an active loan.
    ActiveLoanExists,
    /// The borrower has no active loan, or what was asked for does not exist.
    NoActiveLoan,
    /// The borrower is blacklisted.
    Blacklisted,
    /// The token is not one that the contract deals in.
    InvalidToken,
    /// The loan is below the configured minimum.
    LoanBelowMinAmount,
    /// The loan is above a maximum.
    LoanExceedsMaxAmount,
    /// The amount is out of its range.
    InvalidAmount,
    /// The vouched stakes do not fit the amount type.
    StakeOverflow,
    /// There is too little stake or too little money.
    InsufficientFunds,
    /// Too few vouchers.
    InsufficientVouchers,
    /// A vouch is younger than the minimum age.
    VouchTooRecent,
    /// The loan's deadline has passed.
    LoanPastDeadline,
    /// The loan is not in a state that allows this.
    InvalidStateTransition,
    /// Insurance was already claimed for the loan.
    InsuranceClaimAlreadyMade,
    /// The insurance pool is empty.
    InsurancePoolEmpty,
}

/// What the host has to be asked before a rule can go on.
#[derive(Clone, Copy, PartialEq, Eq, Structural, Debug)]
pub enum Question {
    /// Demand that the address authorizes the call.
    Auth(Address),
    /// The contract's own balance of the token.
    TokenBalance(Address),
    /// The balance that the reputation contract (first) holds for the owner (second).
    NftBalance(Address, Address),
}

/// Why a rule did not complete. The ledger is then as it was.
#[derive(Clone, Copy, PartialEq, Eq, Structural, Debug)]
pub enum Stop {
    /// The call returns this error.
    Error(ContractError),
    /// The call aborts with this error.
    Panic(ContractError),
    /// The call aborts because a number leaves the range of its type.
    Overflow,
    /// The host has to answer this; then the rule is run again.
    Ask(Question),
}

/// What a rule that refuses for the given reason, or not at all, returns.
pub open spec fn outcome(refusal: Option<Stop>) -> Result<(), Stop> {
    match refusal {
        Some(stop) => Err(stop),
        None => Ok(()),
    }
}

/// The first of two reasons, where there is one.
pub open spec fn first(a: Option<Stop>, b: Option<Stop>) -> Option<Stop> {
    match a {
        Some(stop) => Some(stop),
        None => b,
    }
}

/// Where a loan stands.
#[derive(Clone, Copy, PartialEq, Eq, Structural, Debug)]
pub enum LoanStatus {
    /// There is no loan.
    NoLoan,
    /// Disbursed and not yet paid back.
    Active,
    /// Paid back in full.
    Repaid,
    /// Written off.
    Defaulted,
}

/// One voucher's stake behind a borrower.
#[derive(Clone, Copy, PartialEq, Eq, Structural, Debug)]
pub struct VouchRecord {
    pub voucher: Address,
    pub stake: i128,
    pub vouch_timestamp: u64,
    pub token: Address,
}

/// Limits that are fixed for the life of the contract.
#[derive(Clone, Copy, PartialEq, Eq, Structural, Debug)]
pub struct Terms {
    /// The age, in seconds, that a vouch needs before it can back a loan.
    pub min_vouch_age: u64,
    /// The referral bonus where none is configured, in basis points.
    pub default_referral_bonus_bps: u32,
}

/// What the contract announces.
#[derive(Clone, Copy, PartialEq, Eq, Structural, Debug)]
pub enum Event {
    ReferralSet { borrower: Address, referrer: Address },
    ReferralBonus { referrer: Address, borrower: Address, bonus: i128 },
    LoanDisbursed { borrower: Address, amount: i128, deadline: u64, token: Address },
    LoanRepaid { borrower: Address, amount: i128 },
    RepaymentReminder { borrower: Address, deadline: u64 },
    ReputationMinted { borrower: Address },
    InsuranceContributed { contributor: Address, amount: i128 },
    InsuranceClaimed { voucher: Address, loan_id: u64, payout: i128 },
}

/// What the host has to carry out, in the order in which it was recorded.
#[derive(Clone, Copy, PartialEq, Eq, Structural, Debug)]
pub enum Effect {
    /// Move an amount of a token.
    Transfer { token: Address, from: Address, to: Address, amount: i128 },
    /// Have the reputation contract mint for an address.
    Mint { nft: Address, to: Address },
    /// Publish an event.
    Publish(Event),
}

impl Event {
    /// The pair of topics under which the event is published.
    pub open spec fn topics_spec(self) -> (Seq<char>, Seq<char>) {
        match self {
            Event::ReferralSet { .. } => ("referral"@, "set"@),
            Event::ReferralBonus { .. } => ("referral"@, "bonus"@),
            Event::LoanDisbursed { .. } => ("loan"@, "disbursed"@),
            Event::LoanRepaid { .. } => ("loan"@, "repaid"@),
            Event::RepaymentReminder { .. } => ("repay"@, "reminder"@),
            Event::ReputationMinted { .. } => ("rep"@, "minted"@),
            Event::InsuranceContributed { .. } => ("ins"@, "contrib"@),
            Event::InsuranceClaimed { .. } => ("ins"@, "claim"@),
        }
    }

    /// The pair of topics under which the event is published.
    pub fn topics(&self) -> (r: (&'static str, &'static str))
        ensures
            (r.0@, r.1@) == self.topics_spec(),
    {
        match self {
            Event::ReferralSet { .. } => ("referral", "set"),
            Event::ReferralBonus { .. } => ("referral", "bonus"),
            Event::LoanDisbursed { .. } => ("loan", "disbursed"),
            Event::LoanRepaid { .. } => ("loan", "repaid"),
            Event::RepaymentReminder { .. } => ("repay", "reminder"),
            Event::ReputationMinted { .. } => ("rep", "minted"),
            Event::InsuranceContributed { .. } => ("ins", "contrib"),
            Event::InsuranceClaimed { .. } => ("ins", "claim"),
        }
    }
}

} // verus!
