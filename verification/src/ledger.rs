//! What one contract call sees, and the mathematical state that it stands for.

use crate::host::{AddressList, VouchList};
use crate::types::{Address, Effect, LoanStatus, Terms, VouchRecord};
use std::collections::BTreeMap;
use vstd::prelude::*;

verus! {

/// A loan.
pub struct LoanRecord {
    pub id: u64,
    pub borrower: Address,
    pub co_borrowers: AddressList,
    pub amount: i128,
    pub amount_repaid: i128,
    /// What has to be paid back beyond `amount`.
    pub total_yield: i128,
    pub status: LoanStatus,
    pub created_at: u64,
    pub disbursement_timestamp: u64,
    pub repayment_timestamp: Option<u64>,
    pub deadline: u64,
    pub loan_purpose: soroban_sdk::String,
    pub token_address: Address,
}

/// What the administrators have configured.
pub struct Config {
    /// The contract's main token.
    pub token: Address,
    /// Further tokens that loans may be made in.
    pub allowed_tokens: AddressList,
    /// The yield before credit score and defaults count, in basis points.
    pub yield_bps: i128,
    pub min_loan_amount: i128,
    /// The largest loan, in percent of the stake behind it.
    pub max_loan_to_stake_ratio: u32,
    /// Seconds from disbursement to deadline.
    pub loan_duration: u64,
}

/// What one contract call sees: the contract's entries, the time, what the host
/// has answered so far, and what it has been told to do.
///
/// An entry that was never written is `None`, or absent from its map.
pub struct Ledger {
    /// The host, in which new lists are made.
    pub env: soroban_sdk::Env,
    /// The contract's own address.
    pub contract: Address,
    /// The time of the call, in seconds.
    pub timestamp: u64,
    pub terms: Terms,
    pub config: Config,
    pub paused: bool,
    pub reputation_nft: Option<Address>,
    pub fee_treasury: Option<Address>,
    pub max_loan_amount: Option<i128>,
    pub min_vouchers: Option<u32>,
    pub protocol_fee_bps: Option<u32>,
    pub referral_bonus_bps: Option<u32>,
    /// The id of the last loan made.
    pub loan_counter: Option<u64>,
    pub insurance_pool: Option<i128>,
    /// Loans, by id.
    pub loans: BTreeMap<u64, LoanRecord>,
    /// The id of each borrower's active loan.
    pub active_loan: BTreeMap<Address, u64>,
    /// The id of each borrower's latest loan.
    pub latest_loan: BTreeMap<Address, u64>,
    pub loan_count: BTreeMap<Address, u32>,
    pub repayment_count: BTreeMap<Address, u32>,
    pub default_count: BTreeMap<Address, u32>,
    pub blacklisted: BTreeMap<Address, bool>,
    /// Who referred each borrower.
    pub referred_by: BTreeMap<Address, Address>,
    /// The vouches behind each borrower.
    pub vouches: BTreeMap<Address, VouchList>,
    /// The borrowers whom each voucher has ever vouched for.
    pub voucher_history: BTreeMap<Address, AddressList>,
    /// Who vouched for each loan, by the loan's id: the vouchers whose stakes, in
    /// the loan's token, backed it when it was disbursed.
    pub loan_vouchers: BTreeMap<u64, AddressList>,
    /// Who claimed insurance for each loan.
    pub insurance_claim: BTreeMap<u64, Address>,
    /// The authorizations that the host has granted to this call, in the order
    /// in which they were demanded.
    pub granted: Vec<Address>,
    /// The host's answer to `Question::TokenBalance`.
    pub contract_balance: Option<i128>,
    /// The host's answer to `Question::NftBalance`.
    pub nft_balance: Option<i128>,
    /// What the host has to carry out.
    pub effects: Vec<Effect>,
}

/// A loan as a mathematical value.
#[verifier::ext_equal]
pub struct Loan {
    pub id: u64,
    pub borrower: Address,
    pub co_borrowers: Seq<Address>,
    pub amount: i128,
    pub amount_repaid: i128,
    pub total_yield: i128,
    pub status: LoanStatus,
    pub created_at: u64,
    pub disbursement_timestamp: u64,
    pub repayment_timestamp: Option<u64>,
    pub deadline: u64,
    pub loan_purpose: soroban_sdk::String,
    pub token_address: Address,
}

/// The configuration as a mathematical value.
#[verifier::ext_equal]
pub struct Settings {
    pub token: Address,
    pub allowed_tokens: Seq<Address>,
    pub yield_bps: i128,
    pub min_loan_amount: i128,
    pub max_loan_to_stake_ratio: u32,
    pub loan_duration: u64,
}

/// What a [`Ledger`] stands for.
#[verifier::ext_equal]
pub struct State {
    pub env: soroban_sdk::Env,
    pub contract: Address,
    pub timestamp: u64,
    pub terms: Terms,
    pub config: Settings,
    pub paused: bool,
    pub reputation_nft: Option<Address>,
    pub fee_treasury: Option<Address>,
    pub max_loan_amount: Option<i128>,
    pub min_vouchers: Option<u32>,
    pub protocol_fee_bps: Option<u32>,
    pub referral_bonus_bps: Option<u32>,
    pub loan_counter: Option<u64>,
    pub insurance_pool: Option<i128>,
    pub loans: Map<u64, Loan>,
    pub active_loan: Map<Address, u64>,
    pub latest_loan: Map<Address, u64>,
    pub loan_count: Map<Address, u32>,
    pub repayment_count: Map<Address, u32>,
    pub default_count: Map<Address, u32>,
    pub blacklisted: Map<Address, bool>,
    pub referred_by: Map<Address, Address>,
    pub vouches: Map<Address, Seq<VouchRecord>>,
    pub voucher_history: Map<Address, Seq<Address>>,
    pub loan_vouchers: Map<u64, Seq<Address>>,
    pub insurance_claim: Map<u64, Address>,
    pub granted: Seq<Address>,
    pub contract_balance: Option<i128>,
    pub nft_balance: Option<i128>,
    pub effects: Seq<Effect>,
}

impl View for LoanRecord {
    type V = Loan;

    open spec fn view(&self) -> Loan {
        Loan {
            id: self.id,
            borrower: self.borrower,
            co_borrowers: self.co_borrowers@,
            amount: self.amount,
            amount_repaid: self.amount_repaid,
            total_yield: self.total_yield,
            status: self.status,
            created_at: self.created_at,
            disbursement_timestamp: self.disbursement_timestamp,
            repayment_timestamp: self.repayment_timestamp,
            deadline: self.deadline,
            loan_purpose: self.loan_purpose,
            token_address: self.token_address,
        }
    }
}

impl Clone for LoanRecord {
    fn clone(&self) -> (loan: LoanRecord)
        ensures
            loan@ == self@,
    {
        LoanRecord {
            id: self.id,
            borrower: self.borrower,
            co_borrowers: self.co_borrowers.clone(),
            amount: self.amount,
            amount_repaid: self.amount_repaid,
            total_yield: self.total_yield,
            status: self.status,
            created_at: self.created_at,
            disbursement_timestamp: self.disbursement_timestamp,
            repayment_timestamp: self.repayment_timestamp,
            deadline: self.deadline,
            loan_purpose: self.loan_purpose.clone(),
            token_address: self.token_address,
        }
    }
}

impl View for Config {
    type V = Settings;

    open spec fn view(&self) -> Settings {
        Settings {
            token: self.token,
            allowed_tokens: self.allowed_tokens@,
            yield_bps: self.yield_bps,
            min_loan_amount: self.min_loan_amount,
            max_loan_to_stake_ratio: self.max_loan_to_stake_ratio,
            loan_duration: self.loan_duration,
        }
    }
}

impl View for Ledger {
    type V = State;

    open spec fn view(&self) -> State {
        State {
            env: self.env,
            contract: self.contract,
            timestamp: self.timestamp,
            terms: self.terms,
            config: self.config@,
            paused: self.paused,
            reputation_nft: self.reputation_nft,
            fee_treasury: self.fee_treasury,
            max_loan_amount: self.max_loan_amount,
            min_vouchers: self.min_vouchers,
            protocol_fee_bps: self.protocol_fee_bps,
            referral_bonus_bps: self.referral_bonus_bps,
            loan_counter: self.loan_counter,
            insurance_pool: self.insurance_pool,
            loans: self.loans@.map_values(|l: LoanRecord| l@),
            active_loan: self.active_loan@,
            latest_loan: self.latest_loan@,
            loan_count: self.loan_count@,
            repayment_count: self.repayment_count@,
            default_count: self.default_count@,
            blacklisted: self.blacklisted@,
            referred_by: self.referred_by@,
            vouches: self.vouches@.map_values(|v: VouchList| v@),
            voucher_history: self.voucher_history@.map_values(|v: AddressList| v@),
            loan_vouchers: self.loan_vouchers@.map_values(|v: AddressList| v@),
            insurance_claim: self.insurance_claim@,
            granted: self.granted@,
            contract_balance: self.contract_balance,
            nft_balance: self.nft_balance,
            effects: self.effects@,
        }
    }
}

impl Ledger {
    /// A ledger without entries, for a call at the given time.
    pub fn new(
        env: soroban_sdk::Env,
        contract: Address,
        timestamp: u64,
        terms: Terms,
        config: Config,
    ) -> (ledger: Ledger)
        ensures
            ledger@ == State::fresh(env, contract, timestamp, terms, config@),
    {
        let ledger = Ledger {
            env,
            contract,
            timestamp,
            terms,
            config,
            paused: false,
            reputation_nft: None,
            fee_treasury: None,
            max_loan_amount: None,
            min_vouchers: None,
            protocol_fee_bps: None,
            referral_bonus_bps: None,
            loan_counter: None,
            insurance_pool: None,
            loans: BTreeMap::new(),
            active_loan: BTreeMap::new(),
            latest_loan: BTreeMap::new(),
            loan_count: BTreeMap::new(),
            repayment_count: BTreeMap::new(),
            default_count: BTreeMap::new(),
            blacklisted: BTreeMap::new(),
            referred_by: BTreeMap::new(),
            vouches: BTreeMap::new(),
            voucher_history: BTreeMap::new(),
            loan_vouchers: BTreeMap::new(),
            insurance_claim: BTreeMap::new(),
            granted: Vec::new(),
            contract_balance: None,
            nft_balance: None,
            effects: Vec::new(),
        };
        proof {
            assert(ledger@ =~= State::fresh(env, contract, timestamp, terms, config@));
        }
        ledger
    }
}

/// The value under a key, if there is one.
pub open spec fn entry<V>(m: Map<u64, V>, key: u64) -> Option<V> {
    if m.contains_key(key) {
        Some(m[key])
    } else {
        None
    }
}

/// The count under a key; a key that was never written counts zero.
pub open spec fn count_of(m: Map<u64, u32>, key: u64) -> u32 {
    match entry(m, key) {
        Some(n) => n,
        None => 0,
    }
}

impl State {
    /// The state without entries.
    pub open spec fn fresh(
        env: soroban_sdk::Env,
        contract: Address,
        timestamp: u64,
        terms: Terms,
        config: Settings,
    ) -> State {
        State {
            env,
            contract,
            timestamp,
            terms,
            config,
            paused: false,
            reputation_nft: None,
            fee_treasury: None,
            max_loan_amount: None,
            min_vouchers: None,
            protocol_fee_bps: None,
            referral_bonus_bps: None,
            loan_counter: None,
            insurance_pool: None,
            loans: Map::empty(),
            active_loan: Map::empty(),
            latest_loan: Map::empty(),
            loan_count: Map::empty(),
            repayment_count: Map::empty(),
            default_count: Map::empty(),
            blacklisted: Map::empty(),
            referred_by: Map::empty(),
            vouches: Map::empty(),
            voucher_history: Map::empty(),
            loan_vouchers: Map::empty(),
            insurance_claim: Map::empty(),
            granted: Seq::empty(),
            contract_balance: None,
            nft_balance: None,
            effects: Seq::empty(),
        }
    }

    /// The vouches behind a borrower.
    pub open spec fn vouches_of(self, borrower: Address) -> Seq<VouchRecord> {
        match entry(self.vouches, borrower) {
            Some(v) => v,
            None => Seq::empty(),
        }
    }

    /// The borrowers whom a voucher has ever vouched for.
    pub open spec fn history_of(self, voucher: Address) -> Seq<Address> {
        match entry(self.voucher_history, voucher) {
            Some(v) => v,
            None => Seq::empty(),
        }
    }

    /// Whether a voucher's stake stands behind a loan that has been disbursed: the
    /// loan is its borrower's latest, and the voucher is among the borrower's
    /// vouches, in the loan's token, from no later than the deadline up to which
    /// the loan could still be repaid.
    pub open spec fn stands_behind(self, voucher: Address, loan: Loan, loan_id: u64) -> bool {
        let vouches = self.vouches_of(loan.borrower);
        &&& entry(self.latest_loan, loan.borrower) == Some(loan_id)
        &&& exists|i: int|
            0 <= i < vouches.len() && backs(#[trigger] vouches[i], voucher, loan)
    }

    /// Whether an address was a voucher on a loan: it backed the loan when it was
    /// disbursed, or has vouched since and stands behind it. For a loan without a
    /// record of its backers, it is enough to have vouched for the borrower.
    pub open spec fn vouched_for_loan(self, voucher: Address, loan_id: u64) -> bool {
        match (entry(self.loans, loan_id), entry(self.loan_vouchers, loan_id)) {
            (None, _) => false,
            (Some(loan), None) => self.history_of(voucher).contains(loan.borrower),
            (Some(loan), Some(vouchers)) => vouchers.contains(voucher) || self.stands_behind(
                voucher,
                loan,
                loan_id,
            ),
        }
    }

    /// The id of the last loan made; zero before the first.
    pub open spec fn last_loan_id(self) -> u64 {
        match self.loan_counter {
            Some(n) => n,
            None => 0,
        }
    }

    /// What the insurance pool holds.
    pub open spec fn pool(self) -> i128 {
        match self.insurance_pool {
            Some(p) => p,
            None => 0,
        }
    }

    /// The loan that a borrower's active entry leads to.
    pub open spec fn active_record(self, borrower: Address) -> Option<Loan> {
        match entry(self.active_loan, borrower) {
            Some(id) => entry(self.loans, id),
            None => None,
        }
    }

    /// The latest loan of a borrower.
    pub open spec fn latest_record(self, borrower: Address) -> Option<Loan> {
        match entry(self.latest_loan, borrower) {
            Some(id) => entry(self.loans, id),
            None => None,
        }
    }

    /// Whether a borrower has a loan to pay back.
    pub open spec fn has_active_loan(self, borrower: Address) -> bool {
        self.active_record(borrower) matches Some(loan) && loan.status == LoanStatus::Active
    }

    /// Whether the contract deals in a token.
    pub open spec fn token_allowed(self, token: Address) -> bool {
        token == self.config.token || self.config.allowed_tokens.contains(token)
    }

    /// Whether the `i`-th authorization granted to the call is that of `address`.
    pub open spec fn is_granted(self, i: int, address: Address) -> bool {
        0 <= i < self.granted.len() && self.granted[i] == address
    }

    /// The state with further things for the host to do.
    pub open spec fn with_effects(self, more: Seq<Effect>) -> State {
        State { effects: self.effects + more, ..self }
    }
}

/// Whether a vouch is the voucher's, in the loan's token, and from no later than
/// the loan's deadline.
pub open spec fn backs(v: VouchRecord, voucher: Address, loan: Loan) -> bool {
    v.voucher == voucher && v.token == loan.token_address && v.vouch_timestamp <= loan.deadline
}

/// The part of the vouches that is staked in a token, in order.
pub open spec fn in_token(vouches: Seq<VouchRecord>, token: Address) -> Seq<VouchRecord> {
    vouches.filter(|v: VouchRecord| v.token == token)
}

/// Who made the vouches, in order.
pub open spec fn vouchers_of(vouches: Seq<VouchRecord>) -> Seq<Address> {
    vouches.map_values(|v: VouchRecord| v.voucher)
}

/// The sum of the stakes.
pub open spec fn stake_sum(vouches: Seq<VouchRecord>) -> int
    decreases vouches.len(),
{
    if vouches.len() == 0 {
        0
    } else {
        stake_sum(vouches.drop_last()) + vouches.last().stake
    }
}

/// Whether a number is in the range of an amount.
pub open spec fn is_amount(x: int) -> bool {
    i128::MIN <= x <= i128::MAX
}

/// Whether the stakes can be added up, first to last, without leaving the range
/// of an amount on the way.
pub open spec fn stakes_fit(vouches: Seq<VouchRecord>) -> bool {
    forall|k: int| 0 <= k <= vouches.len() ==> is_amount(#[trigger] stake_sum(vouches.take(k)))
}

} // verus!
