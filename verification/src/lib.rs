//! Rules of a vouched-credit contract: loans backed by vouchers' stakes, their
//! repayment with yield, and an insurance pool for defaults.
//!
//! A [`ledger::Ledger`] holds everything one contract call can see: the stored
//! entries, the time, and what the host has answered so far. Each rule is a
//! function on it. It either refuses, leaving the ledger as it was, or brings
//! the ledger to its next state and appends the transfers, mints and events
//! that the host has to carry out.

pub mod helpers;
pub mod host;
pub mod insurance;
pub mod laws;
pub mod ledger;
pub mod loan;
pub mod repayment;
pub mod types;
