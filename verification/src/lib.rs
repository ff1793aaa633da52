//! A voting ledger: polls with a fixed list of options, one ballot for each
//! voter and poll, and the rules that keep the tallies of a poll in step
//! with the ballots cast on it.

pub mod assoc;
pub mod consistency;
pub mod contract;
pub mod error;
pub mod ledger;
pub mod msg;
pub mod order;
pub mod response;
pub mod state;
pub mod store;
pub mod tally;

pub use crate::error::ContractError;
