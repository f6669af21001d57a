//! A governance engine: a delegated voting ledger, a proposal state machine,
//! a timelock queue of tasks, and an append-only log for text.
pub mod account;
pub mod account_map;
pub mod stable;
pub mod timelock;
pub mod governance;
pub mod sums;
pub mod ledger;
pub mod tx_log;
