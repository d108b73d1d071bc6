//! Verified core of the Stellar Grants contract: fee arithmetic, grant
//! amendments and versioning, waitlists, timers, milestone dependency graphs,
//! escrow and clawback approval flows, registries and audit logs.
//!
//! Every operation works on the contract's own state types (held in plain
//! Rust collections) and on plain values: account identities are `u64`
//! handles, text is a byte string, and the ledger time is an argument. The
//! host glue (authentication, persistence, events, token transfers) lives
//! outside this crate.

mod errors;
pub mod bytes;
pub mod types;
pub mod store;
pub mod math;
pub mod fees;
pub mod versioning;
pub mod batch;
pub mod waitlist;
pub mod grant_timer;
pub mod milestone_deps;
pub mod escrow_multisig;
pub mod access_control;
pub mod clawback;
pub mod registry;
pub mod contributor_verification;
pub mod auto_approve;
pub mod badge;
pub mod grant_pause;
pub mod grant_bridge;
pub mod milestone_template;
pub mod grant_records;
pub mod snapshot;
pub mod split_payment;
pub mod audit;
pub mod reentrancy;
pub mod metrics;
pub mod bounty_store;
pub mod contract;

pub use errors::ContractError;
