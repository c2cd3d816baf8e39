//! Ledger-resident accounting and governance engines.
//!
//! Two state machines built on a streaming, share-weighted reward accumulator:
//! a token-staking engine (stake / unstake / claim / slash / emergency
//! withdraw, with tier multipliers, lock penalties and a two-phase upgrade
//! timelock) and a proposal-based governance engine (create / vote / queue /
//! execute, with optional quadratic weighting and delegation).
//!
//! The host environment supplies storage, token transfers, caller
//! authentication and the ledger clock; every operation here takes the caller
//! identity and the current time as plain arguments, computes the next state
//! and the amount to transfer, and leaves the transfer itself to the host.

pub mod errors;
pub mod governance;
pub mod math;
pub mod staking;
pub mod table;
