//! Realized trading performance of an order across the tokens of its vaults.
//!
//! The crate derives direct exchange ratios between an order's tokens from its
//! trades, folds every vault's capital and net volume into each candidate
//! denomination, and picks the denomination backed by the largest net volume.

mod clock;
pub mod error;
pub mod fixed;
pub mod parse;
pub mod performance;
pub mod ranking;
pub mod ratio;
pub mod report;
pub mod selection;
pub mod signed;
pub mod types;
