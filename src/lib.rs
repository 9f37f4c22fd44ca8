//! The core of a small proof-of-stake ledger: blocks chained by hash, a
//! registry of validator stakes, a stake-weighted lottery, and the rounds
//! that collect proposals and commit the lottery's winner.

pub mod amount;
pub mod block;
pub mod chain;
pub mod lottery;
pub mod round;
pub mod validators;
