//! A pari-mutuel wager ledger: parties stake value on one of several
//! mutually exclusive outcomes of a question; a designated arbiter later
//! declares the outcome; winners split the total pooled value in proportion
//! to their stake among the winning stakers.
//!
//! The ledger is a deterministic state machine over plain values. The host
//! environment owns persistence, identity proofs and token custody: it
//! authenticates the caller, hands the current state to these operations,
//! carries out the returned transfer, and writes the new state back only
//! when the transfer has succeeded.

pub mod laws;
pub mod ledger;
pub mod stakes;
