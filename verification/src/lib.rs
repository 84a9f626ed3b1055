//! Accounting core of a stake-governance engine.
//!
//! Participants delegate stake under a time lock, cast weighted votes on
//! proposals, and accrue rewards from pools in proportion to what they have
//! delegated.  Every operation is a sequential, atomic state transition on
//! plain values: the clock, the caller's identity and token balances are
//! handed in by the host, and payouts are handed back for the host to carry
//! out.  An operation that fails leaves every state it was given untouched.

pub mod error;
pub mod identity;
pub mod delegation;
pub mod math;
pub mod voting_power;
pub mod governance;
pub mod rewards;
pub mod multi_rewards;
pub mod history;
pub mod monitoring;
