//! Verified core of the Satsurance insurance protocol: the liquidity pool
//! (deposits in staking episodes, share accounting, reward streaming,
//! slashing, cover products) and the claim registry that pays out of it.
//!
//! Everything that talks to the Internet Computer (ledger calls, stable
//! memory, timers, the system clock) lives outside this crate; the
//! functions here take the values such calls produce and return the
//! decisions and new state.

use vstd::prelude::*;

pub mod principal;
pub mod episodes;
pub mod types;
pub mod hashing;
pub mod ledger;
pub mod pool;
pub mod rewards;
pub mod deposits;
pub mod governance;
pub mod coverage;
pub mod claim_types;
pub mod claims;
pub mod accounting;
pub mod laws;

verus! {

/// Length of one staking episode, in seconds (a third of 91 days).
pub const EPISODE_DURATION: u64 = 91 * 24 * 60 * 60 / 3;

/// Number of consecutive episodes, starting with the current one, that accept deposits.
pub const MAX_ACTIVE_EPISODES: u64 = 24;

/// Fee charged by the token ledger on every transfer: the pool and the
/// claim registry work with one ckBTC ledger, whose fee is 10 (the value
/// the claim registry and the pool's scenarios are written for).
pub const TRANSFER_FEE: u128 = 10;

/// A deposit subaccount must hold strictly more than this to be staked.
pub const MINIMUM_DEPOSIT_AMOUNT: u128 = 100_000;

/// Fixed-point scale of reward rates and accumulated reward per share.
pub const PRECISION_SCALE: u128 = 1_000_000_000_000_000_000;

/// Nanoseconds in a second (the system clock counts nanoseconds).
pub const NANOS_PER_SECOND: u64 = 1_000_000_000;

} // verus!
