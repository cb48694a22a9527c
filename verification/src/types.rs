//! Data kept by the liquidity pool.

use vstd::prelude::*;

verus! {

/// One stake: shares bought in a given episode, and the reward bookkeeping
/// needed to pay out what those shares earned.
#[derive(Clone, Copy, Debug, PartialEq, Eq)]
pub struct Deposit {
    pub episode: u64,
    pub shares: u128,
    /// Accumulated reward per share at the moment the deposit was made.
    pub reward_per_share: u128,
    pub rewards_collected: u128,
}

/// Aggregate of all stakes that unlock at the end of one episode.
#[derive(Clone, Copy, Debug, PartialEq, Eq)]
pub struct Episode {
    pub episode_shares: u128,
    pub assets_staked: u128,
    /// Reward rate that stops being paid once this episode ends.
    pub reward_decrease: u128,
    /// Cover that expires with this episode.
    pub coverage_decrease: u128,
    /// Accumulated reward per share when the episode expired.
    pub acc_reward_per_share_on_expire: u128,
}

/// An episode with nothing staked, paid or covered yet.
pub open spec fn empty_episode() -> Episode {
    Episode {
        episode_shares: 0,
        assets_staked: 0,
        reward_decrease: 0,
        coverage_decrease: 0,
        acc_reward_per_share_on_expire: 0,
    }
}

/// Returns an episode with nothing staked, paid or covered yet.
pub fn new_episode() -> (e: Episode)
    ensures
        e == empty_episode(),
{
    Episode {
        episode_shares: 0,
        assets_staked: 0,
        reward_decrease: 0,
        coverage_decrease: 0,
        acc_reward_per_share_on_expire: 0,
    }
}

/// A deposit as reported to its owner.
#[derive(Clone, Copy, Debug, PartialEq, Eq)]
pub struct UserDepositInfo {
    pub deposit_id: u64,
    pub episode: u64,
    pub shares: u128,
    /// Assets the shares are currently worth within their episode.
    pub amount: u128,
}

/// Reasons a pool operation is refused.
#[derive(Clone, Copy, Debug, PartialEq, Eq)]
pub enum PoolError {
    NoDeposit,
    InsufficientBalance,
    TransferFailed,
    LedgerCallFailed,
    LedgerNotSet,
    NotOwner,
    TimelockNotExpired,
    EpisodeNotActive,
    EpisodeNotStakable,
    NotSlashingExecutor,
    NotPoolManager,
    ProductNotActive,
    CoverageDurationTooLong,
    CoverageDurationTooShort,
    NotEnoughAssetsToCover,
    ProductNotFound,
    InvalidProductParameters,
}

/// Reasons a deposit of the staking canister is refused.
#[derive(Clone, Copy, Debug, PartialEq, Eq)]
pub enum DepositError {
    NoDeposit,
    InsufficientBalance,
    InvalidTimelock,
    TransferFailed,
    LedgerCallFailed,
    InternalError,
    LedgerNotSet,
    DepositAlreadyExists,
}

/// The identifiers of one user's deposits, in the order they were made.
#[derive(Clone, Debug, PartialEq, Eq)]
pub struct UserDeposits(pub Vec<u64>);

/// Totals over every episode that has not expired yet.
#[derive(Clone, Copy, Debug, PartialEq, Eq)]
pub struct PoolState {
    pub total_assets: u128,
    pub total_shares: u128,
}

/// A cover product sold by the pool.
#[derive(Clone, Debug, PartialEq, Eq)]
pub struct Product {
    pub name: String,
    pub product_id: u64,
    /// Yearly premium, in basis points of the covered amount.
    pub annual_percent: u64,
    pub max_coverage_duration: u64,
    /// Share of the pool (basis points) the product's cover may use.
    pub max_pool_allocation_percent: u64,
    /// Cover currently sold and not yet expired, as of `last_allocation_update`.
    pub allocation: u128,
    pub last_allocation_update: u64,
    pub active: bool,
}

/// A purchased cover.
#[derive(Clone, Debug, PartialEq, Eq)]
pub struct Coverage {
    pub coverage_id: u64,
    pub buyer: Vec<u8>,
    pub covered_account: Vec<u8>,
    pub product_id: u64,
    pub coverage_amount: u128,
    pub premium_amount: u128,
    pub start_time: u64,
    pub end_time: u64,
}

/// The identifiers of one user's covers, oldest first.
#[derive(Clone, Debug, PartialEq, Eq)]
pub struct UserCoverages(pub Vec<u64>);

/// Cover of one product that expires with one episode.
#[derive(Clone, Copy, Debug, PartialEq, Eq)]
pub struct AllocationCut {
    pub product_id: u64,
    pub episode: u64,
    pub amount: u128,
}

/// The call aborts, as a canister call does when it traps: whatever the
/// call changed is discarded by its caller. Raised where the arithmetic
/// would go below zero or divide by zero, and where a value would leave the
/// range of `u128`.
#[derive(Clone, Copy, Debug, PartialEq, Eq)]
pub struct Trap;

} // verus!
