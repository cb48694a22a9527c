//! Data kept by the claim registry.

use vstd::prelude::*;

verus! {

/// Where a claim stands.
#[derive(Clone, Copy, Debug, PartialEq, Eq)]
pub enum ClaimStatus {
    Pending,
    Approved,
    Executing,
    Executed,
    Rejected,
    Spam,
}

/// A request to pay `amount` out of a pool to `receiver`.
#[derive(Clone, Debug, PartialEq, Eq)]
pub struct Claim {
    pub id: u64,
    pub proposer: Vec<u8>,
    pub receiver: Vec<u8>,
    pub amount: u128,
    pub pool_canister_id: Vec<u8>,
    pub description: String,
    pub status: ClaimStatus,
    /// Nanosecond clock reading when the claim was filed.
    pub created_at: u64,
    pub approved_at: Option<u64>,
    pub approved_by: Option<Vec<u8>>,
    /// Deposit the proposer put up and may still withdraw.
    pub deposit_amount: u128,
}

/// A claim as reported to callers.
pub type ClaimInfo = Claim;

/// Reasons a claim operation is refused.
#[derive(Clone, Debug, PartialEq, Eq)]
pub enum ClaimError {
    NotFound,
    NotApprover,
    AlreadyApproved,
    AlreadyExecuting,
    AlreadyExecuted,
    NotApproved,
    TimelockNotExpired,
    ExecutionTimeoutNotExpired,
    ApprovalPeriodExpired,
    ApprovalPeriodNotExpired,
    PoolCallFailed(String),
    InsufficientPermissions,
    NotProposer,
    AlreadyMarkedAsSpam,
    NoDepositToWithdraw,
    DepositTransferFailed,
    InsufficientDeposit,
    LedgerNotSet,
}

/// The pool's answer to a slash request, as the claim registry reads it.
#[derive(Clone, Copy, Debug, PartialEq, Eq)]
pub enum PoolError {
    NoDeposit,
    InsufficientBalance,
    TransferFailed,
    LedgerCallFailed,
    LedgerNotSet,
    NotOwner,
    TimelockNotExpired,
    EpisodeNotActive,
    EpisodeNotStakable,
    NotSlashingExecutor,
}

} // verus!
