//! Decisions around the pool's ledger calls: when a transfer is attempted,
//! for how much, and how the ledger's replies are turned into results.

use vstd::prelude::*;
use crate::types::PoolError;
use crate::principal::{anonymous_bytes, is_anonymous, copy_principal};
use crate::TRANSFER_FEE;

verus! {

/// What the ledger answered to a transfer request.
#[derive(Clone, Copy, Debug, PartialEq, Eq)]
pub enum TransferReply {
    /// The transfer went through; the payload is the block index.
    Accepted(u128),
    /// The ledger refused the transfer.
    Rejected,
    /// The inter-canister call itself failed.
    CallFailed,
}

/// The ledger the pool works with, or `LedgerNotSet` while it is still the
/// anonymous principal.
pub fn get_ledger_principal(token_id: &Vec<u8>) -> (r: Result<Vec<u8>, PoolError>)
    ensures
        token_id@ == anonymous_bytes() ==> r == Err::<Vec<u8>, PoolError>(PoolError::LedgerNotSet),
        token_id@ != anonymous_bytes() ==> (r matches Ok(p) && p@ == token_id@),
{
    if is_anonymous(token_id.as_slice()) {
        Err(PoolError::LedgerNotSet)
    } else {
        Ok(copy_principal(token_id))
    }
}

/// Decides whether the pool may send `gross_amount` through the ledger
/// `token_id`. A transfer of no more than the fee is refused with
/// `InsufficientBalance`; otherwise the ledger must be set, and the amount
/// handed to the ledger is `gross_amount - TRANSFER_FEE`.
pub fn plan_transfer(token_id: &Vec<u8>, gross_amount: u128) -> (r: Result<u128, PoolError>)
    ensures
        gross_amount <= TRANSFER_FEE ==> r == Err::<u128, PoolError>(PoolError::InsufficientBalance),
        gross_amount > TRANSFER_FEE && token_id@ == anonymous_bytes()
            ==> r == Err::<u128, PoolError>(PoolError::LedgerNotSet),
        gross_amount > TRANSFER_FEE && token_id@ != anonymous_bytes()
            ==> r == Ok::<u128, PoolError>((gross_amount - TRANSFER_FEE) as u128),
{
    if gross_amount <= TRANSFER_FEE {
        return Err(PoolError::InsufficientBalance);
    }
    let net_amount = gross_amount - TRANSFER_FEE;
    match get_ledger_principal(token_id) {
        Err(e) => Err(e),
        Ok(_) => Ok(net_amount),
    }
}

/// Result of a pool transfer, given the ledger's reply.
pub fn transfer_outcome(reply: TransferReply) -> (r: Result<u128, PoolError>)
    ensures
        reply matches TransferReply::Accepted(b) ==> r == Ok::<u128, PoolError>(b),
        !(reply is Accepted) ==> r == Err::<u128, PoolError>(PoolError::TransferFailed),
{
    match reply {
        TransferReply::Accepted(block_index) => Ok(block_index),
        _ => Err(PoolError::TransferFailed),
    }
}

/// Result of a balance query, given the ledger's reply (`None` when the
/// call failed).
pub fn balance_outcome(reply: Option<u128>) -> (r: Result<u128, PoolError>)
    ensures
        reply matches Some(b) ==> r == Ok::<u128, PoolError>(b),
        reply is None ==> r == Err::<u128, PoolError>(PoolError::LedgerCallFailed),
{
    match reply {
        Some(balance) => Ok(balance),
        None => Err(PoolError::LedgerCallFailed),
    }
}

} // verus!
