//! The claim registry: claims are filed (against a deposit), approved by
//! approvers, executed by slashing the pool once a timeout passed, or marked
//! as spam; proposers get their deposit back when the claim is settled.

use vstd::prelude::*;
use crate::claim_types::{Claim, ClaimError, ClaimInfo, ClaimStatus, PoolError};
use crate::principal::{same_principal, copy_principal, is_anonymous, anonymous_bytes};
use crate::hashing::{get_claim_deposit_subaccount, claim_deposit_subaccount};
use crate::ledger::TransferReply;
use crate::TRANSFER_FEE;

verus! {

/// All state of the claim registry. Claim identifiers start at 1: the claim
/// with identifier `i` is at position `i - 1`.
#[derive(Clone, Debug)]
pub struct ClaimRegistry {
    pub owner: Vec<u8>,
    pub approvers: Vec<Vec<u8>>,
    pub claims: Vec<Claim>,
    /// Deposit a proposer must put up to file a claim.
    pub claim_deposit: u128,
    /// The token ledger (anonymous until set).
    pub ledger_canister_id: Vec<u8>,
    /// Nanoseconds during which a filed claim may be approved.
    pub approval_period: u64,
    /// Nanoseconds between approval and execution.
    pub execution_timeout: u64,
}

/// Whether `p` is among the principals of `s`.
pub open spec fn contains_principal(s: Seq<Vec<u8>>, p: Seq<u8>) -> bool {
    exists|i: int| 0 <= i < s.len() && #[trigger] s[i]@ == p
}

/// `a` and `b` describe the same claim.
pub open spec fn same_claim(a: Claim, b: Claim) -> bool {
    &&& a.id == b.id
    &&& a.proposer@ == b.proposer@
    &&& a.receiver@ == b.receiver@
    &&& a.amount == b.amount
    &&& a.pool_canister_id@ == b.pool_canister_id@
    &&& a.description@ == b.description@
    &&& a.status == b.status
    &&& a.created_at == b.created_at
    &&& a.approved_at == b.approved_at
    &&& (a.approved_by is Some <==> b.approved_by is Some)
    &&& (a.approved_by is Some ==> a.approved_by.unwrap()@ == b.approved_by.unwrap()@)
    &&& a.deposit_amount == b.deposit_amount
}

/// Copies a claim.
pub fn copy_claim(c: &Claim) -> (d: Claim)
    ensures
        same_claim(d, *c),
{
    let approved_by = match &c.approved_by {
        None => None,
        Some(p) => Some(copy_principal(p)),
    };
    Claim {
        id: c.id,
        proposer: copy_principal(&c.proposer),
        receiver: copy_principal(&c.receiver),
        amount: c.amount,
        pool_canister_id: copy_principal(&c.pool_canister_id),
        description: c.description.clone(),
        status: c.status,
        created_at: c.created_at,
        approved_at: c.approved_at,
        approved_by,
        deposit_amount: c.deposit_amount,
    }
}

/// Whether the pool accepted a slash request.
pub open spec fn slash_succeeded(slash_reply: Option<Result<(), PoolError>>) -> bool {
    slash_reply matches Some(Ok(_))
}

/// What a pool is asked to pay out for an executed claim.
#[derive(Clone, Debug, PartialEq, Eq)]
pub struct SlashOrder {
    pub pool_canister_id: Vec<u8>,
    pub receiver: Vec<u8>,
    pub amount: u128,
}

/// A claim deposit to be returned: from which subaccount, how much, to whom.
#[derive(Clone, Debug, PartialEq, Eq)]
pub struct DepositRefund {
    pub subaccount: [u8; 32],
    pub amount: u128,
    pub proposer: Vec<u8>,
}

impl ClaimRegistry {
    /// Well-formedness: identifiers match positions, and an approved (or
    /// executing) claim records when it was approved.
    pub open spec fn wf(&self) -> bool {
        &&& self.claims@.len() + 1 < u64::MAX
        &&& forall|i: int| 0 <= i < self.claims@.len() ==> #[trigger] self.claims@[i].id == i + 1
        &&& forall|i: int| 0 <= i < self.claims@.len() ==>
            ((#[trigger] self.claims@[i].status == ClaimStatus::Approved
                || self.claims@[i].status == ClaimStatus::Executing) ==> self.claims@[i].approved_at is Some)
    }

    /// Whether `p` is among the approvers.
    pub open spec fn approver(&self, p: Seq<u8>) -> bool {
        contains_principal(self.approvers@, p)
    }

    /// The claim with identifier `id`, if it exists.
    pub open spec fn claim(&self, id: int) -> Option<Claim> {
        if 1 <= id <= self.claims@.len() {
            Some(self.claims@[id - 1])
        } else {
            None
        }
    }

    /// Only the claim `id` differs between the two registries, and it is `c`.
    pub open spec fn only_claim_changed(&self, old: &ClaimRegistry, id: int, c: Claim) -> bool {
        &&& self.claims@.len() == old.claims@.len()
        &&& same_claim(self.claims@[id - 1], c)
        &&& forall|i: int| 0 <= i < old.claims@.len() && i != id - 1 ==> #[trigger] self.claims@[i] == old.claims@[i]
        &&& self.owner == old.owner
        &&& self.approvers == old.approvers
        &&& self.claim_deposit == old.claim_deposit
        &&& self.ledger_canister_id == old.ledger_canister_id
        &&& self.approval_period == old.approval_period
        &&& self.execution_timeout == old.execution_timeout
    }

    /// The registry as installed: `owner` owns it and is the first approver.
    pub fn new(owner: Vec<u8>, claim_deposit: u128, ledger_canister_id: Vec<u8>, approval_period: u64,
        execution_timeout: u64) -> (r: ClaimRegistry)
        ensures
            r.wf(),
            r.owner@ == owner@,
            r.approvers@.len() == 1,
            r.approvers@[0]@ == owner@,
            r.claims@.len() == 0,
            r.claim_deposit == claim_deposit,
            r.ledger_canister_id@ == ledger_canister_id@,
            r.approval_period == approval_period,
            r.execution_timeout == execution_timeout,
    {
        let mut approvers: Vec<Vec<u8>> = Vec::new();
        approvers.push(copy_principal(&owner));
        ClaimRegistry {
            owner,
            approvers,
            claims: Vec::new(),
            claim_deposit,
            ledger_canister_id,
            approval_period,
            execution_timeout,
        }
    }

    /// Whether `principal` may approve claims.
    pub fn is_approver(&self, principal: &[u8]) -> (r: bool)
        ensures
            r == self.approver(principal@),
    {
        let n = self.approvers.len();
        let mut i: usize = 0;
        while i < n
            invariant
                n == self.approvers@.len(),
                i <= n,
                forall|j: int| 0 <= j < i ==> #[trigger] self.approvers@[j]@ != principal@,
            decreases n - i,
        {
            if same_principal(self.approvers[i].as_slice(), principal) {
                return true;
            }
            i = i + 1;
        }
        false
    }

    /// The deposit required to file a claim.
    pub fn get_claim_deposit(&self) -> (d: u128)
        ensures
            d == self.claim_deposit,
    {
        self.claim_deposit
    }

    /// Nanoseconds between approval and execution.
    pub fn get_execution_timeout(&self) -> (t: u64)
        ensures
            t == self.execution_timeout,
    {
        self.execution_timeout
    }

    /// The owner of the registry.
    pub fn get_owner(&self) -> (o: Vec<u8>)
        ensures
            o@ == self.owner@,
    {
        copy_principal(&self.owner)
    }

    /// The claim with identifier `claim_id`, if it exists.
    pub fn get_claim(&self, claim_id: u64) -> (r: Option<ClaimInfo>)
        requires
            self.wf(),
        ensures
            self.claim(claim_id as int) is None ==> r is None,
            self.claim(claim_id as int) matches Some(c) ==> (r matches Some(info) && same_claim(info, c)),
    {
        if claim_id == 0 || claim_id > self.claims.len() as u64 {
            return None;
        }
        Some(copy_claim(&self.claims[(claim_id - 1) as usize]))
    }

    /// Whether filing a claim needs a deposit at all: only then is the
    /// balance of the claim's deposit subaccount looked up and checked
    /// with `check_claim_deposit` (which would accept any balance otherwise).
    pub fn requires_claim_deposit(&self) -> (r: bool)
        ensures
            r == (self.claim_deposit > 0),
    {
        self.claim_deposit > 0
    }

    /// Whether `balance` (held by the claim's deposit subaccount) covers
    /// the deposit required to file a claim.
    pub fn check_claim_deposit(&self, balance: u128) -> (r: Result<(), ClaimError>)
        ensures
            r == (if balance < self.claim_deposit {
                Err::<(), ClaimError>(ClaimError::InsufficientDeposit)
            } else {
                Ok::<(), ClaimError>(())
            }),
    {
        if balance < self.claim_deposit {
            Err(ClaimError::InsufficientDeposit)
        } else {
            Ok(())
        }
    }

    /// Files a claim by `caller` at clock reading `now_ns` (after the
    /// deposit, when one is required, was found on its subaccount): it is
    /// pending, records the deposit currently required, and gets the next
    /// identifier, which is returned.
    pub fn add_claim(
        &mut self,
        caller: &[u8],
        receiver: &[u8],
        amount: u128,
        pool_canister_id: &[u8],
        description: String,
        now_ns: u64,
    ) -> (id: u64)
        requires
            old(self).wf(),
            old(self).claims@.len() + 2 < u64::MAX,
        ensures
            final(self).wf(),
            id == old(self).claims@.len() + 1,
            final(self).claims@.len() == old(self).claims@.len() + 1,
            forall|i: int| 0 <= i < old(self).claims@.len() ==> #[trigger] final(self).claims@[i] == old(self).claims@[i],
            final(self).claims@[id - 1].proposer@ == caller@,
            final(self).claims@[id - 1].receiver@ == receiver@,
            final(self).claims@[id - 1].pool_canister_id@ == pool_canister_id@,
            final(self).claims@[id - 1].description == description,
            final(self).claims@[id - 1].id == id,
            final(self).claims@[id - 1].amount == amount,
            final(self).claims@[id - 1].status == ClaimStatus::Pending,
            final(self).claims@[id - 1].created_at == now_ns,
            final(self).claims@[id - 1].approved_at is None,
            final(self).claims@[id - 1].approved_by is None,
            final(self).claims@[id - 1].deposit_amount == old(self).claim_deposit,
            final(self).owner == old(self).owner,
            final(self).approvers == old(self).approvers,
            final(self).claim_deposit == old(self).claim_deposit,
            final(self).ledger_canister_id == old(self).ledger_canister_id,
            final(self).approval_period == old(self).approval_period,
            final(self).execution_timeout == old(self).execution_timeout,
    {
        let claim_id = self.claims.len() as u64 + 1;
        let mut proposer: Vec<u8> = Vec::new();
        crate::hashing::append_bytes(&mut proposer, caller);
        let mut recv: Vec<u8> = Vec::new();
        crate::hashing::append_bytes(&mut recv, receiver);
        let mut pool: Vec<u8> = Vec::new();
        crate::hashing::append_bytes(&mut pool, pool_canister_id);
        assert(proposer@ =~= caller@);
        assert(recv@ =~= receiver@);
        assert(pool@ =~= pool_canister_id@);
        let claim = Claim {
            id: claim_id,
            proposer,
            receiver: recv,
            amount,
            pool_canister_id: pool,
            description,
            status: ClaimStatus::Pending,
            created_at: now_ns,
            approved_at: None,
            approved_by: None,
            deposit_amount: self.claim_deposit,
        };
        self.claims.push(claim);
        claim_id
    }

    /// Stores `c` as the claim `id`.
    fn replace_claim(&mut self, id: u64, c: Claim)
        requires
            old(self).wf(),
            1 <= id <= old(self).claims@.len(),
            c.id == id,
            (c.status == ClaimStatus::Approved || c.status == ClaimStatus::Executing) ==> c.approved_at is Some,
        ensures
            final(self).wf(),
            final(self).claims@ == old(self).claims@.update(id - 1, c),
            final(self).owner == old(self).owner,
            final(self).approvers == old(self).approvers,
            final(self).claim_deposit == old(self).claim_deposit,
            final(self).ledger_canister_id == old(self).ledger_canister_id,
            final(self).approval_period == old(self).approval_period,
            final(self).execution_timeout == old(self).execution_timeout,
    {
        let len = self.claims.len();
        assert(id - 1 < len);
        let idx: usize = (id - 1) as usize;
        assert(idx as int == id - 1);
        self.claims.set(idx, c);
    }

    /// Why approving claim `claim_id` by `caller` at clock reading `now_ns`
    /// is refused, if it is: only approvers approve; the claim must exist,
    /// not be approved or executed yet, and its approval period must not
    /// have ended.
    pub open spec fn approval_refusal(&self, caller: Seq<u8>, claim_id: u64, now_ns: u64) -> Option<ClaimError> {
        if !self.approver(caller) {
            Some(ClaimError::NotApprover)
        } else {
            match self.claim(claim_id as int) {
                None => Some(ClaimError::NotFound),
                Some(c) => if c.status == ClaimStatus::Approved {
                    Some(ClaimError::AlreadyApproved)
                } else if c.status == ClaimStatus::Executed {
                    Some(ClaimError::AlreadyExecuted)
                } else if now_ns > c.created_at + self.approval_period {
                    Some(ClaimError::ApprovalPeriodExpired)
                } else {
                    None
                },
            }
        }
    }

    /// Approves claim `claim_id` for `caller` at clock reading `now_ns`,
    /// unless `approval_refusal` says why not; the claim records when and by
    /// whom it was approved.
    pub fn approve_claim(&mut self, caller: &[u8], claim_id: u64, now_ns: u64) -> (r: Result<(), ClaimError>)
        requires
            old(self).wf(),
        ensures
            final(self).wf(),
            old(self).approval_refusal(caller@, claim_id, now_ns) matches Some(e) ==>
                r == Err::<(), ClaimError>(e) && *final(self) == *old(self),
            old(self).approval_refusal(caller@, claim_id, now_ns) is None ==> {
                let c = old(self).claim(claim_id as int).unwrap();
                &&& r is Ok
                &&& final(self).claims@[claim_id - 1].approved_by matches Some(by) && by@ == caller@
                &&& final(self).only_claim_changed(old(self), claim_id as int, Claim {
                        status: ClaimStatus::Approved,
                        approved_at: Some(now_ns),
                        approved_by: final(self).claims@[claim_id - 1].approved_by,
                        ..c
                    })
            },
    {
        if !self.is_approver(caller) {
            return Err(ClaimError::NotApprover);
        }
        if claim_id == 0 || claim_id > self.claims.len() as u64 {
            return Err(ClaimError::NotFound);
        }
        let idx = (claim_id - 1) as usize;
        let status = self.claims[idx].status;
        if matches!(status, ClaimStatus::Approved) {
            return Err(ClaimError::AlreadyApproved);
        }
        if matches!(status, ClaimStatus::Executed) {
            return Err(ClaimError::AlreadyExecuted);
        }
        if now_ns as u128 > self.claims[idx].created_at as u128 + self.approval_period as u128 {
            return Err(ClaimError::ApprovalPeriodExpired);
        }
        let mut c = copy_claim(&self.claims[idx]);
        c.status = ClaimStatus::Approved;
        c.approved_at = Some(now_ns);
        let mut by: Vec<u8> = Vec::new();
        crate::hashing::append_bytes(&mut by, caller);
        assert(by@ =~= caller@);
        c.approved_by = Some(by);
        self.replace_claim(claim_id, c);
        Ok(())
    }

    /// Why executing claim `claim_id` at clock reading `now_ns` is refused,
    /// if it is: the claim must exist, be approved (not executed already),
    /// and the execution timeout must have passed since its approval.
    pub open spec fn execution_refusal(&self, claim_id: u64, now_ns: u64) -> Option<ClaimError> {
        match self.claim(claim_id as int) {
            None => Some(ClaimError::NotFound),
            Some(c) => if c.status == ClaimStatus::Executed {
                Some(ClaimError::AlreadyExecuted)
            } else if c.status != ClaimStatus::Approved {
                Some(ClaimError::NotApproved)
            } else {
                match c.approved_at {
                    None => Some(ClaimError::NotApproved),
                    Some(t) => if now_ns < t + self.execution_timeout {
                        Some(ClaimError::ExecutionTimeoutNotExpired)
                    } else {
                        None
                    },
                }
            },
        }
    }

    /// First part of executing claim `claim_id` at clock reading `now_ns`:
    /// unless `execution_refusal` says why not, the claim becomes
    /// `Executing` and the pool is to be asked to pay its amount to its
    /// receiver.
    pub fn execute_claim_begin(&mut self, claim_id: u64, now_ns: u64) -> (r: Result<SlashOrder, ClaimError>)
        requires
            old(self).wf(),
        ensures
            final(self).wf(),
            old(self).execution_refusal(claim_id, now_ns) matches Some(e) ==>
                r == Err::<SlashOrder, ClaimError>(e) && *final(self) == *old(self),
            old(self).execution_refusal(claim_id, now_ns) is None ==> {
                let c = old(self).claim(claim_id as int).unwrap();
                &&& r matches Ok(order) && order.pool_canister_id@ == c.pool_canister_id@
                    && order.receiver@ == c.receiver@ && order.amount == c.amount
                &&& final(self).only_claim_changed(old(self), claim_id as int,
                        Claim { status: ClaimStatus::Executing, ..c })
            },
    {
        if claim_id == 0 || claim_id > self.claims.len() as u64 {
            return Err(ClaimError::NotFound);
        }
        let idx = (claim_id - 1) as usize;
        let status = self.claims[idx].status;
        if matches!(status, ClaimStatus::Executed) {
            return Err(ClaimError::AlreadyExecuted);
        }
        if !matches!(status, ClaimStatus::Approved) {
            return Err(ClaimError::NotApproved);
        }
        let approved_time = match self.claims[idx].approved_at {
            None => { return Err(ClaimError::NotApproved); },
            Some(t) => t,
        };
        if (now_ns as u128) < approved_time as u128 + self.execution_timeout as u128 {
            return Err(ClaimError::ExecutionTimeoutNotExpired);
        }
        let mut c = copy_claim(&self.claims[idx]);
        c.status = ClaimStatus::Executing;
        let order = SlashOrder {
            pool_canister_id: copy_principal(&c.pool_canister_id),
            receiver: copy_principal(&c.receiver),
            amount: c.amount,
        };
        self.replace_claim(claim_id, c);
        Ok(order)
    }

    /// Last part of executing claim `claim_id`, given the pool's reply to the
    /// slash request (`None` when the call itself failed). On success the
    /// claim is `Executed`; otherwise it goes back to `Approved` and the
    /// failure is reported with `failure_text`.
    pub fn execute_claim_finish(
        &mut self,
        claim_id: u64,
        slash_reply: Option<Result<(), PoolError>>,
        failure_text: String,
    ) -> (r: Result<(), ClaimError>)
        requires
            old(self).wf(),
            old(self).claim(claim_id as int) matches Some(c) ==> c.approved_at is Some,
        ensures
            final(self).wf(),
            slash_succeeded(slash_reply) ==> r is Ok,
            !slash_succeeded(slash_reply) ==> r == Err::<(), ClaimError>(ClaimError::PoolCallFailed(failure_text)),
            old(self).claim(claim_id as int) is None ==> *final(self) == *old(self),
            old(self).claim(claim_id as int) matches Some(c) ==> final(self).only_claim_changed(old(self),
                claim_id as int, Claim {
                    status: if slash_succeeded(slash_reply) {
                        ClaimStatus::Executed
                    } else {
                        ClaimStatus::Approved
                    },
                    ..c
                }),
    {
        let success = match &slash_reply {
            Some(Ok(_)) => true,
            _ => false,
        };
        if claim_id >= 1 && claim_id <= self.claims.len() as u64 {
            let idx = (claim_id - 1) as usize;
            let mut c = copy_claim(&self.claims[idx]);
            c.status = if success { ClaimStatus::Executed } else { ClaimStatus::Approved };
            self.replace_claim(claim_id, c);
        }
        if !success {
            return Err(ClaimError::PoolCallFailed(failure_text));
        }
        Ok(())
    }

    /// Why withdrawing the deposit of claim `claim_id` by `caller` at clock
    /// reading `now_ns` is refused, if it is: only the proposer withdraws; a
    /// pending claim must be past its approval period, an approved one past
    /// its execution timeout; spam forfeits the deposit; and there must be a
    /// deposit left.
    pub open spec fn withdrawal_refusal(&self, caller: Seq<u8>, claim_id: u64, now_ns: u64) -> Option<ClaimError> {
        match self.claim(claim_id as int) {
            None => Some(ClaimError::NotFound),
            Some(c) => if c.proposer@ != caller {
                Some(ClaimError::NotProposer)
            } else if c.status == ClaimStatus::Pending && c.created_at + self.approval_period > now_ns {
                Some(ClaimError::ApprovalPeriodNotExpired)
            } else if c.status == ClaimStatus::Approved && c.approved_at.unwrap() + self.execution_timeout > now_ns {
                Some(ClaimError::AlreadyApproved)
            } else if c.status == ClaimStatus::Spam {
                Some(ClaimError::AlreadyMarkedAsSpam)
            } else if c.deposit_amount == 0 {
                Some(ClaimError::NoDepositToWithdraw)
            } else {
                None
            },
        }
    }

    /// First part of returning the deposit of claim `claim_id` to `caller`
    /// at clock reading `now_ns`: unless `withdrawal_refusal` says why not,
    /// the claim's deposit drops to zero and the refund (from the claim's
    /// deposit subaccount to the proposer) is returned to be transferred.
    pub fn withdraw_deposit_begin(&mut self, caller: &[u8], claim_id: u64, now_ns: u64)
        -> (r: Result<DepositRefund, ClaimError>)
        requires
            old(self).wf(),
        ensures
            final(self).wf(),
            old(self).withdrawal_refusal(caller@, claim_id, now_ns) matches Some(e) ==>
                r == Err::<DepositRefund, ClaimError>(e) && *final(self) == *old(self),
            old(self).withdrawal_refusal(caller@, claim_id, now_ns) is None ==> {
                let c = old(self).claim(claim_id as int).unwrap();
                &&& r matches Ok(refund) && refund.amount == c.deposit_amount
                    && refund.proposer@ == c.proposer@
                    && refund.subaccount@ == claim_deposit_subaccount(c.proposer@, c.receiver@, c.amount,
                        c.pool_canister_id@, vstd::utf8::encode_utf8(c.description@))
                &&& final(self).only_claim_changed(old(self), claim_id as int, Claim { deposit_amount: 0, ..c })
            },
    {
        if claim_id == 0 || claim_id > self.claims.len() as u64 {
            return Err(ClaimError::NotFound);
        }
        let idx = (claim_id - 1) as usize;
        if !same_principal(self.claims[idx].proposer.as_slice(), caller) {
            return Err(ClaimError::NotProposer);
        }
        let status = self.claims[idx].status;
        if matches!(status, ClaimStatus::Pending)
            && self.claims[idx].created_at as u128 + self.approval_period as u128 > now_ns as u128 {
            return Err(ClaimError::ApprovalPeriodNotExpired);
        }
        if matches!(status, ClaimStatus::Approved) {
            let approved_at = match self.claims[idx].approved_at {
                Some(t) => t,
                None => 0,
            };
            if approved_at as u128 + self.execution_timeout as u128 > now_ns as u128 {
                return Err(ClaimError::AlreadyApproved);
            }
        }
        if matches!(status, ClaimStatus::Spam) {
            return Err(ClaimError::AlreadyMarkedAsSpam);
        }
        if self.claims[idx].deposit_amount == 0 {
            return Err(ClaimError::NoDepositToWithdraw);
        }
        let mut c = copy_claim(&self.claims[idx]);
        let deposit_to_withdraw = c.deposit_amount;
        c.deposit_amount = 0;
        let subaccount = get_claim_deposit_subaccount(
            c.proposer.as_slice(),
            c.receiver.as_slice(),
            c.amount,
            c.pool_canister_id.as_slice(),
            c.description.as_str(),
        );
        let proposer = copy_principal(&c.proposer);
        self.replace_claim(claim_id, c);
        Ok(DepositRefund { subaccount, amount: deposit_to_withdraw, proposer })
    }
}

impl ClaimRegistry {
    /// Why marking claim `claim_id` as spam by `caller` is refused, if it
    /// is: only approvers mark spam, the claim must exist, must not have
    /// been executed and must not be spam already.
    pub open spec fn spam_refusal(&self, caller: Seq<u8>, claim_id: u64) -> Option<ClaimError> {
        if !self.approver(caller) {
            Some(ClaimError::NotApprover)
        } else {
            match self.claim(claim_id as int) {
                None => Some(ClaimError::NotFound),
                Some(c) => if c.status == ClaimStatus::Executed {
                    Some(ClaimError::AlreadyExecuted)
                } else if c.status == ClaimStatus::Spam {
                    Some(ClaimError::AlreadyMarkedAsSpam)
                } else {
                    None
                },
            }
        }
    }

    /// Marks claim `claim_id` as spam for `caller`, unless `spam_refusal`
    /// says why not.
    pub fn mark_as_spam(&mut self, caller: &[u8], claim_id: u64) -> (r: Result<(), ClaimError>)
        requires
            old(self).wf(),
        ensures
            final(self).wf(),
            old(self).spam_refusal(caller@, claim_id) matches Some(e) ==>
                r == Err::<(), ClaimError>(e) && *final(self) == *old(self),
            old(self).spam_refusal(caller@, claim_id) is None ==> r is Ok && final(self).only_claim_changed(
                old(self), claim_id as int, Claim { status: ClaimStatus::Spam, ..old(self).claim(claim_id as int).unwrap() }),
    {
        if !self.is_approver(caller) {
            return Err(ClaimError::NotApprover);
        }
        if claim_id == 0 || claim_id > self.claims.len() as u64 {
            return Err(ClaimError::NotFound);
        }
        let idx = (claim_id - 1) as usize;
        let status = self.claims[idx].status;
        if matches!(status, ClaimStatus::Executed) {
            return Err(ClaimError::AlreadyExecuted);
        }
        if matches!(status, ClaimStatus::Spam) {
            return Err(ClaimError::AlreadyMarkedAsSpam);
        }
        let mut c = copy_claim(&self.claims[idx]);
        c.status = ClaimStatus::Spam;
        self.replace_claim(claim_id, c);
        Ok(())
    }

    /// Everything but the governed settings is the same in both registries.
    pub open spec fn same_claims_and_ledger(&self, old: &ClaimRegistry) -> bool {
        &&& self.claims == old.claims
        &&& self.owner == old.owner
        &&& self.ledger_canister_id == old.ledger_canister_id
        &&& self.approval_period == old.approval_period
    }

    /// Sets the deposit required to file a claim; owner only.
    pub fn set_claim_deposit(&mut self, caller: &[u8], new_deposit: u128) -> (r: Result<(), ClaimError>)
        requires
            old(self).wf(),
        ensures
            final(self).wf(),
            caller@ != old(self).owner@ ==> r == Err::<(), ClaimError>(ClaimError::InsufficientPermissions)
                && *final(self) == *old(self),
            caller@ == old(self).owner@ ==> r is Ok && final(self).claim_deposit == new_deposit
                && final(self).same_claims_and_ledger(old(self))
                && final(self).approvers == old(self).approvers
                && final(self).execution_timeout == old(self).execution_timeout,
    {
        if !same_principal(caller, self.owner.as_slice()) {
            return Err(ClaimError::InsufficientPermissions);
        }
        self.claim_deposit = new_deposit;
        Ok(())
    }

    /// Sets the time between approval and execution; owner only.
    pub fn set_execution_timeout(&mut self, caller: &[u8], new_timeout: u64) -> (r: Result<(), ClaimError>)
        requires
            old(self).wf(),
        ensures
            final(self).wf(),
            caller@ != old(self).owner@ ==> r == Err::<(), ClaimError>(ClaimError::InsufficientPermissions)
                && *final(self) == *old(self),
            caller@ == old(self).owner@ ==> r is Ok && final(self).execution_timeout == new_timeout
                && final(self).same_claims_and_ledger(old(self))
                && final(self).approvers == old(self).approvers
                && final(self).claim_deposit == old(self).claim_deposit,
    {
        if !same_principal(caller, self.owner.as_slice()) {
            return Err(ClaimError::InsufficientPermissions);
        }
        self.execution_timeout = new_timeout;
        Ok(())
    }

    /// Makes `approver` an approver; owner only.
    pub fn add_approver(&mut self, caller: &[u8], approver: &[u8]) -> (r: Result<(), ClaimError>)
        requires
            old(self).wf(),
            old(self).approvers@.len() < usize::MAX,
        ensures
            final(self).wf(),
            caller@ != old(self).owner@ ==> r == Err::<(), ClaimError>(ClaimError::InsufficientPermissions)
                && *final(self) == *old(self),
            caller@ == old(self).owner@ ==> r is Ok
                && (forall|p: Seq<u8>| #[trigger] final(self).approver(p) <==> (old(self).approver(p) || p == approver@))
                && final(self).same_claims_and_ledger(old(self))
                && final(self).claim_deposit == old(self).claim_deposit
                && final(self).execution_timeout == old(self).execution_timeout,
    {
        if !same_principal(caller, self.owner.as_slice()) {
            return Err(ClaimError::InsufficientPermissions);
        }
        if self.is_approver(approver) {
            return Ok(());
        }
        let mut a: Vec<u8> = Vec::new();
        crate::hashing::append_bytes(&mut a, approver);
        assert(a@ =~= approver@);
        let ghost before = self.approvers@;
        self.approvers.push(a);
        assert forall|p: Seq<u8>| #[trigger] self.approver(p) <==> (old(self).approver(p) || p == approver@) by {
            if p == approver@ {
                assert(self.approvers@[before.len() as int]@ == p);
            }
            if old(self).approver(p) {
                let i = choose|i: int| 0 <= i < before.len() && #[trigger] before[i]@ == p;
                assert(self.approvers@[i]@ == p);
            }
            if self.approver(p) && p != approver@ {
                let i = choose|i: int| 0 <= i < self.approvers@.len() && #[trigger] self.approvers@[i]@ == p;
                assert(before[i]@ == p);
            }
        }
        Ok(())
    }

    /// Takes `approver` out of the approvers; owner only.
    pub fn remove_approver(&mut self, caller: &[u8], approver: &[u8]) -> (r: Result<(), ClaimError>)
        requires
            old(self).wf(),
        ensures
            final(self).wf(),
            caller@ != old(self).owner@ ==> r == Err::<(), ClaimError>(ClaimError::InsufficientPermissions)
                && *final(self) == *old(self),
            caller@ == old(self).owner@ ==> r is Ok
                && (forall|p: Seq<u8>| #[trigger] final(self).approver(p) <==> (old(self).approver(p) && p != approver@))
                && final(self).same_claims_and_ledger(old(self))
                && final(self).claim_deposit == old(self).claim_deposit
                && final(self).execution_timeout == old(self).execution_timeout,
    {
        if !same_principal(caller, self.owner.as_slice()) {
            return Err(ClaimError::InsufficientPermissions);
        }
        let mut kept: Vec<Vec<u8>> = Vec::new();
        let n = self.approvers.len();
        let mut i: usize = 0;
        while i < n
            invariant
                n == self.approvers@.len(),
                i <= n,
                forall|p: Seq<u8>| #[trigger] contains_principal(kept@, p) <==>
                    (contains_principal(self.approvers@.subrange(0, i as int), p) && p != approver@),
            decreases n - i,
        {
            let ghost before = kept@;
            let ghost prefix = self.approvers@.subrange(0, i as int);
            assert(forall|p: Seq<u8>| #[trigger] contains_principal(before, p) <==>
                (contains_principal(prefix, p) && p != approver@));
            let ghost next = self.approvers@.subrange(0, i as int + 1);
            assert(next =~= prefix.push(self.approvers@[i as int]));
            let keep = !same_principal(self.approvers[i].as_slice(), approver);
            if keep {
                let c = copy_principal(&self.approvers[i]);
                kept.push(c);
            }
            assert forall|p: Seq<u8>| #[trigger] contains_principal(kept@, p) <==>
                (contains_principal(next, p) && p != approver@) by {
                if contains_principal(kept@, p) {
                    let j = choose|j: int| 0 <= j < kept@.len() && #[trigger] kept@[j]@ == p;
                    if j < before.len() {
                        assert(before[j]@ == p);
                        assert(contains_principal(before, p));
                        let k = choose|k: int| 0 <= k < prefix.len() && #[trigger] prefix[k]@ == p;
                        assert(next[k]@ == p);
                    } else {
                        assert(next[i as int]@ == p);
                    }
                }
                if contains_principal(next, p) && p != approver@ {
                    let j = choose|j: int| 0 <= j < next.len() && #[trigger] next[j]@ == p;
                    if j < i {
                        assert(prefix[j]@ == p);
                        assert(contains_principal(prefix, p));
                        assert(contains_principal(before, p));
                        let k = choose|k: int| 0 <= k < before.len() && #[trigger] before[k]@ == p;
                        assert(kept@[k]@ == p);
                    } else {
                        assert(kept@[before.len() as int]@ == p);
                    }
                }
            }
            i = i + 1;
        }
        assert(self.approvers@.subrange(0, n as int) =~= self.approvers@);
        self.approvers = kept;
        Ok(())
    }
}

/// Decides a transfer of `gross_amount` by the claim registry through the
/// ledger `ledger_id`: the ledger must be set; an amount of no more than the
/// fee is not sent at all (`Ok(None)`); otherwise the ledger is handed the
/// amount net of the fee.
pub fn plan_claim_transfer(ledger_id: &[u8], gross_amount: u128) -> (r: Result<Option<u128>, ClaimError>)
    ensures
        ledger_id@ == anonymous_bytes() ==> r == Err::<Option<u128>, ClaimError>(ClaimError::LedgerNotSet),
        ledger_id@ != anonymous_bytes() && gross_amount <= TRANSFER_FEE ==> r == Ok::<Option<u128>, ClaimError>(None),
        ledger_id@ != anonymous_bytes() && gross_amount > TRANSFER_FEE
            ==> r == Ok::<Option<u128>, ClaimError>(Some((gross_amount - TRANSFER_FEE) as u128)),
{
    if is_anonymous(ledger_id) {
        return Err(ClaimError::LedgerNotSet);
    }
    if gross_amount <= TRANSFER_FEE {
        return Ok(None);
    }
    Ok(Some(gross_amount - TRANSFER_FEE))
}

/// Result of a claim-registry transfer, given the ledger's reply.
pub fn claim_transfer_outcome(reply: TransferReply) -> (r: Result<(), ClaimError>)
    ensures
        reply is Accepted ==> r == Ok::<(), ClaimError>(()),
        !(reply is Accepted) ==> r == Err::<(), ClaimError>(ClaimError::DepositTransferFailed),
{
    match reply {
        TransferReply::Accepted(_) => Ok(()),
        _ => Err(ClaimError::DepositTransferFailed),
    }
}

/// The claim registry's ledger, or `LedgerNotSet` while it is anonymous;
/// and the result of a balance query given the ledger's reply (`None` when
/// the call failed).
pub fn claim_balance_outcome(ledger_id: &[u8], reply: Option<u128>) -> (r: Result<u128, ClaimError>)
    ensures
        ledger_id@ == anonymous_bytes() ==> r == Err::<u128, ClaimError>(ClaimError::LedgerNotSet),
        ledger_id@ != anonymous_bytes() && reply is None ==> r == Err::<u128, ClaimError>(ClaimError::DepositTransferFailed),
        ledger_id@ != anonymous_bytes() ==> (reply matches Some(b) ==> r == Ok::<u128, ClaimError>(b)),
{
    if is_anonymous(ledger_id) {
        return Err(ClaimError::LedgerNotSet);
    }
    match reply {
        Some(b) => Ok(b),
        None => Err(ClaimError::DepositTransferFailed),
    }
}

} // verus!
