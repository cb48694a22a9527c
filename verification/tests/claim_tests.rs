//! Claim registry scenarios: the registry, a pool it slashes and a shared
//! simulated ledger, driven the way the canister endpoints drive them.

use std::collections::HashMap;

use candid::Principal;

use satsurance::claim_types::{ClaimError, ClaimInfo, ClaimStatus, PoolError as SlashError};
use satsurance::claims::{claim_balance_outcome, claim_transfer_outcome, plan_claim_transfer, ClaimRegistry};
use satsurance::deposits::check_deposit_balance;
use satsurance::episodes::{get_current_episode_id, get_stakable_episode};
use satsurance::hashing::{get_claim_deposit_subaccount, get_deposit_subaccount};
use satsurance::ledger::{plan_transfer, transfer_outcome, TransferReply};
use satsurance::pool::Pool;
use satsurance::types::PoolError;
use satsurance::TRANSFER_FEE;

const START_NS: u64 = 1_700_000_000_000_000_000;
const APPROVAL_PERIOD_NANOS: u64 = 7 * 24 * 60 * 60 * 1_000_000_000;
const EXECUTION_TIMEOUT_NANOS: u64 = 7 * 24 * 60 * 60 * 1_000_000_000;

fn canister(tag: u8) -> Vec<u8> {
    Principal::from_slice(&[0, 0, 0, 0, 0, 0x20, 0, tag, 1, 1]).as_slice().to_vec()
}

fn bytes_principal(b: u8) -> Vec<u8> {
    Principal::from_slice(&[b; 29]).as_slice().to_vec()
}

#[derive(Default)]
struct Ledger {
    balances: HashMap<(Vec<u8>, Vec<u8>), u128>,
}

impl Ledger {
    fn balance_of(&self, owner: &[u8], sub: &[u8]) -> u128 {
        *self.balances.get(&(owner.to_vec(), sub.to_vec())).unwrap_or(&0)
    }

    fn transfer(&mut self, from: &[u8], from_sub: &[u8], to: &[u8], to_sub: &[u8], amount: u128) -> TransferReply {
        let have = self.balance_of(from, from_sub);
        match amount.checked_add(TRANSFER_FEE) {
            Some(need) if need <= have => {
                self.balances.insert((from.to_vec(), from_sub.to_vec()), have - need);
                let current = self.balance_of(to, to_sub);
                self.balances.insert((to.to_vec(), to_sub.to_vec()), current + amount);
                TransferReply::Accepted(0)
            }
            _ => TransferReply::Rejected,
        }
    }
}

struct Env {
    registry: ClaimRegistry,
    pool: Pool,
    ledger: Ledger,
    now_ns: u64,
    claim_canister: Vec<u8>,
    pool_canister: Vec<u8>,
    ledger_id: Vec<u8>,
    owner: Vec<u8>,
}

fn setup() -> Env {
    let owner = bytes_principal(1);
    let ledger_id = canister(1);
    let claim_canister = canister(2);
    let pool_canister = canister(3);
    let mut ledger = Ledger::default();
    ledger.balances.insert((owner.clone(), vec![]), 10_000_000_000_000);
    let registry = ClaimRegistry::new(owner.clone(), 1_000_000, ledger_id.clone(), APPROVAL_PERIOD_NANOS,
        EXECUTION_TIMEOUT_NANOS);
    let pool = Pool::new(ledger_id.clone(), claim_canister.clone(), START_NS);
    let mut env = Env { registry, pool, ledger, now_ns: START_NS, claim_canister, pool_canister, ledger_id, owner };

    let pool_id = env.pool_canister.clone();
    let owner = env.owner.clone();
    env.ledger.transfer(&owner, &[], &pool_id, &[], 1_000_000_000_000);
    let episode = get_stakable_episode(get_current_episode_id(env.now_ns));
    let sub = get_deposit_subaccount(&owner, episode);
    env.ledger.transfer(&owner, &[], &pool_id, &sub, 100_000_000_000);
    env.pool_deposit(&owner, episode).unwrap();
    env
}

fn to_slash_error(e: PoolError) -> SlashError {
    match e {
        PoolError::NoDeposit => SlashError::NoDeposit,
        PoolError::InsufficientBalance => SlashError::InsufficientBalance,
        PoolError::TransferFailed => SlashError::TransferFailed,
        PoolError::LedgerCallFailed => SlashError::LedgerCallFailed,
        PoolError::LedgerNotSet => SlashError::LedgerNotSet,
        PoolError::NotOwner => SlashError::NotOwner,
        PoolError::TimelockNotExpired => SlashError::TimelockNotExpired,
        PoolError::EpisodeNotActive => SlashError::EpisodeNotActive,
        PoolError::EpisodeNotStakable => SlashError::EpisodeNotStakable,
        PoolError::NotSlashingExecutor => SlashError::NotSlashingExecutor,
        other => panic!("a slash does not answer {:?}", other),
    }
}

impl Env {
    fn advance_time(&mut self, nanos: u64) {
        self.now_ns += nanos;
    }

    fn balance(&self, who: &[u8]) -> u128 {
        self.ledger.balance_of(who, &[])
    }

    fn user_transfer(&mut self, from: &[u8], to: &[u8], amount: u128) {
        self.ledger.transfer(from, &[], to, &[], amount);
    }

    fn pool_transfer(&mut self, from_sub: &[u8], to: &[u8], gross: u128) -> Result<u128, PoolError> {
        let net = plan_transfer(&self.pool.token_id, gross)?;
        let pool_id = self.pool_canister.clone();
        transfer_outcome(self.ledger.transfer(&pool_id, from_sub, to, &[], net))
    }

    fn pool_deposit(&mut self, user: &[u8], episode: u64) -> Result<(), PoolError> {
        match self.pool.deposit_begin(self.now_ns, episode) {
            Err(_) => panic!("deposit traps"),
            Ok(Err(e)) => return Err(e),
            Ok(Ok(())) => {}
        }
        let sub = get_deposit_subaccount(user, episode);
        let balance = self.ledger.balance_of(&self.pool_canister, &sub);
        check_deposit_balance(balance)?;
        let pool_id = self.pool_canister.clone();
        self.pool_transfer(&sub, &pool_id, balance)?;
        self.pool.deposit_finish(user, episode, balance).expect("deposit traps");
        Ok(())
    }

    /// The pool's `slash` endpoint, called by the claim registry.
    fn pool_slash(&mut self, receiver: &[u8], amount: u128) -> Result<(), PoolError> {
        let caller = self.claim_canister.clone();
        let slashed = match self.pool.slash_begin(&caller, amount, self.now_ns) {
            Err(_) => panic!("slash traps"),
            Ok(Err(e)) => return Err(e),
            Ok(Ok(t)) => t,
        };
        self.pool_transfer(&[], receiver, slashed)?;
        Ok(())
    }

    fn get_claim_deposit_subaccount(&self, user: &[u8], receiver: &[u8], amount: u128, pool: &[u8], desc: &str)
        -> [u8; 32] {
        get_claim_deposit_subaccount(user, receiver, amount, pool, desc)
    }

    fn transfer_to_deposit_subaccount(&mut self, caller: &[u8], subaccount: [u8; 32], amount: u128) {
        let claim_id = self.claim_canister.clone();
        self.ledger.transfer(caller, &[], &claim_id, &subaccount, amount);
    }

    fn add_claim(&mut self, caller: &[u8], receiver: &[u8], amount: u128, pool: &[u8], desc: String)
        -> Result<u64, ClaimError> {
        if self.registry.requires_claim_deposit() {
            let sub = get_claim_deposit_subaccount(caller, receiver, amount, pool, &desc);
            let reply = Some(self.ledger.balance_of(&self.claim_canister, &sub));
            let balance = claim_balance_outcome(&self.registry.ledger_canister_id, reply)?;
            self.registry.check_claim_deposit(balance)?;
        }
        Ok(self.registry.add_claim(caller, receiver, amount, pool, desc, self.now_ns))
    }

    fn approve_claim(&mut self, caller: &[u8], claim_id: u64) -> Result<(), ClaimError> {
        self.registry.approve_claim(caller, claim_id, self.now_ns)
    }

    fn execute_claim(&mut self, claim_id: u64) -> Result<(), ClaimError> {
        let order = self.registry.execute_claim_begin(claim_id, self.now_ns)?;
        let reply = self.pool_slash(&order.receiver, order.amount).map_err(to_slash_error);
        let call_result: Result<(Result<(), SlashError>,), String> = Ok((reply.clone(),));
        let text = format!("{:?}", call_result);
        self.registry.execute_claim_finish(claim_id, Some(reply), text)
    }

    fn withdraw_deposit(&mut self, caller: &[u8], claim_id: u64) -> Result<(), ClaimError> {
        let refund = self.registry.withdraw_deposit_begin(caller, claim_id, self.now_ns)?;
        if let Some(net) = plan_claim_transfer(&self.ledger_id, refund.amount)? {
            let claim_id = self.claim_canister.clone();
            claim_transfer_outcome(self.ledger.transfer(&claim_id, &refund.subaccount, &refund.proposer, &[], net))?;
        }
        Ok(())
    }

    fn get_claim(&self, claim_id: u64) -> Option<ClaimInfo> {
        self.registry.get_claim(claim_id)
    }
}

/// Funds `proposer` from the owner, pays the claim deposit into its subaccount and files the claim.
fn file_claim(env: &mut Env, proposer: &[u8], receiver: &[u8], claim_amount: u128, desc: &str, deposit: u128)
    -> u64 {
    let owner = env.owner.clone();
    let pool = env.pool_canister.clone();
    if proposer != owner.as_slice() {
        env.user_transfer(&owner, proposer, 10_000_000);
    }
    let subaccount = env.get_claim_deposit_subaccount(proposer, receiver, claim_amount, &pool, desc);
    env.transfer_to_deposit_subaccount(proposer, subaccount, deposit);
    env.add_claim(proposer, receiver, claim_amount, &pool, desc.to_string()).expect("add_claim should succeed")
}

#[test]
fn test_claim_positive_flow() {
    let mut env = setup();
    let owner = env.owner.clone();
    let receiver = bytes_principal(3);
    let amount: u128 = 1_000_000;
    let desc = "Insurance payout for property damage";
    let claim_id = file_claim(&mut env, &owner, &receiver, amount, desc, 1_000_000);

    env.approve_claim(&owner, claim_id).expect("approve_claim should succeed");
    let claim_info = env.get_claim(claim_id).expect("expected claim to exist after approval");
    assert_eq!(claim_info.status, ClaimStatus::Approved);

    env.advance_time(EXECUTION_TIMEOUT_NANOS);
    let balance_before = env.balance(&receiver);
    env.execute_claim(claim_id).expect("execute_claim should succeed");
    let final_info = env.get_claim(claim_id).expect("expected claim to exist after execution");
    assert_eq!(final_info.status, ClaimStatus::Executed);

    let balance_after = env.balance(&receiver);
    let expected_balance = balance_before + amount - TRANSFER_FEE;
    assert_eq!(
        balance_after, expected_balance,
        "Receiver balance should increase by the claim amount minus transfer fee. Before: {}, After: {}, Expected: {}",
        balance_before, balance_after, expected_balance
    );
}

#[test]
fn test_execute_only_after_timelock() {
    let mut env = setup();
    let owner = env.owner.clone();
    let receiver = bytes_principal(3);
    let claim_id = file_claim(&mut env, &owner, &receiver, 1_000_000, "Timelock test", 1_000_000);
    env.approve_claim(&owner, claim_id).expect("approve_claim should succeed");

    let exec_result = env.execute_claim(claim_id);
    assert_eq!(exec_result, Err(ClaimError::ExecutionTimeoutNotExpired));

    env.advance_time(EXECUTION_TIMEOUT_NANOS);
    env.execute_claim(claim_id).expect("execute_claim should succeed after execution timeout");
    let final_info = env.get_claim(claim_id).expect("expected claim to exist after execution");
    assert_eq!(final_info.status, ClaimStatus::Executed);
}

#[test]
fn test_cannot_execute_same_claim_multiple_times() {
    let mut env = setup();
    let owner = env.owner.clone();
    let receiver = bytes_principal(4);
    let claim_id = file_claim(&mut env, &owner, &receiver, 1_000_000, "Double execute test", 1_000_000);
    env.approve_claim(&owner, claim_id).expect("approve_claim should succeed");
    env.advance_time(EXECUTION_TIMEOUT_NANOS);

    let first_result = env.execute_claim(claim_id);
    assert_eq!(first_result, Ok(()));
    let claim_info1 = env.get_claim(claim_id).expect("claim should exist");
    assert_eq!(claim_info1.status, ClaimStatus::Executed);

    let second_result = env.execute_claim(claim_id);
    assert_eq!(second_result, Err(ClaimError::AlreadyExecuted));
    let claim_info2 = env.get_claim(claim_id).expect("claim should still exist");
    assert_eq!(claim_info2.status, ClaimStatus::Executed);
}

#[test]
fn test_execute_before_approval_not_possible() {
    let mut env = setup();
    let owner = env.owner.clone();
    let receiver = bytes_principal(5);
    let claim_id = file_claim(&mut env, &owner, &receiver, 777, "Execute before approval", 1_000_000);
    let exec_result = env.execute_claim(claim_id);
    assert_eq!(exec_result, Err(ClaimError::NotApproved));
}

#[test]
fn test_only_owner_can_change_approvers() {
    let mut env = setup();
    let owner = env.owner.clone();
    let other = bytes_principal(9);

    let add_result_non_owner = env.registry.add_approver(&other, &other);
    assert_eq!(add_result_non_owner, Err(ClaimError::InsufficientPermissions));
    let add_result_owner = env.registry.add_approver(&owner, &other);
    assert_eq!(add_result_owner, Ok(()));
    let remove_result_non_owner = env.registry.remove_approver(&other, &other);
    assert_eq!(remove_result_non_owner, Err(ClaimError::InsufficientPermissions));
    let remove_result_owner = env.registry.remove_approver(&owner, &other);
    assert_eq!(remove_result_owner, Ok(()));
    let is_approver = env.registry.is_approver(&other);
    assert!(!is_approver, "Approver should be removed and no longer be able to approve");
}

#[test]
fn test_claim_status_reverts_to_approved_on_slash_failure() {
    let mut env = setup();
    let owner = env.owner.clone();
    let receiver = bytes_principal(6);
    let amount: u128 = 200_000_000_000;
    let claim_id = file_claim(&mut env, &owner, &receiver, amount, "Slash failure test", 1_000_000);
    env.approve_claim(&owner, claim_id).expect("approve_claim should succeed");
    env.advance_time(EXECUTION_TIMEOUT_NANOS);

    let exec_result = env.execute_claim(claim_id);
    assert_eq!(exec_result, Err(ClaimError::PoolCallFailed("Ok((Err(InsufficientBalance),))".to_string())));
    let claim_info = env.get_claim(claim_id).expect("expected claim to exist after failed slash");
    assert_eq!(claim_info.status, ClaimStatus::Approved);
}

#[test]
fn test_claim_creation_requires_deposit() {
    let mut env = setup();
    let owner = env.owner.clone();
    let pool = env.pool_canister.clone();
    let proposer = bytes_principal(10);
    let receiver = bytes_principal(11);
    env.user_transfer(&owner, &proposer, 10_000_000);

    let required_deposit = env.registry.get_claim_deposit();
    assert_eq!(required_deposit, 1_000_000);
    let balance_before = env.balance(&proposer);

    let claim_amount: u128 = 5_000_000;
    let claim_desc = "Test claim with deposit".to_string();
    let subaccount = env.get_claim_deposit_subaccount(&proposer, &receiver, claim_amount, &pool, &claim_desc);
    env.transfer_to_deposit_subaccount(&proposer, subaccount, required_deposit);
    let claim_id = env.add_claim(&proposer, &receiver, claim_amount, &pool, claim_desc)
        .expect("add_claim should succeed");

    let balance_after = env.balance(&proposer);
    let expected_balance = balance_before - required_deposit - TRANSFER_FEE;
    assert_eq!(balance_after, expected_balance);

    let claim_info = env.get_claim(claim_id).unwrap();
    assert_eq!(claim_info.deposit_amount, required_deposit);
    assert_eq!(claim_info.proposer, proposer);
    assert_eq!(claim_info.status, ClaimStatus::Pending);
}

#[test]
fn test_deposit_not_returned_on_approval() {
    let mut env = setup();
    let owner = env.owner.clone();
    let proposer = bytes_principal(12);
    let receiver = bytes_principal(13);
    let claim_id = file_claim(&mut env, &proposer, &receiver, 2_000_000, "Approval test", 1_000_000);
    let balance_after_claim = env.balance(&proposer);
    env.approve_claim(&owner, claim_id).expect("approve_claim should succeed");
    let balance_after_approval = env.balance(&proposer);
    assert_eq!(balance_after_approval, balance_after_claim);
}

#[test]
fn test_withdraw_deposit_from_pending_claim() {
    let mut env = setup();
    let proposer = bytes_principal(14);
    let receiver = bytes_principal(15);
    let claim_id = file_claim(&mut env, &proposer, &receiver, 3_000_000, "Withdraw deposit test", 1_000_000);
    let balance_after_claim = env.balance(&proposer);

    env.advance_time(APPROVAL_PERIOD_NANOS);
    env.withdraw_deposit(&proposer, claim_id).expect("withdraw_deposit should succeed");
    let balance_after_withdraw = env.balance(&proposer);
    let expected_balance = balance_after_claim + 1_000_000 - TRANSFER_FEE;
    assert_eq!(balance_after_withdraw, expected_balance);
}

#[test]
fn test_mark_as_spam_blocks_deposit_withdrawal() {
    let mut env = setup();
    let owner = env.owner.clone();
    let proposer = bytes_principal(16);
    let receiver = bytes_principal(17);
    let claim_id = file_claim(&mut env, &proposer, &receiver, 2_000_000, "Spam test", 1_000_000);
    let balance_after_claim = env.balance(&proposer);

    env.registry.mark_as_spam(&owner, claim_id).expect("mark_as_spam should succeed");
    let claim_info = env.get_claim(claim_id).unwrap();
    assert_eq!(claim_info.status, ClaimStatus::Spam);

    let withdraw_result = env.withdraw_deposit(&proposer, claim_id);
    assert_eq!(withdraw_result, Err(ClaimError::AlreadyMarkedAsSpam), "Withdrawal should be blocked for spam claims");
    let balance_after_withdraw_attempt = env.balance(&proposer);
    assert_eq!(balance_after_withdraw_attempt, balance_after_claim, "Balance should remain unchanged");
}

#[test]
fn test_can_mark_approved_claim_as_spam() {
    let mut env = setup();
    let owner = env.owner.clone();
    let proposer = bytes_principal(18);
    let receiver = bytes_principal(19);
    let claim_id = file_claim(&mut env, &proposer, &receiver, 1_000_000, "Can mark approved as spam", 1_000_000);
    env.approve_claim(&owner, claim_id).expect("approve_claim should succeed");
    env.registry.mark_as_spam(&owner, claim_id).expect("mark_as_spam should succeed for approved claims");
    let claim_info = env.get_claim(claim_id).unwrap();
    assert_eq!(claim_info.status, ClaimStatus::Spam);
}

#[test]
fn test_only_approver_can_mark_as_spam() {
    let mut env = setup();
    let owner = env.owner.clone();
    let proposer = bytes_principal(20);
    let receiver = bytes_principal(21);
    let non_approver = bytes_principal(22);
    let claim_id = file_claim(&mut env, &proposer, &receiver, 1_000_000, "Only approver can mark spam", 1_000_000);

    let mark_result = env.registry.mark_as_spam(&non_approver, claim_id);
    assert_eq!(mark_result, Err(ClaimError::NotApprover));
    env.registry.mark_as_spam(&owner, claim_id).expect("mark_as_spam should succeed for approver");
    let claim_info = env.get_claim(claim_id).unwrap();
    assert_eq!(claim_info.status, ClaimStatus::Spam);
}

#[test]
fn test_only_owner_can_set_claim_deposit() {
    let mut env = setup();
    let owner = env.owner.clone();
    let non_owner = bytes_principal(23);
    let set_result = env.registry.set_claim_deposit(&non_owner, 2_000_000);
    assert_eq!(set_result, Err(ClaimError::InsufficientPermissions));
    env.registry.set_claim_deposit(&owner, 2_000_000).expect("set_claim_deposit should succeed for owner");
    let new_deposit = env.registry.get_claim_deposit();
    assert_eq!(new_deposit, 2_000_000);
}

#[test]
fn test_only_proposer_can_withdraw_deposit() {
    let mut env = setup();
    let proposer = bytes_principal(24);
    let receiver = bytes_principal(25);
    let other = bytes_principal(26);
    let claim_id = file_claim(&mut env, &proposer, &receiver, 1_000_000, "Only proposer can withdraw", 1_000_000);

    let withdraw_result = env.withdraw_deposit(&other, claim_id);
    assert_eq!(withdraw_result, Err(ClaimError::NotProposer));
    env.advance_time(APPROVAL_PERIOD_NANOS);
    let claim_info = env.get_claim(claim_id).unwrap();
    println!("claim_info after approval period: {:?}", claim_info);
    env.withdraw_deposit(&proposer, claim_id).expect("withdraw_deposit should succeed for proposer");
}

#[test]
fn test_can_withdraw_deposit_from_approved_claim() {
    let mut env = setup();
    let owner = env.owner.clone();
    let proposer = bytes_principal(27);
    let receiver = bytes_principal(28);
    let claim_id = file_claim(&mut env, &proposer, &receiver, 1_000_000, "Can withdraw from approved", 1_000_000);
    let balance_after_claim = env.balance(&proposer);

    env.approve_claim(&owner, claim_id).expect("approve_claim should succeed");
    let withdraw_result = env.withdraw_deposit(&proposer, claim_id);
    assert_eq!(withdraw_result, Err(ClaimError::AlreadyApproved), "Withdraw should fail before approval period expires");

    env.advance_time(EXECUTION_TIMEOUT_NANOS);
    env.withdraw_deposit(&proposer, claim_id).expect("withdraw_deposit should succeed after approval period expires");
    let balance_after_withdraw = env.balance(&proposer);
    let expected_balance = balance_after_claim + 1_000_000 - TRANSFER_FEE;
    assert_eq!(balance_after_withdraw, expected_balance);

    let claim_info = env.get_claim(claim_id).unwrap();
    assert_eq!(claim_info.deposit_amount, 0, "Deposit amount should be 0 after withdrawal");
    let second_withdraw_result = env.withdraw_deposit(&proposer, claim_id);
    assert_eq!(second_withdraw_result, Err(ClaimError::NoDepositToWithdraw), "Second withdrawal should fail");
}
