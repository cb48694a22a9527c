//! Pool scenarios: a simulated ledger and clock drive the library the way
//! the canister endpoints do.

use std::collections::HashMap;

use candid::Principal;
use sha2::{Digest, Sha256};

use satsurance::coverage::{calculate_premium, check_premium_balance};
use satsurance::deposits::check_deposit_balance;
use satsurance::episodes::{
    get_current_episode_id, get_episode_time_to_end, get_stakable_episode_with_client, time_to_next_episode,
};
use satsurance::hashing::{get_deposit_subaccount, get_purchase_subaccount, get_reward_subaccount};
use satsurance::ledger::{balance_outcome, get_ledger_principal, plan_transfer, transfer_outcome, TransferReply};
use satsurance::pool::Pool;
use satsurance::types::{Coverage, Deposit, Episode, PoolError, PoolState, Product, UserDepositInfo};
use satsurance::{EPISODE_DURATION, MINIMUM_DEPOSIT_AMOUNT, PRECISION_SCALE, TRANSFER_FEE};

const START_NS: u64 = 1_700_000_000_000_000_000;
const NANOS: u64 = 1_000_000_000;
const ALLOWED_ERROR: u128 = 10;

const USER: &str = "xkbqi-2qaaa-aaaah-qbpqq-cai";
const USER1: &str = "rdmx6-jaaaa-aaaaa-aaadq-cai";
const USER2: &str = "rrkah-fqaaa-aaaaa-aaaaq-cai";
const USER3: &str = "ryjl3-tyaaa-aaaaa-aaaba-cai";

fn principal(text: &str) -> Vec<u8> {
    Principal::from_text(text).unwrap().as_slice().to_vec()
}

fn pool_canister() -> Vec<u8> {
    Principal::from_slice(&[0, 0, 0, 0, 0, 0x10, 0, 0x42, 1, 1]).as_slice().to_vec()
}

fn ledger_canister() -> Vec<u8> {
    Principal::from_slice(&[0, 0, 0, 0, 0, 0x10, 0, 0x43, 1, 1]).as_slice().to_vec()
}

fn assert_close(actual: u128, expected: u128, allowed: u128, message: &str) {
    let diff = if actual > expected { actual - expected } else { expected - actual };
    assert!(
        diff <= allowed,
        "{}: expected {}, got {}, error {}, allowed error {}",
        message,
        expected,
        actual,
        diff,
        allowed
    );
}

/// An ICRC-1 ledger: balances per (owner, subaccount), a fixed fee per transfer.
#[derive(Default)]
struct Ledger {
    balances: HashMap<(Vec<u8>, Vec<u8>), u128>,
}

impl Ledger {
    fn balance_of(&self, owner: &[u8], sub: &[u8]) -> u128 {
        *self.balances.get(&(owner.to_vec(), sub.to_vec())).unwrap_or(&0)
    }

    fn transfer(&mut self, from: &[u8], from_sub: &[u8], to: &[u8], to_sub: &[u8], amount: u128) -> TransferReply {
        let have = self.balance_of(from, from_sub);
        match amount.checked_add(TRANSFER_FEE) {
            Some(need) if need <= have => {
                self.balances.insert((from.to_vec(), from_sub.to_vec()), have - need);
                let current = self.balance_of(to, to_sub);
                self.balances.insert((to.to_vec(), to_sub.to_vec()), current + amount);
                TransferReply::Accepted(0)
            }
            _ => TransferReply::Rejected,
        }
    }
}

/// The pool canister with its ledger and a clock whose timer brings the
/// pool up to date once an episode boundary has passed.
struct Env {
    pool: Pool,
    ledger: Ledger,
    now_ns: u64,
    timer_at: u64,
    canister: Vec<u8>,
}

impl Env {
    fn new(funded: &[(&str, u128)]) -> Env {
        let executor = principal(USER1);
        let mut pool = Pool::new(ledger_canister(), executor.clone(), START_NS);
        pool.set_pool_manager_principal(&executor, &principal(USER2)).unwrap();
        let mut ledger = Ledger::default();
        for (who, amount) in funded {
            ledger.balances.insert((principal(who), vec![]), *amount);
        }
        let start = START_NS / NANOS;
        Env { pool, ledger, now_ns: START_NS, timer_at: start + time_to_next_episode(start), canister: pool_canister() }
    }

    fn standard() -> Env {
        Env::new(&[
            (USER1, 10_000_000_000),
            (USER2, 10_000_000_000),
            (USER3, 10_000_000_000),
            (USER, 10_000_000_000),
        ])
    }

    fn now_secs(&self) -> u64 {
        self.now_ns / NANOS
    }

    fn advance_time(&mut self, secs: u64) {
        self.now_ns += secs * NANOS;
        let now = self.now_secs();
        if now >= self.timer_at {
            self.pool.process_episodes(self.now_ns).expect("the episode timer traps");
            self.timer_at = now + time_to_next_episode(now);
        }
    }

    fn current_episode(&self) -> u64 {
        get_current_episode_id(self.now_ns)
    }

    fn stakable_episode(&self, relative: u8) -> u64 {
        get_stakable_episode_with_client(self.current_episode(), relative)
    }

    fn time_to_end(&self, episode: u64) -> u64 {
        get_episode_time_to_end(episode, self.now_secs())
    }

    fn balance(&self, owner: &str) -> u128 {
        self.ledger.balance_of(&principal(owner), &[])
    }

    fn main_balance(&self) -> u128 {
        self.ledger.balance_of(&self.canister, &[])
    }

    fn user_transfer(&mut self, from: &str, sub: &[u8], amount: u128) -> TransferReply {
        let canister = self.canister.clone();
        self.ledger.transfer(&principal(from), &[], &canister, sub, amount)
    }

    fn subaccount_balance(&self, sub: &[u8]) -> Result<u128, PoolError> {
        get_ledger_principal(&self.pool.token_id)?;
        balance_outcome(Some(self.ledger.balance_of(&self.canister, sub)))
    }

    fn pool_transfer(&mut self, from_sub: &[u8], to: &[u8], gross: u128) -> Result<u128, PoolError> {
        let net = plan_transfer(&self.pool.token_id, gross)?;
        let canister = self.canister.clone();
        transfer_outcome(self.ledger.transfer(&canister, from_sub, to, &[], net))
    }

    fn deposit(&mut self, user: &str, episode: u64) -> Result<(), PoolError> {
        match self.pool.deposit_begin(self.now_ns, episode) {
            Err(_) => panic!("deposit traps"),
            Ok(Err(e)) => return Err(e),
            Ok(Ok(())) => {}
        }
        let user = principal(user);
        let sub = get_deposit_subaccount(&user, episode);
        let balance = self.subaccount_balance(&sub)?;
        check_deposit_balance(balance)?;
        let canister = self.canister.clone();
        self.pool_transfer(&sub, &canister, balance)?;
        self.pool.deposit_finish(&user, episode, balance).expect("deposit traps");
        Ok(())
    }

    fn withdraw(&mut self, caller: &str, deposit_id: u64) -> Result<(), PoolError> {
        let caller = principal(caller);
        let plan = match self.pool.withdraw_begin(self.now_ns, &caller, deposit_id) {
            Err(_) => panic!("withdraw traps"),
            Ok(Err(e)) => return Err(e),
            Ok(Ok(plan)) => plan,
        };
        if self.pool_transfer(&[], &caller, plan.total_transfer_amount).is_err() {
            return Err(PoolError::TransferFailed);
        }
        self.pool.withdraw_finish(&caller, deposit_id, plan).expect("withdraw traps");
        Ok(())
    }

    fn reward_pool(&mut self) -> Result<(), PoolError> {
        self.pool.process_episodes(self.now_ns).expect("reward_pool traps");
        let sub = get_reward_subaccount();
        let balance = self.subaccount_balance(&sub)?;
        let canister = self.canister.clone();
        self.pool_transfer(&sub, &canister, balance)?;
        self.pool.reward_pool_finish(balance, self.now_ns).expect("reward_pool traps");
        Ok(())
    }

    fn withdraw_rewards(&mut self, caller: &str, deposit_ids: Vec<u64>) -> Result<u128, PoolError> {
        let caller = principal(caller);
        let total = match self.pool.withdraw_rewards_begin(&caller, &deposit_ids) {
            Err(_) => panic!("withdraw_rewards traps"),
            Ok(Err(e)) => return Err(e),
            Ok(Ok(total)) => total,
        };
        self.pool_transfer(&[], &caller, total)?;
        Ok(total)
    }

    fn get_deposits_rewards(&self, deposit_ids: Vec<u64>) -> u128 {
        self.pool.get_deposits_rewards(&deposit_ids).expect("get_deposits_rewards traps")
    }

    fn update_episodes_state(&mut self) {
        self.pool.update_episodes_state(self.now_ns).expect("update_episodes_state traps");
    }

    fn get_user_deposits(&self, user: &str) -> Vec<UserDepositInfo> {
        self.pool.get_user_deposits(&principal(user)).expect("get_user_deposits traps")
    }

    fn slash(&mut self, caller: &str, receiver: &str, amount: u128) -> Result<(), PoolError> {
        let slashed = match self.pool.slash_begin(&principal(caller), amount, self.now_ns) {
            Err(_) => panic!("slash traps"),
            Ok(Err(e)) => return Err(e),
            Ok(Ok(t)) => t,
        };
        self.pool_transfer(&[], &principal(receiver), slashed)?;
        Ok(())
    }

    fn create_product(&mut self, caller: &str, name: &str, annual_percent: u64, max_duration: u64,
        max_allocation: u64) -> Result<u64, PoolError> {
        self.pool.create_product(&principal(caller), name.to_string(), annual_percent, max_duration, max_allocation,
            self.now_ns)
    }

    fn get_products(&self) -> Vec<Product> {
        self.pool.get_products(self.now_ns).expect("get_products traps")
    }

    fn purchase_coverage(&mut self, caller: &str, product_id: u64, covered: &str, duration: u64, amount: u128)
        -> Result<(), PoolError> {
        let buyer = principal(caller);
        let quote = match self.pool.purchase_coverage_begin(self.now_ns, product_id, &principal(covered), duration,
            amount) {
            Err(_) => panic!("purchase_coverage traps"),
            Ok(Err(e)) => return Err(e),
            Ok(Ok(q)) => q,
        };
        let sub = get_purchase_subaccount(&buyer, product_id);
        let balance = self.subaccount_balance(&sub)?;
        let payment = check_premium_balance(balance, quote.premium_amount)?;
        let canister = self.canister.clone();
        self.pool_transfer(&sub, &canister, payment.premium_amount)?;
        if let Some(refund) = payment.refund {
            let _ = self.ledger.transfer(&canister, &sub, &buyer, &[], refund);
        }
        self.pool
            .purchase_coverage_finish(self.now_ns, &buyer, product_id, &principal(covered), duration, amount, quote)
            .expect("purchase_coverage traps");
        Ok(())
    }

    fn get_coverages(&self, user: &str) -> Vec<Coverage> {
        self.pool.get_coverages(&principal(user))
    }

    /// Pays `amount` into the deposit subaccount of `episode`, then stakes it.
    fn create_deposit(&mut self, user: &str, amount: u128, episode: u64) -> Result<(), String> {
        let sub = get_deposit_subaccount(&principal(user), episode);
        match self.user_transfer(user, &sub, amount) {
            TransferReply::Accepted(_) => {}
            other => return Err(format!("Transfer failed: {:?}", other)),
        }
        self.deposit(user, episode).map_err(|e| format!("Deposit failed: {:?}", e))
    }

    /// Pays `reward_amount` (plus the fee to sweep it) into the reward subaccount, then rewards the pool.
    fn add_rewards(&mut self, user: &str, reward_amount: u128) -> Result<(), String> {
        let sub = get_reward_subaccount();
        match self.user_transfer(user, &sub, reward_amount + TRANSFER_FEE) {
            TransferReply::Accepted(_) => {}
            other => return Err(format!("Transfer failed: {:?}", other)),
        }
        self.reward_pool().map_err(|e| format!("Reward pool failed: {:?}", e))
    }

    /// Pays `premium` into the purchase subaccount, then buys the cover.
    fn buy_coverage(&mut self, buyer: &str, product_id: u64, covered: &str, duration: u64, amount: u128,
        premium: u128) -> Result<(), String> {
        let sub = get_purchase_subaccount(&principal(buyer), product_id);
        match self.user_transfer(buyer, &sub, premium) {
            TransferReply::Accepted(_) => {}
            other => return Err(format!("Transfer to subaccount failed: {:?}", other)),
        }
        self.purchase_coverage(buyer, product_id, covered, duration, amount)
            .map_err(|e| format!("Coverage purchase failed: {:?}", e))
    }
}

fn single_user_setup() -> Env {
    Env::new(&[(USER, 1_000_000_000)])
}

fn check_deposit_subaccount() {
    let user = principal(USER);
    let episode: u64 = 123456789;
    let returned_subaccount = get_deposit_subaccount(&user, episode);
    let mut hasher = Sha256::new();
    hasher.update(&user);
    hasher.update(episode.to_be_bytes());
    let expected_subaccount: [u8; 32] = hasher.finalize().into();
    assert_eq!(returned_subaccount, expected_subaccount);
}

#[test]
fn deposit_tests_test_get_deposit_subaccount() {
    check_deposit_subaccount();
}

#[test]
fn test_test_get_deposit_subaccount() {
    check_deposit_subaccount();
}

fn check_deposit_fails_without_transfer(mut env: Env) {
    let current_episode = env.stakable_episode(0);
    let result = env.deposit(USER, current_episode);
    assert!(
        matches!(result, Err(PoolError::InsufficientBalance)),
        "Expected InsufficientBalance error, got: {:?}",
        result
    );
}

#[test]
fn deposit_tests_test_deposit_fails_without_transfer() {
    check_deposit_fails_without_transfer(Env::standard());
}

#[test]
fn test_test_deposit_fails_without_transfer() {
    check_deposit_fails_without_transfer(single_user_setup());
}

fn check_shares_calculation(mut env: Env) {
    let current_episode = env.stakable_episode(0);
    let deposit_amount: u128 = 200_000_000;
    env.create_deposit(USER, deposit_amount, current_episode).expect("First deposit should succeed");
    let pool_state = env.pool.get_pool_state();
    let expected_amount = deposit_amount - TRANSFER_FEE;
    assert_eq!(pool_state.total_assets, expected_amount, "Pool should have correct assets");
    assert_eq!(pool_state.total_shares, expected_amount, "Pool should have correct shares");

    let next_episode = env.stakable_episode(1);
    env.create_deposit(USER, deposit_amount, next_episode).expect("Second deposit should succeed");
    let pool_state_after = env.pool.get_pool_state();
    let expected_total_assets = (deposit_amount - TRANSFER_FEE) * 2;
    let expected_total_shares = (deposit_amount - TRANSFER_FEE) * 2;
    assert_eq!(pool_state_after.total_assets, expected_total_assets, "Pool should have doubled assets");
    assert_eq!(pool_state_after.total_shares, expected_total_shares, "Pool should have doubled shares");

    let user1_deposits = env.get_user_deposits(USER);
    assert_eq!(user1_deposits.len(), 2, "User should have 2 deposits");
    assert_eq!(user1_deposits[0].shares, user1_deposits[1].shares, "Both deposits should have equal shares");
    assert_eq!(user1_deposits[0].amount, user1_deposits[1].amount, "Both deposits should have equal amount");
    let expected_shares = deposit_amount - TRANSFER_FEE;
    assert_eq!(user1_deposits[0].shares, expected_shares, "First deposit should have expected shares");
    assert_eq!(user1_deposits[1].shares, expected_shares, "Second deposit should have expected shares");
}

#[test]
fn deposit_tests_test_shares_calculation() {
    check_shares_calculation(Env::standard());
}

#[test]
fn test_test_shares_calculation() {
    check_shares_calculation(single_user_setup());
}

fn check_deposit_fails_below_minimum_amount(mut env: Env, small_deposit_amount: u128) {
    let current_episode = env.stakable_episode(0);
    let subaccount = get_deposit_subaccount(&principal(USER), current_episode);
    let transfer_result = env.user_transfer(USER, &subaccount, small_deposit_amount);
    assert!(matches!(transfer_result, TransferReply::Accepted(_)), "Transfer should succeed");
    let result = env.deposit(USER, current_episode);
    assert!(
        matches!(result, Err(PoolError::InsufficientBalance)),
        "Expected InsufficientBalance error for deposit below minimum, got: {:?}",
        result
    );
}

#[test]
fn deposit_tests_test_deposit_fails_below_minimum_amount() {
    check_deposit_fails_below_minimum_amount(Env::standard(), 500);
}

#[test]
fn test_test_deposit_fails_below_minimum_amount() {
    check_deposit_fails_below_minimum_amount(single_user_setup(), 50_000);
}

fn check_deposit_flow(mut env: Env) {
    let deposit_amount: u128 = 100_000_000;
    let current_episode = env.stakable_episode(0);
    env.create_deposit(USER, deposit_amount, current_episode).expect("Deposit should succeed");
    let canister_balance = env.main_balance();
    let expected_balance = deposit_amount - TRANSFER_FEE;
    assert_eq!(canister_balance, expected_balance, "Canister should have received the exact expected tokens");
    let pool_state = env.pool.get_pool_state();
    let expected_assets = deposit_amount - TRANSFER_FEE;
    assert_eq!(pool_state.total_assets, expected_assets, "Pool should have correct total assets");
    assert_eq!(pool_state.total_shares, expected_assets, "First deposit should have 1:1 share ratio");
}

#[test]
fn deposit_tests_test_deposit_flow() {
    check_deposit_flow(Env::standard());
}

#[test]
fn test_test_deposit_flow() {
    check_deposit_flow(single_user_setup());
}

fn check_successful_withdrawal(mut env: Env) {
    let deposit_amount: u128 = 100_000_000;
    let initial_balance = env.balance(USER);
    let current_episode = env.stakable_episode(0);
    env.create_deposit(USER, deposit_amount, current_episode).expect("Deposit should succeed");
    let current_episode_time_to_end = env.time_to_end(current_episode);
    env.advance_time(current_episode_time_to_end);

    let result = env.withdraw(USER, 0);
    assert!(matches!(result, Ok(_)), "Withdraw failed: {:?}", result);

    let final_balance = env.balance(USER);
    let expected_balance = initial_balance - TRANSFER_FEE * 3;
    assert_eq!(
        final_balance, expected_balance,
        "User should have received tokens back. Initial: {}, Final: {}, Expected: {}",
        initial_balance, final_balance, expected_balance
    );
    let pool_state = env.pool.get_pool_state();
    assert_eq!(pool_state.total_assets, 0, "Pool should have no assets after withdrawal");
    assert_eq!(pool_state.total_shares, 0, "Pool should have no shares after withdrawal");
}

#[test]
fn deposit_tests_test_successful_withdrawal() {
    check_successful_withdrawal(Env::standard());
}

#[test]
fn test_test_successful_withdrawal() {
    check_successful_withdrawal(single_user_setup());
}

fn check_deposit_episode_validation(mut env: Env) {
    let deposit_amount: u128 = 100_000_000;
    let current_episode = env.current_episode();
    if current_episode > 0 {
        let past_episode = current_episode - 1;
        let subaccount = get_deposit_subaccount(&principal(USER), past_episode);
        env.user_transfer(USER, &subaccount, deposit_amount);
        let result = env.deposit(USER, past_episode);
        assert!(
            matches!(result, Err(PoolError::EpisodeNotActive)),
            "Expected EpisodeNotActive error for past episode, got: {:?}",
            result
        );
    }

    let first_stakable_episode = env.stakable_episode(0);
    let non_stakable_episode = first_stakable_episode + 1;
    let subaccount = get_deposit_subaccount(&principal(USER), non_stakable_episode);
    env.user_transfer(USER, &subaccount, deposit_amount);
    let result = env.deposit(USER, non_stakable_episode);
    assert!(
        matches!(result, Err(PoolError::EpisodeNotStakable)),
        "Expected EpisodeNotStakable error for non-stakable episode, got: {:?}",
        result
    );

    let latest_stakable_episode = env.stakable_episode(7);
    let far_future_stakable_episode = latest_stakable_episode + 3;
    let subaccount = get_deposit_subaccount(&principal(USER), far_future_stakable_episode);
    env.user_transfer(USER, &subaccount, deposit_amount);
    let result = env.deposit(USER, far_future_stakable_episode);
    assert!(
        matches!(result, Err(PoolError::EpisodeNotActive)),
        "Expected EpisodeNotActive error for far future stakable episode, got: {:?}",
        result
    );

    let current_episode = env.stakable_episode(7);
    env.create_deposit(USER, deposit_amount, current_episode).expect("Deposit should succeed");
    let user_deposits = env.get_user_deposits(USER);
    assert_eq!(user_deposits.len(), 1, "User should have 1 deposit");
    assert_eq!(user_deposits[0].episode, current_episode, "Deposit should be in the stakable episode");
}

#[test]
fn deposit_tests_test_deposit_episode_validation() {
    check_deposit_episode_validation(Env::standard());
}

#[test]
fn test_test_deposit_episode_validation() {
    check_deposit_episode_validation(single_user_setup());
}

fn check_withdraw_before_timelock(mut env: Env) {
    let deposit_amount: u128 = 100_000_000;
    let current_episode = env.stakable_episode(0);
    env.create_deposit(USER, deposit_amount, current_episode).expect("Deposit should succeed");
    let result = env.withdraw(USER, 0);
    assert!(
        matches!(result, Err(PoolError::TimelockNotExpired)),
        "Expected TimelockNotExpired error, got: {:?}",
        result
    );
}

#[test]
fn deposit_tests_test_withdraw_before_timelock() {
    check_withdraw_before_timelock(Env::standard());
}

#[test]
fn test_test_withdraw_before_timelock() {
    check_withdraw_before_timelock(single_user_setup());
}

fn check_withdraw_invalid_deposit_id(mut env: Env) {
    let result = env.withdraw(USER, 999);
    assert!(matches!(result, Err(PoolError::NoDeposit)), "Expected NoDeposit error, got: {:?}", result);
}

#[test]
fn deposit_tests_test_withdraw_invalid_deposit_id() {
    check_withdraw_invalid_deposit_id(Env::standard());
}

#[test]
fn test_test_withdraw_invalid_deposit_id() {
    check_withdraw_invalid_deposit_id(single_user_setup());
}

fn check_user_deposit_tracking(mut env: Env) {
    let deposit_amount: u128 = 100_000_000;
    let initial_deposits = env.get_user_deposits(USER);
    assert_eq!(initial_deposits.len(), 0, "User should have no deposits initially");

    let first_episode = env.stakable_episode(0);
    env.create_deposit(USER, deposit_amount, first_episode).expect("Deposit should succeed");
    let deposits_after_first = env.get_user_deposits(USER);
    assert_eq!(deposits_after_first.len(), 1, "User should have 1 deposit");
    assert_eq!(deposits_after_first[0].deposit_id, 0, "First deposit should have ID 0");
    let expected_amount = deposit_amount - TRANSFER_FEE;
    assert_eq!(deposits_after_first[0].shares, expected_amount, "First deposit should have correct shares");
    assert_eq!(deposits_after_first[0].amount, expected_amount, "First deposit amount should equal shares initially");
    assert_eq!(deposits_after_first[0].episode, first_episode, "First deposit should have correct episode");

    let second_episode = env.stakable_episode(1);
    env.create_deposit(USER, deposit_amount, second_episode).expect("Deposit should succeed");
    let deposits_after_second = env.get_user_deposits(USER);
    assert_eq!(deposits_after_second.len(), 2, "User should have 2 deposits");
    assert_eq!(deposits_after_second[0].deposit_id, 0, "First deposit should have ID 0");
    assert_eq!(deposits_after_second[1].deposit_id, 1, "Second deposit should have ID 1");
    assert_eq!(deposits_after_second[1].shares, expected_amount, "Second deposit should have proportional shares");

    let third_episode = env.stakable_episode(2);
    env.create_deposit(USER, deposit_amount, third_episode).expect("Deposit should succeed");
    let third_episode_time_to_end = env.time_to_end(third_episode);
    env.advance_time(third_episode_time_to_end);
    let result = env.withdraw(USER, 2);
    assert!(matches!(result, Ok(_)), "Withdraw failed: {:?}", result);
    let deposits_after_withdraw = env.get_user_deposits(USER);
    assert_eq!(deposits_after_withdraw.len(), 2, "User should have 2 deposits after withdrawal (2 remaining)");
}

#[test]
fn deposit_tests_test_user_deposit_tracking() {
    check_user_deposit_tracking(Env::standard());
}

#[test]
fn test_test_user_deposit_tracking() {
    check_user_deposit_tracking(single_user_setup());
}

fn check_withdraw_invalid_principal(mut env: Env) {
    let deposit_amount: u128 = 100_000_000;
    let current_episode = env.stakable_episode(0);
    env.create_deposit(USER, deposit_amount, current_episode).expect("Deposit should succeed");
    let result = env.withdraw("aaaaa-aa", 0);
    assert!(matches!(result, Err(PoolError::NotOwner)), "Expected NotOwner error, got: {:?}", result);
}

#[test]
fn deposit_tests_test_withdraw_invalid_principal() {
    check_withdraw_invalid_principal(Env::standard());
}

#[test]
fn test_test_withdraw_invalid_principal() {
    check_withdraw_invalid_principal(single_user_setup());
}

fn check_get_deposit(mut env: Env) {
    let deposit_amount: u128 = 100_000_000;
    let non_existent_deposit = env.pool.get_deposit(999);
    assert!(non_existent_deposit.is_none(), "Non-existent deposit should return None");
    let current_episode = env.stakable_episode(0);
    env.create_deposit(USER, deposit_amount, current_episode).expect("Deposit should succeed");
    let deposit = env.pool.get_deposit(0);
    assert!(deposit.is_some(), "Deposit should exist");
    let deposit = deposit.unwrap();
    let expected_amount = deposit_amount - TRANSFER_FEE;
    assert_eq!(deposit.shares, expected_amount, "Deposit should have correct shares");
    assert_eq!(deposit.episode, current_episode, "Deposit should have correct episode");
}

#[test]
fn deposit_tests_test_get_deposit() {
    check_get_deposit(Env::standard());
}

#[test]
fn test_test_get_deposit() {
    check_get_deposit(single_user_setup());
}

#[test]
fn test_withdraw_automatically_collects_rewards() {
    let mut env = Env::standard();
    let deposit_amount: u128 = 100_000_000;
    let reward_amount: u128 = 50_000_000;
    let current_episode = env.stakable_episode(0);
    env.create_deposit(USER, deposit_amount, current_episode).expect("Deposit should succeed");
    env.add_rewards(USER, reward_amount).expect("Reward pool should succeed");

    env.advance_time(EPISODE_DURATION / 4);
    env.update_episodes_state();
    let balance_before = env.balance(USER);

    let time_to_end = env.time_to_end(current_episode);
    env.advance_time(time_to_end + 1);
    env.update_episodes_state();
    let final_pending_rewards = env.get_deposits_rewards(vec![0]);

    let withdraw_result = env.withdraw(USER, 0);
    assert!(withdraw_result.is_ok(), "Withdraw should succeed: {:?}", withdraw_result);
    let balance_after = env.balance(USER);
    let actual_received = balance_after - balance_before;
    let deposit_net_amount = deposit_amount - TRANSFER_FEE;
    let expected_total = deposit_net_amount + final_pending_rewards - TRANSFER_FEE;
    assert_close(actual_received, expected_total, ALLOWED_ERROR,
        "User should receive deposit amount plus rewards");

    let deposit_after = env.pool.get_deposit(0);
    assert!(deposit_after.is_none(), "Deposit should be removed after withdrawal");
    let remaining_rewards = env.get_deposits_rewards(vec![0]);
    assert_eq!(remaining_rewards, 0, "Should have no pending rewards after withdrawal");
}

fn check_timer_episode_processing_exact_reduction(mut env: Env) {
    let deposit_amount_1: u128 = 100_000_000;
    let deposit_amount_2: u128 = 200_000_000;
    let first_episode = env.stakable_episode(0);
    let second_episode = env.stakable_episode(1);

    env.create_deposit(USER, deposit_amount_1, first_episode).expect("First deposit should succeed");
    let pool_after_first = env.pool.get_pool_state();
    let expected_amount_1 = deposit_amount_1 - TRANSFER_FEE;
    assert_eq!(pool_after_first.total_assets, expected_amount_1, "Pool should have first deposit assets");
    assert_eq!(pool_after_first.total_shares, expected_amount_1, "Pool should have first deposit shares");

    env.create_deposit(USER, deposit_amount_2, second_episode).expect("Second deposit should succeed");
    let pool_after_second = env.pool.get_pool_state();
    let expected_amount_2 = deposit_amount_2 - TRANSFER_FEE;
    let expected_total_assets = expected_amount_1 + expected_amount_2;
    let expected_total_shares = expected_amount_1 + expected_amount_2;
    assert_eq!(pool_after_second.total_assets, expected_total_assets, "Pool should have both deposits assets");
    assert_eq!(pool_after_second.total_shares, expected_total_shares, "Pool should have both deposits shares");

    let episode_1_data = env.pool.get_episode(first_episode);
    assert!(episode_1_data.is_some(), "Episode 1 should exist");
    let episode_1 = episode_1_data.unwrap();
    assert_eq!(episode_1.episode_shares, expected_amount_1, "Episode 1 should have correct shares");
    assert_eq!(episode_1.assets_staked, expected_amount_1, "Episode 1 should have correct assets");

    let first_episode_time_to_end = env.time_to_end(first_episode);
    env.advance_time(first_episode_time_to_end);
    let episode_1_processed = env.pool.get_episode(first_episode);
    assert!(episode_1_processed.is_some(), "Episode 1 should still exist after processing");

    let pool_final = env.pool.get_pool_state();
    assert_eq!(
        pool_final.total_assets, expected_amount_2,
        "Pool assets should be reduced by exact episode 1 amount: {} - {} = {}",
        expected_total_assets, expected_amount_1, expected_amount_2
    );
    assert_eq!(
        pool_final.total_shares, expected_amount_2,
        "Pool shares should be reduced by exact episode 1 amount: {} - {} = {}",
        expected_total_shares, expected_amount_1, expected_amount_2
    );

    let episode_2_data = env.pool.get_episode(second_episode);
    assert!(episode_2_data.is_some(), "Episode 2 should exist");
    let episode_2 = episode_2_data.unwrap();
    assert_eq!(episode_2.episode_shares, expected_amount_2, "Episode 2 should have correct shares");
    assert_eq!(episode_2.assets_staked, expected_amount_2, "Episode 2 should have correct assets");
}

#[test]
fn episodes_tests_test_timer_episode_processing_exact_reduction() {
    check_timer_episode_processing_exact_reduction(Env::standard());
}

#[test]
fn test_test_timer_episode_processing_exact_reduction() {
    check_timer_episode_processing_exact_reduction(single_user_setup());
}

fn check_slash_function(mut env: Env, receiver_initial_balance: u128) {
    let deposit_amount_1: u128 = 300_000_000;
    let deposit_amount_2: u128 = 200_000_000;
    let slash_amount: u128 = 100_000_000;

    let first_episode = env.stakable_episode(0);
    env.create_deposit(USER, deposit_amount_1, first_episode).unwrap();
    let second_episode = env.stakable_episode(1);
    env.create_deposit(USER, deposit_amount_2, second_episode).unwrap();

    let user_deposits_before = env.get_user_deposits(USER);
    assert_eq!(user_deposits_before.len(), 2, "User should have 2 deposits");
    let expected_amount_1 = deposit_amount_1 - TRANSFER_FEE;
    let expected_amount_2 = deposit_amount_2 - TRANSFER_FEE;
    assert_eq!(user_deposits_before[0].amount, expected_amount_1, "First deposit should have correct initial amount");
    assert_eq!(user_deposits_before[1].amount, expected_amount_2, "Second deposit should have correct initial amount");

    let pool_before = env.pool.get_pool_state();
    let total_assets_before = expected_amount_1 + expected_amount_2;
    assert_eq!(pool_before.total_assets, total_assets_before, "Pool should have correct total assets before slash");

    let result = env.slash(USER1, USER2, slash_amount);
    assert!(matches!(result, Ok(_)), "Slash should succeed: {:?}", result);

    let user_deposits_after = env.get_user_deposits(USER);
    let total_reduction = slash_amount;
    let total_before_slash = expected_amount_1 + expected_amount_2;
    let reduction_1 = total_reduction * expected_amount_1 / total_before_slash;
    let reduction_2 = total_reduction * expected_amount_2 / total_before_slash;
    let expected_amount_after_1 = expected_amount_1 - reduction_1;
    let expected_amount_after_2 = expected_amount_2 - reduction_2;
    assert_eq!(user_deposits_after[0].amount, expected_amount_after_1,
        "First deposit should be reduced proportionally after slash");
    assert_eq!(user_deposits_after[1].amount, expected_amount_after_2,
        "Second deposit should be reduced proportionally after slash");

    let pool_after = env.pool.get_pool_state();
    let reduction_1 = slash_amount * expected_amount_1 / total_assets_before;
    let reduction_2 = slash_amount * expected_amount_2 / total_assets_before;
    let actual_total_reduction = reduction_1 + reduction_2;
    let expected_assets = pool_before.total_assets - actual_total_reduction;
    assert_eq!(pool_after.total_assets, expected_assets, "Pool assets should be reduced by actual accumulated slash amount");

    let first_episode_time_to_end = env.time_to_end(first_episode);
    env.advance_time(first_episode_time_to_end);
    let balance_before = env.balance(USER);
    let withdraw_res = env.withdraw(USER, 0);
    assert!(matches!(withdraw_res, Ok(_)), "Withdrawal should succeed after slash");
    let balance_after = env.balance(USER);
    let expected_withdrawal_amount = expected_amount_after_1 - TRANSFER_FEE;
    let expected_balance_after = balance_before + expected_withdrawal_amount;
    assert_eq!(
        balance_after, expected_balance_after,
        "User should receive correct withdrawal amount after slash. Expected: {}, Got: {}",
        expected_balance_after, balance_after
    );

    let second_episode_time_to_end = env.time_to_end(second_episode);
    env.advance_time(second_episode_time_to_end);
    let withdraw_res_2 = env.withdraw(USER, 1);
    assert!(matches!(withdraw_res_2, Ok(_)), "Second withdrawal should also succeed after slash");

    let receiver_balance = env.balance(USER2);
    let actual_accumulated_slashed = reduction_1 + reduction_2;
    let expected_received = actual_accumulated_slashed - TRANSFER_FEE;
    let expected_total_balance = receiver_initial_balance + expected_received;
    assert_eq!(receiver_balance, expected_total_balance,
        "Receiver should have received actual accumulated slashed tokens minus fees");
}

#[test]
fn governance_tests_test_slash_function() {
    check_slash_function(Env::standard(), 10_000_000_000);
}

#[test]
fn test_test_slash_function() {
    check_slash_function(single_user_setup(), 0);
}

// A reward is spread over the twelve episodes after it is paid, at a rate
// scaled by PRECISION_SCALE. No test here expects a one-year schedule with an
// unscaled rate, as test_test_reward_rate_increase_decrease_during_episodes,
// test_test_reward_distribution_middle_and_final,
// test_reward_distribution_middle_and_final1 and test_full_reward_distribution
// of the staking canister's other suite do: those expectations cannot hold of
// this pool, whose reward tests below fix the twelve-episode schedule.

#[test]
fn rewards_tests_test_reward_rate_increase_decrease_during_episodes() {
    let mut env = Env::standard();
    let reward_amount: u128 = 10_000_000;

    let initial_reward_rate = env.pool.get_pool_reward_rate();
    assert_eq!(initial_reward_rate, 0, "Initial reward rate should be 0");

    let deposit_amount: u128 = 100_000_000;
    let stakable_episode = env.stakable_episode(7);
    env.create_deposit(USER, deposit_amount, stakable_episode).unwrap();

    let reward_time = env.now_secs();
    env.add_rewards(USER, reward_amount).expect("Reward pool should succeed");

    let increased_reward_rate = env.pool.get_pool_reward_rate();
    assert!(increased_reward_rate > initial_reward_rate,
        "Reward rate should be increased after reward_pool. Initial: {}, After: {}",
        initial_reward_rate, increased_reward_rate);
    let last_reward_episode = (reward_time + EPISODE_DURATION * 12) / EPISODE_DURATION;
    let reward_duration = (last_reward_episode + 1) * EPISODE_DURATION - reward_time;
    let expected_rate_increase = reward_amount * PRECISION_SCALE / reward_duration as u128;
    assert_eq!(increased_reward_rate, expected_rate_increase,
        "Reward rate should equal expected increase: {} tokens per second", expected_rate_increase);

    let target_episode_for_decrease = last_reward_episode + 1;
    let time_to_reach_decrease_episode = (target_episode_for_decrease + 1) * EPISODE_DURATION;
    let additional_time_needed = time_to_reach_decrease_episode - reward_time;
    env.advance_time(additional_time_needed);

    let decreased_reward_rate = env.pool.get_pool_reward_rate();
    assert_eq!(decreased_reward_rate, 0);

    let rewards_after_rate_drop = env.get_deposits_rewards(vec![0]);
    env.advance_time(EPISODE_DURATION * 2);
    let rewards_after_additional_time = env.get_deposits_rewards(vec![0]);
    assert_eq!(rewards_after_rate_drop, rewards_after_additional_time);

    let expected_distributed_reward = increased_reward_rate * additional_time_needed as u128 / PRECISION_SCALE;
    assert_close(rewards_after_rate_drop, expected_distributed_reward, ALLOWED_ERROR,
        "Expected rewards amount verification");
}

#[test]
fn rewards_tests_test_reward_distribution_middle_and_final() {
    let mut env = Env::standard();
    let deposit_amount: u128 = 100_000_000;
    let reward_amount: u128 = 25_000_000;
    let stakable_episode = env.stakable_episode(7);
    env.create_deposit(USER, deposit_amount, stakable_episode).unwrap();

    let reward_time = env.now_secs();
    env.add_rewards(USER, reward_amount).expect("Reward pool should succeed");
    let last_reward_episode = (reward_time + EPISODE_DURATION * 12) / EPISODE_DURATION;
    let exact_reward_duration = (last_reward_episode + 1) * EPISODE_DURATION - reward_time;

    let half_duration = exact_reward_duration / 2;
    env.advance_time(half_duration);
    let middle_rewards = env.get_deposits_rewards(vec![0]);
    let expected_middle = reward_amount / 2;
    assert_close(middle_rewards, expected_middle, ALLOWED_ERROR, "Middle reward distribution");

    let remaining_duration = exact_reward_duration - half_duration;
    env.advance_time(remaining_duration);
    let final_rewards = env.get_deposits_rewards(vec![0]);
    let expected_final = reward_amount;
    assert_close(final_rewards, expected_final, ALLOWED_ERROR, "Full reward distribution");

    let balance_before_first = env.balance(USER);
    let withdrawn_amount = env.withdraw_rewards(USER, vec![0]).expect("First withdrawal should succeed");
    assert_close(withdrawn_amount, expected_final, ALLOWED_ERROR, "First withdrawal amount");
    let balance_after_first = env.balance(USER);
    let expected_after_first = balance_before_first + (withdrawn_amount - TRANSFER_FEE);
    assert_eq!(balance_after_first, expected_after_first,
        "User balance after first withdrawal should increase by net amount");

    let second_amount = env.withdraw_rewards(USER, vec![0]).unwrap_or(0);
    assert_eq!(second_amount, 0, "Second withdrawal should return 0 tokens");
    let balance_after_second = env.balance(USER);
    assert_eq!(balance_after_second, balance_after_first,
        "User balance should remain unchanged after second withdrawal");
}

#[test]
fn test_multiple_users_different_deposits_proportional_rewards() {
    let mut env = Env::standard();
    let deposit_amount_a: u128 = 100_000_000;
    let deposit_amount_b: u128 = 200_000_000;
    let reward_amount: u128 = 300_000_000;
    let stakable_episode = env.stakable_episode(7);
    env.create_deposit(USER1, deposit_amount_a, stakable_episode).unwrap();
    env.create_deposit(USER2, deposit_amount_b, stakable_episode).unwrap();

    let reward_start_time = env.now_secs();
    env.add_rewards(USER1, reward_amount).expect("Reward pool should succeed");
    let exact_reward_duration = ((reward_start_time + EPISODE_DURATION * 12) / EPISODE_DURATION + 1)
        * EPISODE_DURATION - reward_start_time;
    env.advance_time(exact_reward_duration / 2);

    let rewards_a = env.get_deposits_rewards(vec![0]);
    let rewards_b = env.get_deposits_rewards(vec![1]);
    let deposits_a = env.get_user_deposits(USER1);
    let deposits_b = env.get_user_deposits(USER2);
    let shares_a = deposits_a[0].shares;
    let shares_b = deposits_b[0].shares;
    let total_shares = shares_a + shares_b;
    let half_rewards = reward_amount / 2;
    let expected_a = (half_rewards * shares_a) / total_shares;
    let expected_b = (half_rewards * shares_b) / total_shares;
    assert_close(rewards_a, expected_a, ALLOWED_ERROR, "User A proportional rewards");
    assert_close(rewards_b, expected_b, ALLOWED_ERROR, "User B proportional rewards");
}

#[test]
fn test_users_joining_different_times_fair_distribution() {
    let mut env = Env::standard();
    let deposit_amount: u128 = 100_000_000;
    let reward_amount: u128 = 200_000_000;
    let stakable_episode = env.stakable_episode(7);
    env.create_deposit(USER1, deposit_amount, stakable_episode).unwrap();
    env.add_rewards(USER1, reward_amount).expect("Reward pool should succeed");

    let reward_time = env.now_secs();
    let last_reward_episode = (reward_time + EPISODE_DURATION * 12) / EPISODE_DURATION;
    let exact_reward_duration = (last_reward_episode + 1) * EPISODE_DURATION - reward_time;
    env.advance_time(exact_reward_duration / 4);
    env.create_deposit(USER2, deposit_amount, stakable_episode).unwrap();
    env.advance_time((exact_reward_duration * 3) / 4);

    let rewards_early = env.get_deposits_rewards(vec![0]);
    let rewards_late = env.get_deposits_rewards(vec![1]);
    let expected_early = (reward_amount * 625) / 1000;
    let expected_late = (reward_amount * 375) / 1000;
    assert_close(rewards_early, expected_early, ALLOWED_ERROR, "Early user fair rewards");
    assert_close(rewards_late, expected_late, ALLOWED_ERROR, "Late user fair rewards");
}

#[test]
fn test_reward_withdrawal_ownership_and_security() {
    let mut env = Env::standard();
    let deposit_amount: u128 = 100_000_000;
    let reward_amount: u128 = 100_000_000;
    let stakable_episode = env.stakable_episode(7);
    env.create_deposit(USER1, deposit_amount, stakable_episode).unwrap();
    env.create_deposit(USER2, deposit_amount, stakable_episode).unwrap();
    env.add_rewards(USER1, reward_amount).expect("Reward pool should succeed");

    let reward_time = env.now_secs();
    let last_reward_episode = (reward_time + EPISODE_DURATION * 12) / EPISODE_DURATION;
    let exact_reward_duration = (last_reward_episode + 1) * EPISODE_DURATION - reward_time;
    env.advance_time(exact_reward_duration);

    let result = env.withdraw_rewards(USER1, vec![1]);
    assert!(matches!(result, Err(PoolError::NotOwner)), "Expected NotOwner error, got: {:?}", result);
    let result_2 = env.withdraw_rewards(USER3, vec![0]);
    assert!(matches!(result_2, Err(PoolError::NotOwner)),
        "Expected NotOwner error for malicious user, got: {:?}", result_2);
    let result = env.withdraw_rewards(USER2, Vec::new());
    assert!(matches!(result, Err(PoolError::InsufficientBalance)),
        "Expected InsufficientBalance error for empty withdrawal, got: {:?}", result);

    let withdrawn_amount = env.withdraw_rewards(USER1, vec![0])
        .expect("Valid user should be able to withdraw their own rewards");
    let expected_withdrawal = reward_amount / 2;
    assert_close(withdrawn_amount, expected_withdrawal, ALLOWED_ERROR, "Valid withdrawal amount");
}

#[test]
fn test_multiple_reward_pool_additions_cumulative() {
    let mut env = Env::standard();
    // Start at the beginning of an episode, so that the three payments,
    // half an episode apart at most, share their last reward episode.
    let to_next = env.time_to_end(env.current_episode());
    env.advance_time(to_next + 1);
    let deposit_amount: u128 = 100_000_000;
    let first_reward: u128 = 50_000_000;
    let second_reward: u128 = 30_000_000;
    let third_reward: u128 = 20_000_000;
    let total_expected_rewards = first_reward + second_reward + third_reward;
    let stakable_episode = env.stakable_episode(7);
    env.create_deposit(USER1, deposit_amount, stakable_episode).unwrap();

    env.add_rewards(USER1, first_reward).expect("First reward pool should succeed");
    env.advance_time(EPISODE_DURATION / 4);
    env.add_rewards(USER1, second_reward).expect("Second reward pool should succeed");
    env.advance_time(EPISODE_DURATION / 4);
    let third_reward_time = env.now_secs();
    env.add_rewards(USER1, third_reward).expect("Third reward pool should succeed");

    let third_end = ((third_reward_time + EPISODE_DURATION * 12) / EPISODE_DURATION + 1) * EPISODE_DURATION;
    let latest_end = third_end;
    let current_time = env.now_secs();
    env.advance_time(latest_end - current_time);

    let final_rewards = env.get_deposits_rewards(vec![0]);
    assert_close(final_rewards, total_expected_rewards, ALLOWED_ERROR, "Multiple reward additions final total");
}

#[test]
fn test_reward_distribution_between_large_and_small_deposits() {
    let mut env = Env::standard();
    let large_deposit: u128 = 100_000_000;
    let small_deposit: u128 = MINIMUM_DEPOSIT_AMOUNT + 49_000;
    let reward_amount: u128 = 3_000;
    let episode = env.stakable_episode(7);
    env.create_deposit(USER1, large_deposit, episode).unwrap();
    env.create_deposit(USER2, small_deposit, episode).unwrap();

    let reward_start_time = env.now_secs();
    env.add_rewards(USER1, reward_amount).expect("Reward pool should succeed");
    let last_reward_episode = (reward_start_time + EPISODE_DURATION * 12) / EPISODE_DURATION;
    let exact_reward_duration = (last_reward_episode + 1) * EPISODE_DURATION - reward_start_time;
    env.advance_time(exact_reward_duration);

    let large_depositor_rewards = env.get_deposits_rewards(vec![0]);
    let small_depositor_rewards = env.get_deposits_rewards(vec![1]);
    let large_deposits = env.get_user_deposits(USER1);
    let small_deposits = env.get_user_deposits(USER2);
    let large_shares = large_deposits[0].shares;
    let small_shares = small_deposits[0].shares;
    let total_shares = large_shares + small_shares;
    let expected_large = (reward_amount * large_shares) / total_shares;
    let expected_small = (reward_amount * small_shares) / total_shares;
    assert_close(large_depositor_rewards, expected_large, 1, "Large depositor rewards");
    assert_close(small_depositor_rewards, expected_small, 1, "Small depositor rewards");
    let total_distributed = large_depositor_rewards + small_depositor_rewards;
    assert_close(total_distributed, reward_amount, ALLOWED_ERROR, "Total distributed equals reward");
}

#[test]
fn test_partial_reward_withdrawals_during_period() {
    let mut env = Env::standard();
    let deposit_amount: u128 = 100_000_000;
    let reward_amount: u128 = 200_000_000;
    let stakable_episode = env.stakable_episode(7);
    env.create_deposit(USER3, deposit_amount, stakable_episode).unwrap();

    let reward_start_time = env.now_secs();
    env.add_rewards(USER3, reward_amount).expect("Reward pool should succeed");
    let last_reward_episode = (reward_start_time + EPISODE_DURATION * 12) / EPISODE_DURATION;
    let exact_reward_duration = (last_reward_episode + 1) * EPISODE_DURATION - reward_start_time;

    env.advance_time(exact_reward_duration / 2);
    let first_withdrawn = env.withdraw_rewards(USER3, vec![0]).expect("First withdrawal should succeed");
    let expected_half = reward_amount / 2;
    assert_close(first_withdrawn, expected_half, ALLOWED_ERROR, "First withdrawal at 1/2 period");

    env.advance_time(exact_reward_duration / 2);
    let second_withdrawn = env.withdraw_rewards(USER3, vec![0]).expect("Second withdrawal should succeed");
    let expected_remaining = reward_amount - first_withdrawn;
    assert_close(second_withdrawn, expected_remaining, ALLOWED_ERROR, "Second withdrawal at end");

    let total_withdrawn = first_withdrawn + second_withdrawn;
    assert_close(total_withdrawn, reward_amount, ALLOWED_ERROR, "Total withdrawn equals reward pool");
    let final_rewards = env.get_deposits_rewards(vec![0]);
    assert_eq!(final_rewards, 0, "No rewards should remain after both withdrawals");
}

#[test]
fn test_create_product_and_purchase_coverage() {
    let mut env = Env::standard();
    let user1 = USER1;
    let buyer = USER;
    let pool_manager = USER2;
    let current_episode = env.stakable_episode(3);
    let deposit_amount: u128 = 1_000_000_000;
    env.create_deposit(user1, deposit_amount, current_episode).expect("Deposit should succeed");

    let product_name = "Bridge Insurance";
    let annual_percent = 500u64;
    let max_coverage_duration = EPISODE_DURATION * 6;
    let max_pool_allocation_percent = 5000u64;
    let product_id = env.create_product(pool_manager, product_name, annual_percent, max_coverage_duration,
        max_pool_allocation_percent);
    assert!(product_id.is_ok(), "Product creation should succeed");
    let product_id = product_id.unwrap();

    let all_products = env.get_products();
    assert!(!all_products.is_empty(), "Should have at least one product");
    let product = all_products
        .iter()
        .find(|p| p.product_id == product_id)
        .expect("Created product should be in the list");
    assert_eq!(product.annual_percent, annual_percent);
    assert_eq!(product.max_coverage_duration, max_coverage_duration);
    assert_eq!(product.active, true);

    let covered_account = USER2;
    let coverage_duration = EPISODE_DURATION * 3;
    let coverage_amount: u128 = 100_000_000;
    let premium_amount = calculate_premium(coverage_duration, annual_percent, coverage_amount).unwrap();
    let result = env.buy_coverage(buyer, product_id, covered_account, coverage_duration, coverage_amount,
        premium_amount);
    assert!(result.is_ok(), "Coverage purchase should succeed: {:?}", result);

    let all_products_after = env.get_products();
    let product_after = all_products_after
        .iter()
        .find(|p| p.product_id == product_id)
        .expect("Product should still exist after purchase");
    assert_eq!(product_after.allocation, coverage_amount, "Product allocation should equal coverage amount");
    let total_cover = env.pool.get_total_cover_allocation();
    assert_eq!(total_cover, coverage_amount, "Total cover allocation should equal coverage amount");

    let buyer_coverages = env.get_coverages(buyer);
    assert_eq!(buyer_coverages.len(), 1, "Buyer should have exactly 1 coverage");
    let stored_coverage = &buyer_coverages[0];
    assert_eq!(stored_coverage.coverage_id, 0, "First coverage should have ID 0");
    assert_eq!(stored_coverage.buyer, principal(buyer), "Coverage buyer should match");
    assert_eq!(stored_coverage.covered_account, principal(covered_account), "Covered account should match");
    assert_eq!(stored_coverage.product_id, product_id, "Product ID should match");
    assert_eq!(stored_coverage.coverage_amount, coverage_amount, "Coverage amount should match");
    assert_eq!(stored_coverage.premium_amount, premium_amount, "Premium amount should match");
    assert_eq!(stored_coverage.end_time - stored_coverage.start_time, coverage_duration,
        "Duration should match coverage_duration");
}

#[test]
fn test_coverage_allocation_limits() {
    let mut env = Env::standard();
    let current_episode = env.stakable_episode(2);
    let deposit_amount: u128 = 1_000_000_000;
    env.create_deposit(USER1, deposit_amount, current_episode).expect("Deposit should succeed");
    let product_id = env.create_product(USER2, "Test Product", 500, EPISODE_DURATION * 6, 5000).unwrap();

    let covered_account = USER2;
    let coverage_duration = EPISODE_DURATION * 3;
    let coverage_amount: u128 = 600_000_000;
    let premium_amount = calculate_premium(coverage_duration, 500, coverage_amount).unwrap();
    let result = env.buy_coverage(USER, product_id, covered_account, coverage_duration, coverage_amount,
        premium_amount);
    assert!(result.is_err(), "Should fail due to allocation limit: {:?}", result);
}

#[test]
fn test_independent_product_allocations() {
    let mut env = Env::standard();
    let current_episode = env.stakable_episode(2);
    let deposit_amount: u128 = 1_000_000_000;
    env.create_deposit(USER1, deposit_amount, current_episode).expect("Deposit should succeed");
    let product1_id = env.create_product(USER2, "Bridge Insurance", 500, EPISODE_DURATION * 6, 5000).unwrap();
    let product2_id = env.create_product(USER2, "DeFi Insurance", 800, EPISODE_DURATION * 6, 10000).unwrap();

    let covered_account = USER2;
    let coverage_duration = EPISODE_DURATION * 3;
    let coverage_amount1: u128 = 250_000_000;
    let premium_amount1 = calculate_premium(coverage_duration, 500, coverage_amount1).unwrap();
    let result1 = env.buy_coverage(USER, product1_id, covered_account, coverage_duration, coverage_amount1,
        premium_amount1);
    assert!(result1.is_ok(), "First coverage should succeed: {:?}", result1);

    let coverage_amount2: u128 = 500_000_000;
    let premium_amount2 = calculate_premium(coverage_duration, 800, coverage_amount2).unwrap();
    let result2 = env.buy_coverage(USER, product2_id, covered_account, coverage_duration, coverage_amount2,
        premium_amount2);
    assert!(result2.is_ok(), "Second coverage should succeed: {:?}", result2);

    let total_cover = env.pool.get_total_cover_allocation();
    assert_eq!(total_cover, 750_000_000, "Total allocation should be 750M (75% of pool)");
}

#[test]
fn test_excess_balance_refund() {
    let mut env = Env::standard();
    let buyer = USER;
    let current_episode = env.stakable_episode(2);
    let deposit_amount: u128 = 1_000_000_000;
    env.create_deposit(USER1, deposit_amount, current_episode).expect("Deposit should succeed");
    let product_id = env.create_product(USER2, "Test Product", 500, EPISODE_DURATION * 6, 5000).unwrap();

    let buyer_initial_balance = env.balance(buyer);
    let covered_account = USER2;
    let coverage_duration = EPISODE_DURATION * 3;
    let coverage_amount: u128 = 100_000_000;
    let premium_amount = calculate_premium(coverage_duration, 500, coverage_amount).unwrap();
    let excess_amount: u128 = 50_000;
    let total_payment = premium_amount + excess_amount;

    let subaccount = get_purchase_subaccount(&principal(buyer), product_id);
    let transfer_result = env.user_transfer(buyer, &subaccount, total_payment);
    assert!(matches!(transfer_result, TransferReply::Accepted(_)), "Transfer to subaccount should succeed");

    let result = env.purchase_coverage(buyer, product_id, covered_account, coverage_duration, coverage_amount);
    assert!(result.is_ok(), "Coverage purchase should succeed: {:?}", result);

    let buyer_final_balance = env.balance(buyer);
    let expected_final_balance = buyer_initial_balance - premium_amount - 20;
    assert_eq!(buyer_final_balance, expected_final_balance, "Buyer should receive refund of excess amount minus fees");

    let buyer_coverages = env.get_coverages(buyer);
    assert_eq!(buyer_coverages.len(), 1, "Buyer should have exactly 1 coverage");
    let stored_coverage = &buyer_coverages[0];
    assert_eq!(stored_coverage.premium_amount, premium_amount,
        "Premium amount should match calculated amount (not the excess payment)");
}
