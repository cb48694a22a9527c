//! The pool's state, and the passage of time over it: expiring episodes and
//! streaming rewards to the shares that are still staked.

use vstd::prelude::*;
use crate::types::{Deposit, Episode, PoolState, Product, Coverage, AllocationCut, Trap};
use crate::principal::{anonymous_principal, anonymous_bytes};
use crate::episodes::{seconds_of, episode_end, episode_of_second, seconds_from_nanos, get_current_episode, get_last_processed_episode, lemma_div_bracket};
use crate::{EPISODE_DURATION, NANOS_PER_SECOND};

verus! {

/// Largest episode index the pool keeps data for. The clock fits in 64 bits
/// of nanoseconds, so episodes past this one never start.
pub const MAX_EPISODE_INDEX: u64 = 8192;

/// All state of the liquidity pool.
///
/// Deposits, products and covers are kept in vectors indexed by their
/// identifier (identifiers are handed out from 0 upwards); episodes are
/// kept in a vector indexed by episode number. An absent entry is `None`.
/// The deposits of each user are listed in `user_deposits`, one entry per
/// user (the first entry of a user is the one that counts).
#[derive(Clone, Debug)]
pub struct Pool {
    /// The token ledger (anonymous until set).
    pub token_id: Vec<u8>,
    /// The principal allowed to slash the pool.
    pub executor: Vec<u8>,
    /// The principal allowed to manage cover products.
    pub pool_manager: Vec<u8>,
    /// Second at which the accounting below was last brought up to date.
    pub last_time_updated: u64,
    pub pool_state: PoolState,
    /// Reward paid per second, scaled by `PRECISION_SCALE`.
    pub pool_reward_rate: u128,
    /// Reward earned so far by one share, scaled by `PRECISION_SCALE`.
    pub accumulated_reward_per_share: u128,
    pub total_cover_allocation: u128,
    pub deposits: Vec<Option<Deposit>>,
    /// Each user's deposit identifiers, in the order the deposits were made.
    pub user_deposits: Vec<UserDepositList>,
    pub episodes: Vec<Option<Episode>>,
    pub products: Vec<Product>,
    /// Cover expiring per product and episode; the latest entry for a pair counts.
    pub allocation_cuts: Vec<AllocationCut>,
    pub coverages: Vec<Coverage>,
}

/// The deposits of one user: identifiers in the order they were recorded.
#[derive(Clone, Debug)]
pub struct UserDepositList {
    pub user: Vec<u8>,
    pub ids: Vec<u64>,
}

/// The part of the pool's state that moves when time passes.
#[derive(Clone, Copy, Debug, PartialEq, Eq)]
pub struct Accrual {
    pub pool_state: PoolState,
    pub reward_rate: u128,
    pub acc: u128,
    /// Second up to which rewards have been accrued.
    pub updated_at: u64,
}

/// Reward per share earned between `from` and `to` (seconds) at `rate`,
/// shared by `total_shares`; zero while the pool is empty. `None` when the
/// product of rate and time leaves the `u128` range.
pub open spec fn rate_per_share(state: PoolState, rate: u128, from: int, to: int) -> Option<u128> {
    if state.total_assets == 0 || state.total_shares == 0 {
        Some(0u128)
    } else if rate * (to - from) > u128::MAX {
        None
    } else {
        Some(((rate * (to - from)) / (state.total_shares as int)) as u128)
    }
}

/// Expires one episode: accrue rewards up to its end, then take its stake
/// out of the totals and its reward out of the rate. `None` where the
/// arithmetic leaves the range of `u128`.
pub open spec fn expire_episode(a: Accrual, e: Episode, episode_id: int) -> Option<Accrual> {
    let finish = episode_end(episode_id);
    match rate_per_share(a.pool_state, a.reward_rate, a.updated_at as int, finish) {
        None => None,
        Some(c) => {
            if a.acc + c > u128::MAX || a.reward_rate < e.reward_decrease
                || a.pool_state.total_assets < e.assets_staked
                || a.pool_state.total_shares < e.episode_shares || finish > u64::MAX {
                None
            } else {
                Some(Accrual {
                    pool_state: PoolState {
                        total_assets: (a.pool_state.total_assets - e.assets_staked) as u128,
                        total_shares: (a.pool_state.total_shares - e.episode_shares) as u128,
                    },
                    reward_rate: (a.reward_rate - e.reward_decrease) as u128,
                    acc: (a.acc + c) as u128,
                    updated_at: finish as u64,
                })
            }
        },
    }
}

/// Accrues rewards from `a.updated_at` up to second `t`, without expiring anything.
pub open spec fn accrue_until(a: Accrual, t: int) -> Option<Accrual> {
    match rate_per_share(a.pool_state, a.reward_rate, a.updated_at as int, t) {
        None => None,
        Some(c) => {
            if a.acc + c > u128::MAX || t < 0 || t > u64::MAX {
                None
            } else {
                Some(Accrual { acc: (a.acc + c) as u128, updated_at: t as u64, ..a })
            }
        },
    }
}

impl Pool {
    /// Well-formedness: identifiers fit in 64 bits and match positions.
    pub open spec fn wf(&self) -> bool {
        &&& self.deposits@.len() < u64::MAX
        &&& self.episodes@.len() <= MAX_EPISODE_INDEX + 1
        &&& self.products@.len() < u64::MAX
        &&& self.coverages@.len() < u64::MAX
        &&& self.allocation_cuts@.len() < usize::MAX
        &&& forall|i: int| 0 <= i < self.products@.len() ==> #[trigger] self.products@[i].product_id == i
        &&& forall|i: int| 0 <= i < self.products@.len() ==>
            #[trigger] self.products@[i].max_coverage_duration < 23 * EPISODE_DURATION
        &&& forall|i: int| 0 <= i < self.coverages@.len() ==> #[trigger] self.coverages@[i].coverage_id == i
    }

    /// The episode with the given index, if it holds any data.
    pub open spec fn episode(&self, id: int) -> Option<Episode> {
        if 0 <= id < self.episodes@.len() {
            self.episodes@[id]
        } else {
            None
        }
    }

    /// The deposit with the given identifier, if it exists.
    pub open spec fn deposit(&self, id: int) -> Option<Deposit> {
        if 0 <= id < self.deposits@.len() {
            self.deposits@[id]
        } else {
            None
        }
    }

    /// The accrual part of the state.
    pub open spec fn accrual(&self) -> Accrual {
        Accrual {
            pool_state: self.pool_state,
            reward_rate: self.pool_reward_rate,
            acc: self.accumulated_reward_per_share,
            updated_at: self.last_time_updated,
        }
    }

    /// Everything but the accrual and the episodes is the same in both states.
    pub open spec fn same_except_accrual(&self, other: &Pool) -> bool {
        &&& self.token_id == other.token_id
        &&& self.executor == other.executor
        &&& self.pool_manager == other.pool_manager
        &&& self.total_cover_allocation == other.total_cover_allocation
        &&& self.deposits == other.deposits
        &&& self.user_deposits == other.user_deposits
        &&& self.products == other.products
        &&& self.allocation_cuts == other.allocation_cuts
        &&& self.coverages == other.coverages
    }

    /// The state of a freshly installed pool: `token_id` is the ledger,
    /// `executor` may slash, the clock starts at `now_ns`, nothing is staked,
    /// and the pool manager is still anonymous.
    pub fn new(token_id: Vec<u8>, executor: Vec<u8>, now_ns: u64) -> (pool: Pool)
        ensures
            pool.wf(),
            pool.token_id@ == token_id@,
            pool.executor@ == executor@,
            pool.pool_manager@ == anonymous_bytes(),
            pool.last_time_updated == seconds_of(now_ns),
            pool.pool_state == (PoolState { total_assets: 0, total_shares: 0 }),
            pool.pool_reward_rate == 0,
            pool.accumulated_reward_per_share == 0,
            pool.total_cover_allocation == 0,
            pool.deposits@.len() == 0,
            pool.user_deposits@.len() == 0,
            pool.episodes@.len() == 0,
            pool.products@.len() == 0,
            pool.allocation_cuts@.len() == 0,
            pool.coverages@.len() == 0,
            crate::accounting::books_balance(pool),
    {
        let pool = Pool {
            token_id,
            executor,
            pool_manager: anonymous_principal(),
            last_time_updated: now_ns / NANOS_PER_SECOND,
            pool_state: PoolState { total_assets: 0, total_shares: 0 },
            pool_reward_rate: 0,
            accumulated_reward_per_share: 0,
            total_cover_allocation: 0,
            deposits: Vec::new(),
            user_deposits: Vec::new(),
            episodes: Vec::new(),
            products: Vec::new(),
            allocation_cuts: Vec::new(),
            coverages: Vec::new(),
        };
        proof {
            crate::accounting::lemma_totals_zero(pool, crate::accounting::live_from(pool), MAX_EPISODE_INDEX + 1);
        }
        pool
    }

    /// The episode with the given index, if it holds any data.
    pub fn get_episode(&self, episode_id: u64) -> (e: Option<Episode>)
        ensures
            e == self.episode(episode_id as int),
    {
        if episode_id < self.episodes.len() as u64 {
            self.episodes[episode_id as usize]
        } else {
            None
        }
    }

    /// Stores `e` as the episode `episode_id`, leaving all other episodes as they were.
    pub fn put_episode(&mut self, episode_id: u64, e: Episode)
        requires
            old(self).wf(),
            episode_id <= MAX_EPISODE_INDEX,
        ensures
            final(self).wf(),
            forall|k: int| #[trigger] final(self).episode(k) == (if k == episode_id { Some(e) } else { old(self).episode(k) }),
            final(self).same_except_accrual(old(self)),
            final(self).accrual() == old(self).accrual(),
    {
        while (self.episodes.len() as u64) <= episode_id
            invariant
                self.wf(),
                episode_id <= MAX_EPISODE_INDEX,
                self.episodes@.len() >= old(self).episodes@.len(),
                forall|i: int| 0 <= i < old(self).episodes@.len() ==> self.episodes@[i] == old(self).episodes@[i],
                forall|i: int| old(self).episodes@.len() <= i < self.episodes@.len() ==> self.episodes@[i] is None,
                self.same_except_accrual(old(self)),
                self.accrual() == old(self).accrual(),
            decreases MAX_EPISODE_INDEX + 1 - self.episodes@.len(),
        {
            self.episodes.push(None);
        }
        let ghost grown = self.episodes@;
        self.episodes.set(episode_id as usize, Some(e));
        assert forall|k: int| #[trigger] self.episode(k) == (if k == episode_id { Some(e) } else { old(self).episode(k) }) by {
            if 0 <= k < grown.len() && k != episode_id {
                assert(self.episodes@[k] == grown[k]);
            }
        }
    }

    /// Reward earned by one share between `updated_rewards_at` and
    /// `finish_time` at the current rate; zero while the pool is empty.
    pub fn reward_rate_per_share(&self, updated_rewards_at: u64, finish_time: u64) -> (r: Option<u128>)
        requires
            updated_rewards_at <= finish_time,
        ensures
            r == rate_per_share(self.pool_state, self.pool_reward_rate, updated_rewards_at as int, finish_time as int),
    {
        rate_per_share_exec(self.pool_state, self.pool_reward_rate, updated_rewards_at, finish_time)
    }
}

impl Pool {
    /// Accrual after expiring, in order, the episodes from `from` up to
    /// (excluding) `to`, starting from `a`. Indices without data are skipped.
    pub open spec fn accrue_episodes(&self, a: Accrual, from: int, to: int) -> Option<Accrual>
        decreases to - from,
    {
        if to <= from {
            Some(a)
        } else {
            match self.accrue_episodes(a, from, to - 1) {
                None => None,
                Some(b) => match self.episode(to - 1) {
                    None => Some(b),
                    Some(e) => expire_episode(b, e, to - 1),
                },
            }
        }
    }

    /// The accrual once the pool is brought up to second `now`: every
    /// episode that ended since the last update expires in order, and
    /// rewards are accrued to `now`. Nothing changes when no time passed.
    /// `None` when the arithmetic leaves the range of `u128`.
    pub open spec fn settled(&self, now: int) -> Option<Accrual> {
        if now == self.last_time_updated {
            Some(self.accrual())
        } else {
            match self.accrue_episodes(
                self.accrual(),
                episode_of_second(self.last_time_updated as int),
                episode_of_second(now),
            ) {
                None => None,
                Some(b) => accrue_until(b, now),
            }
        }
    }

    /// Episode `k` once the pool is brought up to second `now`: an episode
    /// that expires records the accumulated reward per share at its end.
    pub open spec fn settled_episode(&self, k: int, now: int) -> Option<Episode> {
        let from = episode_of_second(self.last_time_updated as int);
        let to = episode_of_second(now);
        if now != self.last_time_updated && from <= k < to && self.episode(k) is Some {
            match self.accrue_episodes(self.accrual(), from, k + 1) {
                Some(b) => Some(Episode { acc_reward_per_share_on_expire: b.acc, ..self.episode(k).unwrap() }),
                None => self.episode(k),
            }
        } else {
            self.episode(k)
        }
    }

    /// The pool brought up to second `now` is `self` (accrual and episodes
    /// as `old` settles them; everything else unchanged).
    pub open spec fn is_settled_from(&self, old: &Pool, now: int) -> bool {
        &&& old.settled(now) == Some(self.accrual())
        &&& forall|k: int| #[trigger] self.episode(k) == old.settled_episode(k, now)
        &&& self.same_except_accrual(old)
    }

    /// Brings the pool up to the clock reading `now_ns`: expires every
    /// episode that ended since the last update (its stake leaves the pool
    /// totals and its reward leaves the rate), accrues rewards per share
    /// along the way, and records the time. Traps, changing nothing, when
    /// `settled` has no value.
    pub fn process_episodes(&mut self, now_ns: u64) -> (r: Result<(), Trap>)
        requires
            old(self).wf(),
            seconds_of(now_ns) >= old(self).last_time_updated,
        ensures
            final(self).wf(),
            r is Err <==> old(self).settled(seconds_of(now_ns)) is None,
            r is Err ==> *final(self) == *old(self),
            r is Ok ==> final(self).is_settled_from(old(self), seconds_of(now_ns)),
    {
        let current_episode = get_current_episode(now_ns);
        let last_processed_episode = get_last_processed_episode(self.last_time_updated);
        let current_time = seconds_from_nanos(now_ns);
        if current_time == self.last_time_updated {
            proof {
                assert forall|k: int| #[trigger] self.episode(k) == old(self).settled_episode(k, current_time as int) by {}
            }
            return Ok(());
        }
        proof {
            lemma_div_bracket(self.last_time_updated as int, EPISODE_DURATION as int);
            lemma_div_bracket(current_time as int, EPISODE_DURATION as int);
            vstd::arithmetic::div_mod::lemma_div_is_ordered(self.last_time_updated as int, current_time as int, EPISODE_DURATION as int);
        }
        let ghost start = self.accrual();
        let ghost from = last_processed_episode as int;
        let mut a = Accrual {
            pool_state: self.pool_state,
            reward_rate: self.pool_reward_rate,
            acc: self.accumulated_reward_per_share,
            updated_at: self.last_time_updated,
        };
        let mut expired_acc: Vec<u128> = Vec::new();
        let mut k = last_processed_episode;
        while k < current_episode
            invariant
                self.wf(),
                *self == *old(self),
                start == self.accrual(),
                from == last_processed_episode,
                from <= k <= current_episode <= 7038,
                current_time == seconds_of(now_ns),
                current_time != self.last_time_updated,
                current_episode == episode_of_second(current_time as int),
                from == episode_of_second(self.last_time_updated as int),
                self.last_time_updated <= current_time,
                current_episode * EPISODE_DURATION <= current_time,
                self.accrue_episodes(start, from, k as int) == Some(a),
                a.updated_at < episode_end(k as int),
                a.updated_at <= current_time,
                expired_acc@.len() == k - from,
                forall|j: int| 0 <= j < expired_acc@.len() ==>
                    #[trigger] expired_acc@[j] == self.accrue_episodes(start, from, from + j + 1).unwrap().acc,
                forall|j: int| from <= j <= k ==> self.accrue_episodes(start, from, j) is Some,
            decreases current_episode - k,
        {
            let ghost before = a;
            match self.get_episode(k) {
                None => {},
                Some(e) => {
                    match expire_episode_exec(a, e, k) {
                        None => {
                            proof { self.lemma_accrue_none_propagates(start, from, k as int + 1, current_episode as int); }
                            return Err(Trap);
                        },
                        Some(next) => {
                            a = next;
                        },
                    }
                },
            }
            proof {
                assert((k + 1) * EPISODE_DURATION <= current_episode * EPISODE_DURATION) by (nonlinear_arith)
                    requires k + 1 <= current_episode;
                assert(episode_end(k as int) < episode_end(k as int + 1)) by (nonlinear_arith);
            }
            expired_acc.push(a.acc);
            k = k + 1;
            proof {
                assert forall|j: int| 0 <= j < expired_acc@.len() implies
                    #[trigger] expired_acc@[j] == self.accrue_episodes(start, from, from + j + 1).unwrap().acc by {
                    if j < expired_acc@.len() - 1 {
                    } else {
                        assert(from + j + 1 == k);
                    }
                }
            }
        }
        let finished = match accrue_until_exec(a, current_time) {
            None => {
                return Err(Trap);
            },
            Some(f) => f,
        };
        assert(old(self).settled(current_time as int) == Some(finished));
        let mut j: usize = 0;
        let n = expired_acc.len();
        while j < n
            invariant
                self.wf(),
                n == expired_acc@.len(),
                n == current_episode - from,
                j <= n,
                current_episode <= 7038,
                from == last_processed_episode,
                current_time == seconds_of(now_ns),
                old(self).settled(current_time as int) == Some(finished),
                from == episode_of_second(old(self).last_time_updated as int),
                current_episode == episode_of_second(current_time as int),
                current_time != old(self).last_time_updated,
                start == old(self).accrual(),
                self.same_except_accrual(old(self)),
                self.accrual() == old(self).accrual(),
                forall|i: int| 0 <= i < n ==>
                    #[trigger] expired_acc@[i] == old(self).accrue_episodes(start, from, from + i + 1).unwrap().acc,
                forall|i: int| from <= i <= current_episode ==> old(self).accrue_episodes(start, from, i) is Some,
                forall|kk: int| #[trigger] self.episode(kk) == (
                    if from <= kk < from + j { old(self).settled_episode(kk, current_time as int) }
                    else { old(self).episode(kk) }),
            decreases n - j,
        {
            let kk = last_processed_episode + j as u64;
            match self.get_episode(kk) {
                None => {},
                Some(e) => {
                    let updated = Episode { acc_reward_per_share_on_expire: expired_acc[j], ..e };
                    let ghost before = *self;
                    self.put_episode(kk, updated);
                    proof {
                        assert(old(self).accrue_episodes(start, from, kk + 1) is Some);
                        assert(old(self).settled_episode(kk as int, current_time as int) == Some(updated));
                        assert forall|m: int| #[trigger] self.episode(m) == (
                            if from <= m < from + j + 1 { old(self).settled_episode(m, current_time as int) }
                            else { old(self).episode(m) }) by {
                            assert(self.episode(m) == (if m == kk { Some(updated) } else { before.episode(m) }));
                        }
                    }
                },
            }
            j = j + 1;
        }
        proof {
            assert forall|m: int| #[trigger] self.episode(m) == old(self).settled_episode(m, current_time as int) by {}
        }
        let ghost before_commit = *self;
        self.pool_state = finished.pool_state;
        self.pool_reward_rate = finished.reward_rate;
        self.accumulated_reward_per_share = finished.acc;
        self.last_time_updated = finished.updated_at;
        assert(old(self).settled(seconds_of(now_ns) as int) == Some(self.accrual()));
        assert(self.same_except_accrual(old(self)));
        assert forall|m: int| #[trigger] self.episode(m) == old(self).settled_episode(m, seconds_of(now_ns)) by {
            assert(self.episode(m) == before_commit.episode(m));
        }
        Ok(())
    }

    /// Endpoint form of `process_episodes`: brings the pool up to the clock
    /// reading `now_ns`.
    pub fn update_episodes_state(&mut self, now_ns: u64) -> (r: Result<(), Trap>)
        requires
            old(self).wf(),
            seconds_of(now_ns) >= old(self).last_time_updated,
        ensures
            final(self).wf(),
            r is Err <==> old(self).settled(seconds_of(now_ns)) is None,
            r is Err ==> *final(self) == *old(self),
            r is Ok ==> final(self).is_settled_from(old(self), seconds_of(now_ns)),
    {
        self.process_episodes(now_ns)
    }

    /// Reward paid per second to the whole pool, scaled by `PRECISION_SCALE`.
    pub fn get_pool_reward_rate(&self) -> (rate: u128)
        ensures
            rate == self.pool_reward_rate,
    {
        self.pool_reward_rate
    }

    /// Assets and shares of every episode that has not expired yet.
    pub fn get_pool_state(&self) -> (state: PoolState)
        ensures
            state == self.pool_state,
    {
        self.pool_state
    }

    /// Once expiring stops short, it stays short for every later bound.
    pub proof fn lemma_accrue_none_propagates(&self, a: Accrual, from: int, k: int, to: int)
        requires
            from <= k <= to,
            self.accrue_episodes(a, from, k) is None,
        ensures
            self.accrue_episodes(a, from, to) is None,
        decreases to - k,
    {
        if k < to {
            self.lemma_accrue_none_propagates(a, from, k + 1, to);
        }
    }
}

/// Computes `expire_episode` for an episode that ends after `a.updated_at`.
fn expire_episode_exec(a: Accrual, e: Episode, episode_id: u64) -> (r: Option<Accrual>)
    requires
        episode_id <= 7038,
        a.updated_at < episode_end(episode_id as int),
    ensures
        r == expire_episode(a, e, episode_id as int),
{
    assert((episode_id + 1) * EPISODE_DURATION <= 7039 * 2620800) by (nonlinear_arith)
        requires episode_id <= 7038;
    let finish = (episode_id + 1) * EPISODE_DURATION;
    let contribution = match rate_per_share_exec(a.pool_state, a.reward_rate, a.updated_at, finish) {
        None => { return None; },
        Some(c) => c,
    };
    let acc = match a.acc.checked_add(contribution) {
        None => { return None; },
        Some(v) => v,
    };
    if a.reward_rate < e.reward_decrease || a.pool_state.total_assets < e.assets_staked
        || a.pool_state.total_shares < e.episode_shares {
        return None;
    }
    Some(Accrual {
        pool_state: PoolState {
            total_assets: a.pool_state.total_assets - e.assets_staked,
            total_shares: a.pool_state.total_shares - e.episode_shares,
        },
        reward_rate: a.reward_rate - e.reward_decrease,
        acc,
        updated_at: finish,
    })
}

/// Computes `accrue_until`.
fn accrue_until_exec(a: Accrual, t: u64) -> (r: Option<Accrual>)
    requires
        a.updated_at <= t,
    ensures
        r == accrue_until(a, t as int),
{
    let contribution = match rate_per_share_exec(a.pool_state, a.reward_rate, a.updated_at, t) {
        None => { return None; },
        Some(c) => c,
    };
    match a.acc.checked_add(contribution) {
        None => None,
        Some(acc) => Some(Accrual { acc, updated_at: t, ..a }),
    }
}

/// Computes `rate_per_share`.
fn rate_per_share_exec(state: PoolState, rate: u128, from: u64, to: u64) -> (r: Option<u128>)
    requires
        from <= to,
    ensures
        r == rate_per_share(state, rate, from as int, to as int),
{
    if state.total_assets == 0 || state.total_shares == 0 {
        return Some(0);
    }
    let time_diff: u128 = (to - from) as u128;
    match rate.checked_mul(time_diff) {
        None => None,
        Some(product) => Some(product / state.total_shares),
    }
}

} // verus!
