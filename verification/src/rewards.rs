//! Paying out rewards to deposits, and paying rewards into the pool.

use vstd::prelude::*;
use crate::types::{Deposit, Episode, Trap, empty_episode, new_episode};
use crate::pool::Pool;
use crate::episodes::{seconds_of, episode_of_second, seconds_from_nanos, lemma_div_bracket};
use crate::{EPISODE_DURATION, PRECISION_SCALE, TRANSFER_FEE};

verus! {

/// Reward that deposit `d` has earned but not yet collected, at accumulated
/// reward per share `acc`. `None` where the arithmetic would go
/// below zero, or a product leaves the range of `u128`.
pub open spec fn uncollected_reward(d: Deposit, acc: u128) -> Option<u128> {
    if acc < d.reward_per_share {
        None
    } else if d.shares * (acc - d.reward_per_share) > u128::MAX {
        None
    } else {
        let earned = (d.shares * (acc - d.reward_per_share)) / (PRECISION_SCALE as int);
        if earned < d.rewards_collected {
            None
        } else {
            Some((earned - d.rewards_collected) as u128)
        }
    }
}

/// The deposit at position `id` of `ds`, if any.
pub open spec fn deposit_in(ds: Seq<Option<Deposit>>, id: int) -> Option<Deposit> {
    if 0 <= id < ds.len() {
        ds[id]
    } else {
        None
    }
}

/// Collects, in order, the uncollected rewards of the deposits listed in
/// `ids` (missing ones are skipped; a listed id counts once per listing).
/// With `update`, each visited deposit records what it paid out, so a later
/// listing of the same deposit sees it as collected. Gives the total and the
/// deposits afterwards; `None` where the arithmetic fails.
pub open spec fn collect_rewards(ds: Seq<Option<Deposit>>, acc: u128, ids: Seq<u64>, update: bool)
    -> Option<(u128, Seq<Option<Deposit>>)>
    decreases ids.len(),
{
    if ids.len() == 0 {
        Some((0u128, ds))
    } else {
        match collect_rewards(ds, acc, ids.drop_last(), update) {
            None => None,
            Some((total, before)) => {
                let id = ids.last() as int;
                match deposit_in(before, id) {
                    None => Some((total, before)),
                    Some(d) => match uncollected_reward(d, acc) {
                        None => None,
                        Some(u) => {
                            if total + u > u128::MAX {
                                None
                            } else {
                                let after = if update {
                                    before.update(id, Some(Deposit { rewards_collected: (d.rewards_collected + u) as u128, ..d }))
                                } else {
                                    before
                                };
                                Some(((total + u) as u128, after))
                            }
                        },
                    },
                }
            },
        }
    }
}

/// Computes `uncollected_reward`.
fn uncollected_reward_exec(d: Deposit, acc: u128) -> (r: Option<u128>)
    ensures
        r == uncollected_reward(d, acc),
{
    if acc < d.reward_per_share {
        return None;
    }
    let reward_diff = acc - d.reward_per_share;
    let product = match d.shares.checked_mul(reward_diff) {
        None => { return None; },
        Some(p) => p,
    };
    let total_earned = product / PRECISION_SCALE;
    if total_earned < d.rewards_collected {
        return None;
    }
    Some(total_earned - d.rewards_collected)
}

/// Copies a vector of optional deposits.
fn copy_deposits(ds: &Vec<Option<Deposit>>) -> (c: Vec<Option<Deposit>>)
    ensures
        c@ == ds@,
{
    let mut c: Vec<Option<Deposit>> = Vec::new();
    let n = ds.len();
    let mut i: usize = 0;
    while i < n
        invariant
            n == ds@.len(),
            i <= n,
            c@ == ds@.subrange(0, i as int),
        decreases n - i,
    {
        c.push(ds[i]);
        i = i + 1;
        assert(c@ =~= ds@.subrange(0, i as int));
    }
    assert(ds@.subrange(0, n as int) =~= ds@);
    c
}

/// The deposits of `ids` that exist all have nothing left to collect.
pub open spec fn all_collected(ds: Seq<Option<Deposit>>, acc: u128, ids: Seq<u64>) -> bool {
    forall|i: int| 0 <= i < ids.len() ==> (#[trigger] deposit_in(ds, ids[i] as int) matches Some(d)
        ==> uncollected_reward(d, acc) == Some(0u128))
}

/// When nothing is left to collect, collecting gives zero and changes nothing.
pub proof fn lemma_collect_when_all_collected(ds: Seq<Option<Deposit>>, acc: u128, ids: Seq<u64>, update: bool)
    requires
        all_collected(ds, acc, ids),
    ensures
        collect_rewards(ds, acc, ids, update) == Some((0u128, ds)),
    decreases ids.len(),
{
    if ids.len() > 0 {
        let prefix = ids.drop_last();
        assert forall|i: int| 0 <= i < prefix.len() implies (#[trigger] deposit_in(ds, prefix[i] as int) matches Some(d)
            ==> uncollected_reward(d, acc) == Some(0u128)) by {
            assert(prefix[i] == ids[i]);
        }
        lemma_collect_when_all_collected(ds, acc, prefix, update);
        let id = ids.last() as int;
        assert(deposit_in(ds, ids[ids.len() - 1] as int) == deposit_in(ds, id));
        if let Some(d) = deposit_in(ds, id) {
            let d2 = Deposit { rewards_collected: (d.rewards_collected + 0) as u128, ..d };
            assert(d2 == d);
            if update {
                assert(ds.update(id, Some(d2)) =~= ds);
            }
        }
    }
}

/// After collecting with `update`, every listed deposit has nothing left
/// to collect, and the same deposits exist as before.
pub proof fn lemma_collect_settles(ds: Seq<Option<Deposit>>, acc: u128, ids: Seq<u64>)
    requires
        collect_rewards(ds, acc, ids, true) is Some,
    ensures
        all_collected(collect_rewards(ds, acc, ids, true).unwrap().1, acc, ids),
        collect_rewards(ds, acc, ids, true).unwrap().1.len() == ds.len(),
        forall|id: int| (#[trigger] deposit_in(collect_rewards(ds, acc, ids, true).unwrap().1, id)) is Some
            <==> deposit_in(ds, id) is Some,
    decreases ids.len(),
{
    if ids.len() > 0 {
        let prefix = ids.drop_last();
        lemma_collect_settles(ds, acc, prefix);
        let before = collect_rewards(ds, acc, prefix, true).unwrap().1;
        let after = collect_rewards(ds, acc, ids, true).unwrap().1;
        let id = ids.last() as int;
        match deposit_in(before, id) {
            None => {
                assert(after == before);
                assert forall|i: int| 0 <= i < ids.len() implies (#[trigger] deposit_in(after, ids[i] as int) matches Some(d)
                    ==> uncollected_reward(d, acc) == Some(0u128)) by {
                    if i < ids.len() - 1 {
                        assert(prefix[i] == ids[i]);
                    }
                }
            },
            Some(d) => {
                let u = uncollected_reward(d, acc).unwrap();
                let d2 = Deposit { rewards_collected: (d.rewards_collected + u) as u128, ..d };
                assert(after == before.update(id, Some(d2)));
                assert(uncollected_reward(d2, acc) == Some(0u128));
                assert forall|i: int| 0 <= i < ids.len() implies (#[trigger] deposit_in(after, ids[i] as int) matches Some(dd)
                    ==> uncollected_reward(dd, acc) == Some(0u128)) by {
                    if ids[i] as int == id {
                    } else {
                        assert(prefix[i] == ids[i]);
                        assert(deposit_in(after, ids[i] as int) == deposit_in(before, ids[i] as int));
                    }
                }
                assert forall|k: int| (#[trigger] deposit_in(after, k)) is Some <==> deposit_in(ds, k) is Some by {
                    assert(deposit_in(before, k) is Some <==> deposit_in(ds, k) is Some);
                }
            },
        }
    }
}

/// Collecting the same deposits a second time, with the accumulated reward
/// per share unchanged, pays nothing and changes nothing.
pub proof fn lemma_collect_twice_pays_nothing(ds: Seq<Option<Deposit>>, acc: u128, ids: Seq<u64>, update: bool)
    requires
        collect_rewards(ds, acc, ids, true) is Some,
    ensures
        collect_rewards(collect_rewards(ds, acc, ids, true).unwrap().1, acc, ids, update)
            == Some((0u128, collect_rewards(ds, acc, ids, true).unwrap().1)),
{
    lemma_collect_settles(ds, acc, ids);
    lemma_collect_when_all_collected(collect_rewards(ds, acc, ids, true).unwrap().1, acc, ids, update);
}

impl Pool {
    /// Collects the uncollected rewards of the listed deposits, as
    /// `collect_rewards` describes; with `update_deposit` the deposits record
    /// the payout. Traps, changing nothing, when the arithmetic fails.
    pub fn collect_deposit_rewards(&mut self, deposit_ids: &Vec<u64>, update_deposit: bool) -> (r: Result<u128, Trap>)
        requires
            old(self).wf(),
        ensures
            final(self).wf(),
            match collect_rewards(old(self).deposits@, old(self).accumulated_reward_per_share, deposit_ids@, update_deposit) {
                None => r is Err && *final(self) == *old(self),
                Some((total, after)) => r == Ok::<u128, Trap>(total)
                    && final(self).deposits@ == after
                    && final(self).only_deposits_changed(old(self)),
            },
    {
        match collect_over(&self.deposits, self.accumulated_reward_per_share, deposit_ids, update_deposit) {
            None => Err(Trap),
            Some((total, work)) => {
                proof {
                    if update_deposit {
                        lemma_collect_settles(self.deposits@, self.accumulated_reward_per_share, deposit_ids@);
                    } else {
                        lemma_collect_read_only(self.deposits@, self.accumulated_reward_per_share, deposit_ids@);
                    }
                }
                if update_deposit {
                    self.deposits = work;
                }
                Ok(total)
            },
        }
    }

    /// Only the deposits differ between the two states.
    pub open spec fn only_deposits_changed(&self, other: &Pool) -> bool {
        &&& self.token_id == other.token_id
        &&& self.executor == other.executor
        &&& self.pool_manager == other.pool_manager
        &&& self.total_cover_allocation == other.total_cover_allocation
        &&& self.user_deposits == other.user_deposits
        &&& self.products == other.products
        &&& self.allocation_cuts == other.allocation_cuts
        &&& self.coverages == other.coverages
        &&& self.episodes == other.episodes
        &&& self.accrual() == other.accrual()
        &&& self.deposits@.len() == other.deposits@.len()
    }

    /// Rewards the listed deposits could collect now (nothing is recorded).
    pub fn get_deposits_rewards(&self, deposit_ids: &Vec<u64>) -> (r: Result<u128, Trap>)
        requires
            self.wf(),
        ensures
            match collect_rewards(self.deposits@, self.accumulated_reward_per_share, deposit_ids@, false) {
                None => r is Err,
                Some((total, _)) => r == Ok::<u128, Trap>(total),
            },
    {
        match collect_over(&self.deposits, self.accumulated_reward_per_share, deposit_ids, false) {
            None => Err(Trap),
            Some((total, _)) => Ok(total),
        }
    }
}

/// Computes `collect_rewards` over a copy of the deposits.
fn collect_over(deposits: &Vec<Option<Deposit>>, acc: u128, deposit_ids: &Vec<u64>, update_deposit: bool)
    -> (r: Option<(u128, Vec<Option<Deposit>>)>)
    ensures
        match collect_rewards(deposits@, acc, deposit_ids@, update_deposit) {
            None => r is None,
            Some((total, after)) => r matches Some((t, v)) && t == total && v@ == after,
        },
{
    let mut work = copy_deposits(deposits);
    let mut total_rewards: u128 = 0;
    let n = deposit_ids.len();
    let mut i: usize = 0;
    while i < n
        invariant
            n == deposit_ids@.len(),
            i <= n,
            collect_rewards(deposits@, acc, deposit_ids@.subrange(0, i as int), update_deposit)
                == Some((total_rewards, work@)),
        decreases n - i,
    {
        let id = deposit_ids[i];
        let ghost prefix = deposit_ids@.subrange(0, i as int);
        let ghost next = deposit_ids@.subrange(0, i as int + 1);
        assert(next.drop_last() =~= prefix);
        assert(next.last() == id);
        let entry = if id < work.len() as u64 { work[id as usize] } else { None };
        assert(entry == deposit_in(work@, id as int));
        match entry {
            None => {},
            Some(d) => {
                match uncollected_reward_exec(d, acc) {
                    None => {
                        proof { lemma_collect_none_propagates(deposits@, acc, deposit_ids@, i as int + 1, update_deposit); }
                        return None;
                    },
                    Some(uncollected) => {
                        match total_rewards.checked_add(uncollected) {
                            None => {
                                proof { lemma_collect_none_propagates(deposits@, acc, deposit_ids@, i as int + 1, update_deposit); }
                                return None;
                            },
                            Some(t) => {
                                total_rewards = t;
                            },
                        }
                        if update_deposit {
                            let updated = Deposit { rewards_collected: d.rewards_collected + uncollected, ..d };
                            work.set(id as usize, Some(updated));
                        }
                    },
                }
            },
        }
        i = i + 1;
    }
    assert(deposit_ids@.subrange(0, n as int) =~= deposit_ids@);
    Some((total_rewards, work))
}

/// Collecting changes no deposit's shares or episode, and empties or fills no slot.
pub proof fn lemma_collect_keeps_stakes(ds: Seq<Option<Deposit>>, acc: u128, ids: Seq<u64>, update: bool)
    requires
        collect_rewards(ds, acc, ids, update) is Some,
    ensures
        ({
            let after = collect_rewards(ds, acc, ids, update).unwrap().1;
            &&& after.len() == ds.len()
            &&& forall|k: int| 0 <= k < ds.len() ==> (match (#[trigger] after[k], ds[k]) {
                    (None, None) => true,
                    (Some(x), Some(y)) => x.shares == y.shares && x.episode == y.episode,
                    _ => false,
                })
        }),
    decreases ids.len(),
{
    if ids.len() > 0 {
        lemma_collect_keeps_stakes(ds, acc, ids.drop_last(), update);
    }
}

/// Collecting without `update` leaves the deposits as they were.
pub proof fn lemma_collect_read_only(ds: Seq<Option<Deposit>>, acc: u128, ids: Seq<u64>)
    ensures
        collect_rewards(ds, acc, ids, false) matches Some((_, after)) ==> after == ds,
    decreases ids.len(),
{
    if ids.len() > 0 {
        lemma_collect_read_only(ds, acc, ids.drop_last());
    }
}

/// Once collecting fails on a prefix of the list, it fails on the whole list.
pub proof fn lemma_collect_none_propagates(ds: Seq<Option<Deposit>>, acc: u128, ids: Seq<u64>, k: int, update: bool)
    requires
        0 <= k <= ids.len(),
        collect_rewards(ds, acc, ids.subrange(0, k), update) is None,
    ensures
        collect_rewards(ds, acc, ids, update) is None,
    decreases ids.len() - k,
{
    if k == ids.len() {
        assert(ids.subrange(0, k) =~= ids);
    } else {
        assert(ids.subrange(0, k + 1).drop_last() =~= ids.subrange(0, k));
        lemma_collect_none_propagates(ds, acc, ids, k + 1, update);
    }
}

/// Last episode that pays out a reward paid in at second `now` and spread
/// over `horizon` seconds.
pub open spec fn reward_last_episode(now: int, horizon: int) -> int {
    episode_of_second(now + horizon)
}

/// Episode on which the rate increase of such a reward is scheduled to be
/// undone: the one after its last episode, so the raised rate holds until
/// that episode expires.
pub open spec fn reward_end_episode(now: int, horizon: int) -> int {
    reward_last_episode(now, horizon) + 1
}

/// Seconds over which the rate increase of such a reward is computed: up to
/// the end of its last episode.
pub open spec fn reward_duration(now: int, horizon: int) -> int {
    (reward_last_episode(now, horizon) + 1) * EPISODE_DURATION - now
}

/// Increase of the reward rate when `amount` is paid in at second `now`
/// over `horizon` seconds: `amount * PRECISION_SCALE / duration`.
pub open spec fn reward_rate_increase(amount: u128, now: int, horizon: int) -> Option<u128> {
    if amount * PRECISION_SCALE > u128::MAX {
        None
    } else {
        Some(((amount * PRECISION_SCALE) / reward_duration(now, horizon)) as u128)
    }
}

/// `e`, or an empty episode when there is none.
pub open spec fn episode_or_empty(e: Option<Episode>) -> Episode {
    match e {
        Some(ep) => ep,
        None => empty_episode(),
    }
}

impl Pool {
    /// `self` is `old` with the reward rate raised by `inc`, and the same
    /// decrease scheduled on episode `target` (created empty when absent).
    pub open spec fn is_streaming_from(&self, old: &Pool, inc: u128, target: int) -> bool {
        let base = episode_or_empty(old.episode(target));
        &&& self.pool_reward_rate == old.pool_reward_rate + inc
        &&& forall|k: int| #[trigger] self.episode(k) == (if k == target {
                Some(Episode { reward_decrease: (base.reward_decrease + inc) as u128, ..base })
            } else {
                old.episode(k)
            })
        &&& self.same_except_accrual(old)
        &&& self.pool_state == old.pool_state
        &&& self.accumulated_reward_per_share == old.accumulated_reward_per_share
        &&& self.last_time_updated == old.last_time_updated
    }

    /// Whether raising the rate by `inc` and scheduling its end on `target`
    /// stays within the range of `u128`.
    pub open spec fn stream_fits(&self, inc: u128, target: int) -> bool {
        &&& self.pool_reward_rate + inc <= u128::MAX
        &&& episode_or_empty(self.episode(target)).reward_decrease + inc <= u128::MAX
    }

    /// Raises the reward rate by `amount` spread from `now_secs` to the end
    /// of the episode containing `now_secs + horizon`; the matching rate
    /// decrease is scheduled on the episode after that one.
    fn add_reward_stream(&mut self, amount: u128, now_secs: u64, horizon: u64)
        -> (r: Result<(), Trap>)
        requires
            old(self).wf(),
            now_secs <= u64::MAX / 1_000_000_000,
            horizon <= 23 * EPISODE_DURATION,
        ensures
            final(self).wf(),
            match reward_rate_increase(amount, now_secs as int, horizon as int) {
                None => r is Err && *final(self) == *old(self),
                Some(inc) => {
                    let target = reward_end_episode(now_secs as int, horizon as int);
                    if old(self).stream_fits(inc, target) {
                        r is Ok && final(self).is_streaming_from(old(self), inc, target)
                    } else {
                        r is Err && *final(self) == *old(self)
                    }
                },
            },
    {
        proof {
            lemma_div_bracket(now_secs + horizon, EPISODE_DURATION as int);
            lemma_div_bracket(now_secs as int, EPISODE_DURATION as int);
            assert((now_secs + horizon) / (EPISODE_DURATION as int) <= 7038 + 23) by (nonlinear_arith)
                requires now_secs + horizon <= 18446744073 + 23 * 2620800;
        }
        let last_reward_episode = (now_secs + horizon) / EPISODE_DURATION;
        let reward_duration = (last_reward_episode + 1) * EPISODE_DURATION - now_secs;
        let scaled = match amount.checked_mul(PRECISION_SCALE) {
            None => { return Err(Trap); },
            Some(v) => v,
        };
        let reward_rate_increase = scaled / (reward_duration as u128);
        let target_episode_id = last_reward_episode + 1;
        let new_rate = match self.pool_reward_rate.checked_add(reward_rate_increase) {
            None => { return Err(Trap); },
            Some(v) => v,
        };
        let base = match self.get_episode(target_episode_id) {
            Some(e) => e,
            None => new_episode(),
        };
        let decrease = match base.reward_decrease.checked_add(reward_rate_increase) {
            None => { return Err(Trap); },
            Some(v) => v,
        };
        self.pool_reward_rate = new_rate;
        self.put_episode(target_episode_id, Episode { reward_decrease: decrease, ..base });
        Ok(())
    }

    /// Completes a reward payment once the pool has swept `balance` from the
    /// reward subaccount at clock reading `now_ns`: the rate rises by the net
    /// amount (`balance - TRANSFER_FEE`) spread over the time to the end of
    /// the episode containing `now + 12` episodes, and the matching decrease
    /// is scheduled on the episode after that one, as for premiums. The
    /// raised rate thus holds one episode beyond the span it was computed
    /// on, and a staker who stays through that episode is credited up to
    /// one episode's worth more than the amount paid in; the pool's reward
    /// tests fix this schedule. Traps when `balance` is below the fee or the
    /// arithmetic leaves `u128`.
    pub fn reward_pool_finish(&mut self, balance: u128, now_ns: u64) -> (r: Result<(), Trap>)
        requires
            old(self).wf(),
        ensures
            final(self).wf(),
            balance < TRANSFER_FEE ==> r is Err && *final(self) == *old(self),
            balance >= TRANSFER_FEE ==> match reward_rate_increase((balance - TRANSFER_FEE) as u128,
                    seconds_of(now_ns), 12 * EPISODE_DURATION) {
                None => r is Err && *final(self) == *old(self),
                Some(inc) => {
                    let target = reward_end_episode(seconds_of(now_ns), 12 * EPISODE_DURATION);
                    if old(self).stream_fits(inc, target) {
                        r is Ok && final(self).is_streaming_from(old(self), inc, target)
                    } else {
                        r is Err && *final(self) == *old(self)
                    }
                },
            },
    {
        if balance < TRANSFER_FEE {
            return Err(Trap);
        }
        let amount = balance - TRANSFER_FEE;
        let current_time = seconds_from_nanos(now_ns);
        self.add_reward_stream(amount, current_time, EPISODE_DURATION * 12)
    }

    /// Streams a premium of `amount` to stakers over a cover of
    /// `coverage_duration` seconds starting at `now_ns`; the matching rate
    /// decrease is scheduled on the episode after the last one paid.
    pub fn reward_pool_with_duration(&mut self, amount: u128, coverage_duration: u64, now_ns: u64)
        -> (r: Result<(), Trap>)
        requires
            old(self).wf(),
            coverage_duration <= 23 * EPISODE_DURATION,
        ensures
            final(self).wf(),
            match reward_rate_increase(amount, seconds_of(now_ns), coverage_duration as int) {
                None => r is Err && *final(self) == *old(self),
                Some(inc) => {
                    let target = reward_end_episode(seconds_of(now_ns), coverage_duration as int);
                    if old(self).stream_fits(inc, target) {
                        r is Ok && final(self).is_streaming_from(old(self), inc, target)
                    } else {
                        r is Err && *final(self) == *old(self)
                    }
                },
            },
    {
        let current_time = seconds_from_nanos(now_ns);
        self.add_reward_stream(amount, current_time, coverage_duration)
    }
}

} // verus!
