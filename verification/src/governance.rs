//! Who may slash the pool, and how a slash is spread over the active episodes.

use vstd::prelude::*;
use crate::types::{Episode, Trap, PoolError};
use crate::pool::Pool;
use crate::principal::{same_principal, copy_principal};
use crate::episodes::{episode_at, get_current_episode};
use crate::rewards::collect_rewards;
use crate::MAX_ACTIVE_EPISODES;
use crate::accounting::{totals_match, live_from};
use crate::laws::lemma_slash_takes_at_most_amount;

verus! {

/// Part of a slash of `amount` borne by episode `e` when the pool holds
/// `total_assets`: in proportion to its assets. `None` when the pool is
/// empty (division by zero), the product leaves `u128`, or the part exceeds
/// the episode's assets.
pub open spec fn slash_share(amount: u128, e: Episode, total_assets: u128) -> Option<u128> {
    if total_assets == 0 || amount * e.assets_staked > u128::MAX {
        None
    } else {
        let s = (amount * e.assets_staked) / (total_assets as int);
        if s > e.assets_staked {
            None
        } else {
            Some(s as u128)
        }
    }
}

impl Pool {
    /// Total slashed from the episodes in `from..to`, each bearing its
    /// `slash_share`. `None` where the arithmetic fails.
    pub open spec fn slashed_total(&self, amount: u128, from: int, to: int) -> Option<u128>
        decreases to - from,
    {
        if to <= from {
            Some(0u128)
        } else {
            match self.slashed_total(amount, from, to - 1) {
                None => None,
                Some(t) => match self.episode(to - 1) {
                    None => Some(t),
                    Some(e) => match slash_share(amount, e, self.pool_state.total_assets) {
                        None => None,
                        Some(s) => if t + s > u128::MAX { None } else { Some((t + s) as u128) },
                    },
                },
            }
        }
    }

    /// Episode `k` after a slash of `amount` over the episodes in `from..to`.
    pub open spec fn slashed_episode(&self, amount: u128, from: int, to: int, k: int) -> Option<Episode> {
        match self.episode(k) {
            Some(e) => if from <= k < to {
                Some(Episode {
                    assets_staked: (e.assets_staked - slash_share(amount, e, self.pool_state.total_assets).unwrap()) as u128,
                    ..e
                })
            } else {
                Some(e)
            },
            None => None,
        }
    }

    /// Appoints `pool_manager` as the principal that manages cover
    /// products; only the slashing executor may do so.
    pub fn set_pool_manager_principal(&mut self, caller: &[u8], pool_manager: &Vec<u8>) -> (r: Result<(), PoolError>)
        requires
            old(self).wf(),
        ensures
            final(self).wf(),
            caller@ != old(self).executor@ ==> r == Err::<(), PoolError>(PoolError::NotSlashingExecutor)
                && *final(self) == *old(self),
            caller@ == old(self).executor@ ==> r is Ok && final(self).pool_manager@ == pool_manager@
                && *final(self) == (Pool { pool_manager: final(self).pool_manager, ..*old(self) }),
    {
        if !same_principal(caller, self.executor.as_slice()) {
            return Err(PoolError::NotSlashingExecutor);
        }
        self.pool_manager = copy_principal(pool_manager);
        Ok(())
    }

    /// `self` is `old` once `amount` was slashed over the episodes in
    /// `from..to`, which together lost `t`: each lost its `slash_share`, and
    /// the pool's assets dropped by `t`; nothing else changes.
    pub open spec fn is_slashed_from(&self, old: &Pool, amount: u128, from: int, to: int, t: u128) -> bool {
        &&& self.wf()
        &&& self.pool_state.total_assets == old.pool_state.total_assets - t
        &&& self.pool_state.total_shares == old.pool_state.total_shares
        &&& forall|k: int| #[trigger] self.episode(k) == old.slashed_episode(amount, from, to, k)
        &&& self.same_except_accrual(old)
        &&& self.pool_reward_rate == old.pool_reward_rate
        &&& self.accumulated_reward_per_share == old.accumulated_reward_per_share
        &&& self.last_time_updated == old.last_time_updated
    }

    /// Replaces the slashing executor with `executor`; only the current
    /// executor may do so.
    pub fn set_executor_principal(&mut self, caller: &[u8], executor: &Vec<u8>) -> (r: Result<(), PoolError>)
        requires
            old(self).wf(),
        ensures
            final(self).wf(),
            caller@ != old(self).executor@ ==> r == Err::<(), PoolError>(PoolError::NotSlashingExecutor)
                && *final(self) == *old(self),
            caller@ == old(self).executor@ ==> r is Ok && final(self).executor@ == executor@
                && final(self).token_id == old(self).token_id
                && final(self).pool_manager == old(self).pool_manager
                && final(self).accrual() == old(self).accrual()
                && final(self).deposits == old(self).deposits
                && final(self).user_deposits == old(self).user_deposits
                && final(self).episodes == old(self).episodes
                && final(self).products == old(self).products
                && final(self).coverages == old(self).coverages
                && final(self).allocation_cuts == old(self).allocation_cuts
                && final(self).total_cover_allocation == old(self).total_cover_allocation,
    {
        if !same_principal(caller, self.executor.as_slice()) {
            return Err(PoolError::NotSlashingExecutor);
        }
        self.executor = copy_principal(executor);
        Ok(())
    }

    /// Slashes `amount` from the pool for `caller` at clock reading `now_ns`:
    /// only the executor may slash, and not more than the pool's assets
    /// (`InsufficientBalance`, nothing slashed); every active episode (the
    /// current one and the next `MAX_ACTIVE_EPISODES - 1`) loses its
    /// proportional part of `amount`, and the pool's assets drop by the
    /// total, which is returned to be sent to the receiver. While the
    /// pool's totals are those of its live episodes and the clock has not
    /// gone back, that total is at most `amount`. Traps, changing nothing,
    /// when the arithmetic fails.
    pub fn slash_begin(&mut self, caller: &[u8], amount: u128, now_ns: u64)
        -> (r: Result<Result<u128, PoolError>, Trap>)
        requires
            old(self).wf(),
        ensures
            caller@ != old(self).executor@ ==> r == Ok::<Result<u128, PoolError>, Trap>(
                Err::<u128, PoolError>(PoolError::NotSlashingExecutor)) && *final(self) == *old(self),
            caller@ == old(self).executor@ && amount > old(self).pool_state.total_assets ==> r == Ok::<
                Result<u128, PoolError>, Trap>(Err::<u128, PoolError>(PoolError::InsufficientBalance))
                && *final(self) == *old(self),
            caller@ == old(self).executor@ && amount <= old(self).pool_state.total_assets ==> {
                let from = episode_at(now_ns);
                let to = from + MAX_ACTIVE_EPISODES;
                match old(self).slashed_total(amount, from, to) {
                    None => r is Err && *final(self) == *old(self),
                    Some(t) => if t > old(self).pool_state.total_assets {
                        r is Err && *final(self) == *old(self)
                    } else {
                        &&& r == Ok::<Result<u128, PoolError>, Trap>(Ok::<u128, PoolError>(t))
                        &&& final(self).is_slashed_from(old(self), amount, from, to, t)
                    },
                }
            },
            totals_match(*old(self)) && live_from(*old(self)) <= episode_at(now_ns)
                ==> (r matches Ok(Ok(t)) ==> t <= amount),
    {
        if !same_principal(caller, self.executor.as_slice()) {
            return Ok(Err(PoolError::NotSlashingExecutor));
        }
        if amount > self.pool_state.total_assets {
            return Ok(Err(PoolError::InsufficientBalance));
        }
        let current_episode = get_current_episode(now_ns);
        let end = current_episode + MAX_ACTIVE_EPISODES;
        let total_assets = self.pool_state.total_assets;
        let ghost start = *self;
        let ghost from = current_episode as int;
        match self.slashed_total_exec(amount, current_episode, end) {
            None => { return Err(Trap); },
            Some(t) => {
                if t > total_assets {
                    return Err(Trap);
                }
            },
        }
        let mut accumulated_slashed: u128 = 0;
        let mut i = current_episode;
        while i < end
            invariant
                start.wf(),
                start == *old(self),
                caller@ == start.executor@,
                current_episode == episode_at(now_ns),
                self.wf(),
                from == current_episode,
                end == current_episode + MAX_ACTIVE_EPISODES,
                current_episode <= 7038,
                from <= i <= end,
                total_assets == start.pool_state.total_assets,
                amount <= total_assets,
                start.slashed_total(amount, from, end as int) is Some,
                start.slashed_total(amount, from, end as int).unwrap() <= total_assets,
                start.slashed_total(amount, from, i as int) == Some(accumulated_slashed),
                forall|k: int| #[trigger] self.episode(k) == start.slashed_episode(amount, from, i as int, k),
                self.same_except_accrual(&start),
                self.accrual() == start.accrual(),
            decreases end - i,
        {
            match self.get_episode(i) {
                None => {},
                Some(e) => {
                    assert(e == start.episode(i as int).unwrap());
                    let s = match slash_share_exec(amount, e, total_assets) {
                        None => {
                            proof { start.lemma_slashed_none_propagates(amount, from, i as int + 1, end as int); }
                            return Err(Trap);
                        },
                        Some(s) => s,
                    };
                    accumulated_slashed = match accumulated_slashed.checked_add(s) {
                        None => {
                            proof { start.lemma_slashed_none_propagates(amount, from, i as int + 1, end as int); }
                            return Err(Trap);
                        },
                        Some(v) => v,
                    };
                    let ghost mid = *self;
                    self.put_episode(i, Episode { assets_staked: e.assets_staked - s, ..e });
                    assert forall|k: int| #[trigger] self.episode(k) == start.slashed_episode(amount, from, i as int + 1, k) by {
                        if k != i {
                            assert(mid.episode(k) == start.slashed_episode(amount, from, i as int, k));
                        }
                    }
                },
            }
            i = i + 1;
            proof {
                assert forall|k: int| #[trigger] self.episode(k) == start.slashed_episode(amount, from, i as int, k) by {
                    if k == i - 1 {
                        assert(self.episode(k) == start.episode(k) || self.episode(k) == start.slashed_episode(amount, from, i as int, k));
                    }
                }
            }
        }
        if accumulated_slashed > self.pool_state.total_assets {
            return Err(Trap);
        }
        let ghost before = *self;
        self.pool_state.total_assets = self.pool_state.total_assets - accumulated_slashed;
        assert forall|k: int| #[trigger] self.episode(k) == start.slashed_episode(amount, from, end as int, k) by {
            assert(before.episode(k) == self.episode(k));
        }
        proof {
            if totals_match(start) && live_from(start) <= from {
                lemma_slash_takes_at_most_amount(start, amount, from, end as int);
            }
        }
        Ok(Ok(accumulated_slashed))
    }

    /// Computes `slashed_total` over the episodes in `from..to`.
    fn slashed_total_exec(&self, amount: u128, from: u64, to: u64) -> (r: Option<u128>)
        requires
            from <= to,
        ensures
            r == self.slashed_total(amount, from as int, to as int),
    {
        let mut total: u128 = 0;
        let mut i = from;
        while i < to
            invariant
                from <= i <= to,
                self.slashed_total(amount, from as int, i as int) == Some(total),
            decreases to - i,
        {
            match self.get_episode(i) {
                None => {},
                Some(e) => {
                    let s = match slash_share_exec(amount, e, self.pool_state.total_assets) {
                        None => {
                            proof { self.lemma_slashed_none_propagates(amount, from as int, i as int + 1, to as int); }
                            return None;
                        },
                        Some(s) => s,
                    };
                    total = match total.checked_add(s) {
                        None => {
                            proof { self.lemma_slashed_none_propagates(amount, from as int, i as int + 1, to as int); }
                            return None;
                        },
                        Some(v) => v,
                    };
                },
            }
            i = i + 1;
        }
        Some(total)
    }

    /// Once slashing fails on a prefix of the range, it fails on the whole range.
    pub proof fn lemma_slashed_none_propagates(&self, amount: u128, from: int, k: int, to: int)
        requires
            from <= k <= to,
            self.slashed_total(amount, from, k) is None,
        ensures
            self.slashed_total(amount, from, to) is None,
        decreases to - k,
    {
        if k < to {
            self.lemma_slashed_none_propagates(amount, from, k + 1, to);
        }
    }

    /// First part of paying out the rewards of the listed deposits to
    /// `caller`: every listed identifier must be in the caller's list of
    /// deposits; then the rewards of those deposits that exist are
    /// collected and recorded, and the total is returned to be transferred.
    pub fn withdraw_rewards_begin(&mut self, caller: &[u8], deposit_ids: &Vec<u64>)
        -> (r: Result<Result<u128, PoolError>, Trap>)
        requires
            old(self).wf(),
        ensures
            (exists|i: int| 0 <= i < deposit_ids@.len() && !old(self).owns(caller@, #[trigger] deposit_ids@[i]))
                ==> r == Ok::<Result<u128, PoolError>, Trap>(Err::<u128, PoolError>(PoolError::NotOwner))
                    && *final(self) == *old(self),
            (forall|i: int| 0 <= i < deposit_ids@.len() ==> old(self).owns(caller@, #[trigger] deposit_ids@[i]))
                ==> match collect_rewards(old(self).deposits@, old(self).accumulated_reward_per_share, deposit_ids@, true) {
                    None => r is Err,
                    Some((total, after)) => r == Ok::<Result<u128, PoolError>, Trap>(Ok::<u128, PoolError>(total))
                        && final(self).wf()
                        && final(self).deposits@ == after
                        && final(self).only_deposits_changed(old(self)),
                },
    {
        let n = deposit_ids.len();
        let mut i: usize = 0;
        while i < n
            invariant
                self.wf(),
                n == deposit_ids@.len(),
                i <= n,
                forall|j: int| 0 <= j < i ==> self.owns(caller@, #[trigger] deposit_ids@[j]),
            decreases n - i,
        {
            if !self.is_owner(caller, deposit_ids[i]) {
                return Ok(Err(PoolError::NotOwner));
            }
            i = i + 1;
        }
        match self.collect_deposit_rewards(deposit_ids, true) {
            Err(t) => Err(t),
            Ok(total) => Ok(Ok(total)),
        }
    }
}

/// Computes `slash_share`.
fn slash_share_exec(amount: u128, e: Episode, total_assets: u128) -> (r: Option<u128>)
    ensures
        r == slash_share(amount, e, total_assets),
{
    if total_assets == 0 {
        return None;
    }
    let product = match amount.checked_mul(e.assets_staked) {
        None => { return None; },
        Some(p) => p,
    };
    let s = product / total_assets;
    if s > e.assets_staked {
        None
    } else {
        Some(s)
    }
}

} // verus!
