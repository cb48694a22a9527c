//! Cover products: how much cover a product has sold, whether the pool can
//! carry more, what cover costs, and the record of purchased covers.

use vstd::prelude::*;
use crate::types::{Episode, Trap, PoolError, Product, Coverage, AllocationCut, UserCoverages, new_episode};
use crate::pool::Pool;
use crate::principal::{same_principal, copy_principal, is_anonymous, anonymous_bytes};
use crate::episodes::{seconds_of, episode_at, episode_of_second, seconds_from_nanos, get_current_episode,
    lemma_div_bracket};
use crate::rewards::episode_or_empty;
use crate::{EPISODE_DURATION, MAX_ACTIVE_EPISODES, TRANSFER_FEE};

verus! {

/// Basis points in one whole.
pub const BASIS_POINTS: u64 = 10_000;

/// Seconds in a (365-day) year.
pub const SECONDS_PER_YEAR: u64 = 365 * 24 * 60 * 60;

/// Cover of product `product_id` expiring with episode `episode`: the
/// latest entry for that pair, zero when there is none.
pub open spec fn cut_of(cuts: Seq<AllocationCut>, product_id: u64, episode: u64) -> u128
    decreases cuts.len(),
{
    if cuts.len() == 0 {
        0
    } else if cuts.last().product_id == product_id && cuts.last().episode == episode {
        cuts.last().amount
    } else {
        cut_of(cuts.drop_last(), product_id, episode)
    }
}

/// Looks up `cut_of`.
pub fn get_allocation_cut(cuts: &Vec<AllocationCut>, product_id: u64, episode: u64) -> (amount: u128)
    ensures
        amount == cut_of(cuts@, product_id, episode),
{
    let mut i = cuts.len();
    assert(cuts@.subrange(0, i as int) =~= cuts@);
    while i > 0
        invariant
            i <= cuts@.len(),
            cut_of(cuts@, product_id, episode) == cut_of(cuts@.subrange(0, i as int), product_id, episode),
        decreases i,
    {
        let c = cuts[i - 1];
        assert(cuts@.subrange(0, i as int).drop_last() =~= cuts@.subrange(0, i - 1));
        if c.product_id == product_id && c.episode == episode {
            return c.amount;
        }
        i = i - 1;
    }
    0
}

/// Sum of the cuts of `product_id` over the episodes `from..=to`. `None`
/// when the sum leaves `u128`.
pub open spec fn cuts_between(cuts: Seq<AllocationCut>, product_id: u64, from: int, to: int) -> Option<u128>
    decreases to - from + 1,
{
    if to < from {
        Some(0u128)
    } else {
        match cuts_between(cuts, product_id, from, to - 1) {
            None => None,
            Some(s) => {
                let c = cut_of(cuts, product_id, to as u64);
                if s + c > u128::MAX { None } else { Some((s + c) as u128) }
            },
        }
    }
}

/// The cover product `p` still carries at clock reading `now_ns`: what it
/// recorded, unless the episode changed since, in which case the cover that
/// expired in the episodes from its last update up to the current one is
/// taken off, and all of it is gone once `MAX_ACTIVE_EPISODES` episodes
/// passed. `None` when the arithmetic fails.
pub open spec fn current_allocation(cuts: Seq<AllocationCut>, p: Product, now_ns: u64) -> Option<u128> {
    let last = episode_of_second(p.last_allocation_update as int);
    let current = episode_at(now_ns);
    if last == current {
        Some(p.allocation)
    } else if current >= last + MAX_ACTIVE_EPISODES {
        Some(0u128)
    } else {
        match cuts_between(cuts, p.product_id, last, current) {
            None => None,
            Some(c) => if c > p.allocation { None } else { Some((p.allocation - c) as u128) },
        }
    }
}

/// Premium of a cover: `duration * annual_percent * amount` over a year of
/// basis points. `None` when the product leaves `u128`.
pub open spec fn premium(coverage_duration: u64, annual_percent: u64, coverage_amount: u128) -> Option<u128> {
    if coverage_duration * annual_percent * coverage_amount > u128::MAX {
        None
    } else {
        Some(((coverage_duration * annual_percent * coverage_amount)
            / (SECONDS_PER_YEAR * BASIS_POINTS) as int) as u128)
    }
}

/// Computes the premium of a cover of `coverage_amount` for
/// `coverage_duration` seconds at `annual_percent` basis points a year.
pub fn calculate_premium(coverage_duration: u64, annual_percent: u64, coverage_amount: u128) -> (r: Option<u128>)
    ensures
        r == premium(coverage_duration, annual_percent, coverage_amount),
{
    assert((coverage_duration as u128) * (annual_percent as u128) <= u64::MAX * u64::MAX) by (nonlinear_arith);
    let a = (coverage_duration as u128) * (annual_percent as u128);
    match a.checked_mul(coverage_amount) {
        None => None,
        Some(p) => Some(p / ((SECONDS_PER_YEAR as u128) * (BASIS_POINTS as u128))),
    }
}

/// Whether product parameters are acceptable: a cover lasts at least one
/// episode and ends before the active window does, the allocation limit
/// is at most the whole pool, and the premium rate is positive.
pub open spec fn valid_product_parameters(annual_percent: u64, max_coverage_duration: u64,
    max_pool_allocation_percent: u64) -> bool {
    &&& max_coverage_duration >= EPISODE_DURATION
    &&& max_coverage_duration < (MAX_ACTIVE_EPISODES - 1) * EPISODE_DURATION
    &&& max_pool_allocation_percent <= BASIS_POINTS
    &&& annual_percent != 0
}

/// Checks product parameters; see `valid_product_parameters`.
fn check_product_parameters(annual_percent: u64, max_coverage_duration: u64,
    max_pool_allocation_percent: u64) -> (ok: bool)
    ensures
        ok == valid_product_parameters(annual_percent, max_coverage_duration, max_pool_allocation_percent),
{
    if max_coverage_duration < EPISODE_DURATION {
        return false;
    }
    assert((MAX_ACTIVE_EPISODES - 1) * EPISODE_DURATION == 23 * 2620800);
    if max_coverage_duration >= (MAX_ACTIVE_EPISODES - 1) * EPISODE_DURATION {
        return false;
    }
    if max_pool_allocation_percent > BASIS_POINTS {
        return false;
    }
    if annual_percent == 0 {
        return false;
    }
    true
}

/// `a` and `b` describe the same product.
pub open spec fn same_product(a: Product, b: Product) -> bool {
    &&& a.name@ == b.name@
    &&& a.product_id == b.product_id
    &&& a.annual_percent == b.annual_percent
    &&& a.max_coverage_duration == b.max_coverage_duration
    &&& a.max_pool_allocation_percent == b.max_pool_allocation_percent
    &&& a.allocation == b.allocation
    &&& a.last_allocation_update == b.last_allocation_update
    &&& a.active == b.active
}

/// `a` and `b` describe the same cover.
pub open spec fn same_coverage(a: Coverage, b: Coverage) -> bool {
    &&& a.coverage_id == b.coverage_id
    &&& a.buyer@ == b.buyer@
    &&& a.covered_account@ == b.covered_account@
    &&& a.product_id == b.product_id
    &&& a.coverage_amount == b.coverage_amount
    &&& a.premium_amount == b.premium_amount
    &&& a.start_time == b.start_time
    &&& a.end_time == b.end_time
}

/// Copies a product.
pub fn copy_product(p: &Product) -> (c: Product)
    ensures
        same_product(c, *p),
{
    Product {
        name: p.name.clone(),
        product_id: p.product_id,
        annual_percent: p.annual_percent,
        max_coverage_duration: p.max_coverage_duration,
        max_pool_allocation_percent: p.max_pool_allocation_percent,
        allocation: p.allocation,
        last_allocation_update: p.last_allocation_update,
        active: p.active,
    }
}

/// Copies a cover.
pub fn copy_coverage(c: &Coverage) -> (d: Coverage)
    ensures
        same_coverage(d, *c),
{
    Coverage {
        coverage_id: c.coverage_id,
        buyer: copy_principal(&c.buyer),
        covered_account: copy_principal(&c.covered_account),
        product_id: c.product_id,
        coverage_amount: c.coverage_amount,
        premium_amount: c.premium_amount,
        start_time: c.start_time,
        end_time: c.end_time,
    }
}

/// What a cover costs and when it starts, as quoted when it is accepted.
#[derive(Clone, Copy, Debug, PartialEq, Eq)]
pub struct CoverageQuote {
    pub premium_amount: u128,
    /// Second at which the cover starts.
    pub start_time: u64,
    /// Last episode the cover spans.
    pub last_covered_episode: u64,
}

/// Assets of the pool backing episode `e`: its shares valued at the pool's
/// price; nothing for a missing or share-less episode. `None` when the
/// product leaves `u128`.
pub open spec fn episode_capacity(state: crate::types::PoolState, e: Option<Episode>) -> Option<u128> {
    match e {
        Some(ep) => if ep.episode_shares > 0 {
            if ep.episode_shares * state.total_assets > u128::MAX {
                None
            } else {
                Some(((ep.episode_shares * state.total_assets) / (state.total_shares as int)) as u128)
            }
        } else {
            Some(0u128)
        },
        None => Some(0u128),
    }
}

impl Pool {
    /// Sum of `episode_capacity` over the episodes `from..to`.
    pub open spec fn capacity_sum(&self, from: int, to: int) -> Option<u128>
        decreases to - from,
    {
        if to <= from {
            Some(0u128)
        } else {
            match self.capacity_sum(from, to - 1) {
                None => None,
                Some(s) => match episode_capacity(self.pool_state, self.episode(to - 1)) {
                    None => None,
                    Some(c) => if s + c > u128::MAX { None } else { Some((s + c) as u128) },
                },
            }
        }
    }

    /// Whether, adding up the capacity of the episodes from `from` on, one
    /// episode before `to` brings the running sum to `requested`. The sum is
    /// only needed up to that point; `None` when it fails before.
    pub open spec fn capacity_reaches(&self, requested: u128, from: int, to: int) -> Option<bool>
        decreases to - from,
    {
        if to <= from {
            Some(false)
        } else {
            match self.capacity_reaches(requested, from, to - 1) {
                None => None,
                Some(true) => Some(true),
                Some(false) => match self.capacity_sum(from, to) {
                    None => None,
                    Some(s) => Some(s >= requested),
                },
            }
        }
    }

    /// Whether the pool can back `requested` assets of cover lasting up to
    /// `last_covered_episode` at clock reading `now_ns`: the episodes from
    /// that one to the end of the active window must together hold enough
    /// assets. An empty pool backs nothing.
    pub open spec fn allocation_available(&self, last_covered_episode: u64, requested: u128, now_ns: u64)
        -> Option<bool> {
        if self.pool_state.total_shares == 0 {
            Some(false)
        } else {
            self.capacity_reaches(requested, last_covered_episode as int, episode_at(now_ns) + MAX_ACTIVE_EPISODES)
        }
    }

    /// Once the running sum reached the request, later bounds keep it reached.
    pub proof fn lemma_reaches_stays(&self, requested: u128, from: int, k: int, to: int)
        requires
            k <= to,
            self.capacity_reaches(requested, from, k) == Some(true),
        ensures
            self.capacity_reaches(requested, from, to) == Some(true),
        decreases to - k,
    {
        if k < to {
            assert(from < k + 1);
            self.lemma_reaches_stays(requested, from, k + 1, to);
        }
    }

    /// Once the running sum fails, later bounds keep it failed.
    pub proof fn lemma_reaches_fails(&self, requested: u128, from: int, k: int, to: int)
        requires
            from < k <= to,
            self.capacity_reaches(requested, from, k) is None,
        ensures
            self.capacity_reaches(requested, from, to) is None,
        decreases to - k,
    {
        if k < to {
            self.lemma_reaches_fails(requested, from, k + 1, to);
        }
    }

    /// Computes `allocation_available`.
    pub fn verify_product_allocation(&self, last_covered_episode: u64, requested_allocation: u128, now_ns: u64)
        -> (r: Option<bool>)
        requires
            self.wf(),
        ensures
            r == self.allocation_available(last_covered_episode, requested_allocation, now_ns),
    {
        let current_episode = get_current_episode(now_ns);
        if self.pool_state.total_shares == 0 {
            return Some(false);
        }
        let end = current_episode + MAX_ACTIVE_EPISODES;
        let ghost from = last_covered_episode as int;
        let mut available: u128 = 0;
        let mut i = last_covered_episode;
        if i >= end {
            return Some(false);
        }
        while i < end
            invariant
                from == last_covered_episode,
                from <= i <= end,
                end == episode_at(now_ns) + MAX_ACTIVE_EPISODES,
                self.pool_state.total_shares != 0,
                self.capacity_sum(from, i as int) == Some(available),
                self.capacity_reaches(requested_allocation, from, i as int) == Some(false),
            decreases end - i,
        {
            let c = match self.get_episode(i) {
                Some(e) => {
                    if e.episode_shares > 0 {
                        match e.episode_shares.checked_mul(self.pool_state.total_assets) {
                            None => {
                                proof { self.lemma_reaches_fails(requested_allocation, from, i as int + 1, end as int); }
                                return None;
                            },
                            Some(p) => p / self.pool_state.total_shares,
                        }
                    } else {
                        0
                    }
                },
                None => 0,
            };
            available = match available.checked_add(c) {
                None => {
                    proof { self.lemma_reaches_fails(requested_allocation, from, i as int + 1, end as int); }
                    return None;
                },
                Some(v) => v,
            };
            i = i + 1;
            if available >= requested_allocation {
                proof { self.lemma_reaches_stays(requested_allocation, from, i as int, end as int); }
                return Some(true);
            }
        }
        Some(false)
    }

    /// Computes `current_allocation` for product `p`.
    pub fn compute_current_product_allocation(&self, p: &Product, now_ns: u64) -> (r: Option<u128>)
        ensures
            r == current_allocation(self.allocation_cuts@, *p, now_ns),
    {
        let last_updated_episode = p.last_allocation_update / EPISODE_DURATION;
        let current_episode = get_current_episode(now_ns);
        if last_updated_episode == current_episode {
            return Some(p.allocation);
        }
        if last_updated_episode > current_episode {
            return Some(p.allocation);
        }
        if current_episode >= last_updated_episode + MAX_ACTIVE_EPISODES {
            return Some(0);
        }
        let mut allocation_cut: u128 = 0;
        let mut i = last_updated_episode;
        assert(cuts_between(self.allocation_cuts@, p.product_id, last_updated_episode as int, i as int - 1) == Some(0u128));
        while i <= current_episode
            invariant
                last_updated_episode <= i <= current_episode + 1,
                current_episode <= 7038,
                current_episode == episode_at(now_ns),
                last_updated_episode == episode_of_second(p.last_allocation_update as int),
                last_updated_episode < current_episode < last_updated_episode + MAX_ACTIVE_EPISODES,
                cuts_between(self.allocation_cuts@, p.product_id, last_updated_episode as int, i as int - 1)
                    == Some(allocation_cut),
            decreases current_episode + 1 - i,
        {
            let c = get_allocation_cut(&self.allocation_cuts, p.product_id, i);
            allocation_cut = match allocation_cut.checked_add(c) {
                None => {
                    proof { lemma_cuts_none_propagates(self.allocation_cuts@, p.product_id,
                        last_updated_episode as int, i as int, current_episode as int); }
                    return None;
                },
                Some(v) => v,
            };
            i = i + 1;
        }
        if allocation_cut > p.allocation {
            return None;
        }
        Some(p.allocation - allocation_cut)
    }
}

impl Pool {
    /// Everything but the products is the same in both states.
    pub open spec fn only_products_changed(&self, other: &Pool) -> bool {
        &&& self.token_id == other.token_id
        &&& self.executor == other.executor
        &&& self.pool_manager == other.pool_manager
        &&& self.total_cover_allocation == other.total_cover_allocation
        &&& self.deposits == other.deposits
        &&& self.user_deposits == other.user_deposits
        &&& self.episodes == other.episodes
        &&& self.allocation_cuts == other.allocation_cuts
        &&& self.coverages == other.coverages
        &&& self.accrual() == other.accrual()
    }

    /// Creates a cover product for the pool manager `caller` at clock
    /// reading `now_ns`; it starts active with nothing allocated, under the
    /// next product identifier, which is returned.
    pub fn create_product(
        &mut self,
        caller: &[u8],
        name: String,
        annual_percent: u64,
        max_coverage_duration: u64,
        max_pool_allocation_percent: u64,
        now_ns: u64,
    ) -> (r: Result<u64, PoolError>)
        requires
            old(self).wf(),
            old(self).products@.len() + 1 < u64::MAX,
        ensures
            final(self).wf(),
            caller@ != old(self).pool_manager@ ==> r == Err::<u64, PoolError>(PoolError::NotPoolManager)
                && *final(self) == *old(self),
            caller@ == old(self).pool_manager@ && !valid_product_parameters(annual_percent,
                max_coverage_duration, max_pool_allocation_percent)
                ==> r == Err::<u64, PoolError>(PoolError::InvalidProductParameters) && *final(self) == *old(self),
            caller@ == old(self).pool_manager@ && valid_product_parameters(annual_percent,
                max_coverage_duration, max_pool_allocation_percent) ==> {
                &&& r == Ok::<u64, PoolError>(old(self).products@.len() as u64)
                &&& final(self).products@ == old(self).products@.push(Product {
                        name,
                        product_id: old(self).products@.len() as u64,
                        annual_percent,
                        max_coverage_duration,
                        max_pool_allocation_percent,
                        allocation: 0,
                        last_allocation_update: seconds_of(now_ns) as u64,
                        active: true,
                    })
                &&& final(self).only_products_changed(old(self))
            },
    {
        if !same_principal(caller, self.pool_manager.as_slice()) {
            return Err(PoolError::NotPoolManager);
        }
        if !check_product_parameters(annual_percent, max_coverage_duration, max_pool_allocation_percent) {
            return Err(PoolError::InvalidProductParameters);
        }
        let product_id = self.products.len() as u64;
        let current_time = seconds_from_nanos(now_ns);
        let product = Product {
            name,
            product_id,
            annual_percent,
            max_coverage_duration,
            max_pool_allocation_percent,
            allocation: 0,
            last_allocation_update: current_time,
            active: true,
        };
        self.products.push(product);
        Ok(product_id)
    }

    /// The product with identifier `id`, if it exists.
    pub open spec fn product(&self, id: int) -> Option<Product> {
        if 0 <= id < self.products@.len() {
            Some(self.products@[id])
        } else {
            None
        }
    }

    /// Changes the terms of product `product_id` for the pool manager
    /// `caller`; its name and allocation stay.
    pub fn set_product(
        &mut self,
        caller: &[u8],
        product_id: u64,
        annual_percent: u64,
        max_coverage_duration: u64,
        max_pool_allocation_percent: u64,
        active: bool,
    ) -> (r: Result<(), PoolError>)
        requires
            old(self).wf(),
        ensures
            final(self).wf(),
            caller@ != old(self).pool_manager@ ==> r == Err::<(), PoolError>(PoolError::NotPoolManager)
                && *final(self) == *old(self),
            caller@ == old(self).pool_manager@ && !valid_product_parameters(annual_percent,
                max_coverage_duration, max_pool_allocation_percent)
                ==> r == Err::<(), PoolError>(PoolError::InvalidProductParameters) && *final(self) == *old(self),
            caller@ == old(self).pool_manager@ && valid_product_parameters(annual_percent,
                max_coverage_duration, max_pool_allocation_percent) && product_id >= old(self).products@.len()
                ==> r == Err::<(), PoolError>(PoolError::ProductNotFound) && *final(self) == *old(self),
            caller@ == old(self).pool_manager@ && valid_product_parameters(annual_percent,
                max_coverage_duration, max_pool_allocation_percent) && product_id < old(self).products@.len()
                ==> {
                &&& r is Ok
                &&& final(self).products@.len() == old(self).products@.len()
                &&& same_product(final(self).products@[product_id as int], Product {
                        annual_percent,
                        max_coverage_duration,
                        max_pool_allocation_percent,
                        active,
                        ..old(self).products@[product_id as int]
                    })
                &&& forall|i: int| 0 <= i < old(self).products@.len() && i != product_id ==>
                        #[trigger] final(self).products@[i] == old(self).products@[i]
                &&& final(self).only_products_changed(old(self))
            },
    {
        if !same_principal(caller, self.pool_manager.as_slice()) {
            return Err(PoolError::NotPoolManager);
        }
        if !check_product_parameters(annual_percent, max_coverage_duration, max_pool_allocation_percent) {
            return Err(PoolError::InvalidProductParameters);
        }
        if product_id >= self.products.len() as u64 {
            return Err(PoolError::ProductNotFound);
        }
        let i = product_id as usize;
        let mut product = copy_product(&self.products[i]);
        product.annual_percent = annual_percent;
        product.max_coverage_duration = max_coverage_duration;
        product.max_pool_allocation_percent = max_pool_allocation_percent;
        product.active = active;
        self.products.set(i, product);
        Ok(())
    }

    /// Every product, in identifier order, with its allocation as it stands
    /// at clock reading `now_ns`. Traps when an allocation cannot be computed.
    pub fn get_products(&self, now_ns: u64) -> (r: Result<Vec<Product>, Trap>)
        requires
            self.wf(),
        ensures
            (forall|i: int| 0 <= i < self.products@.len() ==>
                #[trigger] current_allocation(self.allocation_cuts@, self.products@[i], now_ns) is Some)
                ==> (r matches Ok(v) && v@.len() == self.products@.len()
                    && forall|i: int| 0 <= i < v@.len() ==> same_product(#[trigger] v@[i], Product {
                        allocation: current_allocation(self.allocation_cuts@, self.products@[i], now_ns).unwrap(),
                        ..self.products@[i]
                    })),
            (exists|i: int| 0 <= i < self.products@.len() &&
                #[trigger] current_allocation(self.allocation_cuts@, self.products@[i], now_ns) is None)
                ==> r is Err,
    {
        let mut out: Vec<Product> = Vec::new();
        let n = self.products.len();
        let mut i: usize = 0;
        while i < n
            invariant
                self.wf(),
                n == self.products@.len(),
                i <= n,
                out@.len() == i,
                forall|j: int| 0 <= j < i ==> #[trigger] current_allocation(self.allocation_cuts@, self.products@[j], now_ns) is Some,
                forall|j: int| 0 <= j < i ==> same_product(#[trigger] out@[j], Product {
                    allocation: current_allocation(self.allocation_cuts@, self.products@[j], now_ns).unwrap(),
                    ..self.products@[j]
                }),
            decreases n - i,
        {
            let allocation = match self.compute_current_product_allocation(&self.products[i], now_ns) {
                None => {
                    assert(current_allocation(self.allocation_cuts@, self.products@[i as int], now_ns) is None);
                    return Err(Trap);
                },
                Some(a) => a,
            };
            let mut p = copy_product(&self.products[i]);
            p.allocation = allocation;
            out.push(p);
            i = i + 1;
        }
        Ok(out)
    }

    /// Cover sold and not yet taken off the books, over all products.
    pub fn get_total_cover_allocation(&self) -> (t: u128)
        ensures
            t == self.total_cover_allocation,
    {
        self.total_cover_allocation
    }

    /// Identifiers below `n` of the covers bought by `user`, in order.
    pub open spec fn bought_ids(&self, user: Seq<u8>, n: int) -> Seq<u64>
        decreases n,
    {
        if n <= 0 {
            Seq::empty()
        } else if self.coverages@[n - 1].buyer@ == user {
            self.bought_ids(user, n - 1).push((n - 1) as u64)
        } else {
            self.bought_ids(user, n - 1)
        }
    }

    /// Identifiers of the covers bought by `user`, oldest first.
    pub fn get_user_coverage_ids(&self, user: &[u8]) -> (ids: UserCoverages)
        requires
            self.wf(),
        ensures
            ids.0@ == self.bought_ids(user@, self.coverages@.len() as int),
    {
        let mut ids: Vec<u64> = Vec::new();
        let n = self.coverages.len();
        let mut i: usize = 0;
        while i < n
            invariant
                self.wf(),
                n == self.coverages@.len(),
                i <= n,
                ids@ == self.bought_ids(user@, i as int),
            decreases n - i,
        {
            if same_principal(self.coverages[i].buyer.as_slice(), user) {
                ids.push(i as u64);
            }
            i = i + 1;
        }
        UserCoverages(ids)
    }

    /// The covers bought by `user`, oldest first.
    pub fn get_coverages(&self, user: &[u8]) -> (r: Vec<Coverage>)
        requires
            self.wf(),
        ensures
            ({
                let ids = self.bought_ids(user@, self.coverages@.len() as int);
                &&& r@.len() == ids.len()
                &&& forall|i: int| 0 <= i < r@.len() ==>
                    same_coverage(#[trigger] r@[i], self.coverages@[ids[i] as int])
            }),
    {
        let ids = self.get_user_coverage_ids(user);
        let mut out: Vec<Coverage> = Vec::new();
        let n = ids.0.len();
        let mut i: usize = 0;
        proof { self.lemma_bought_ids_bounded(user@, self.coverages@.len() as int); }
        while i < n
            invariant
                self.wf(),
                n == ids.0@.len(),
                ids.0@ == self.bought_ids(user@, self.coverages@.len() as int),
                forall|j: int| 0 <= j < n ==> #[trigger] ids.0@[j] < self.coverages@.len(),
                i <= n,
                out@.len() == i,
                forall|j: int| 0 <= j < i ==> same_coverage(#[trigger] out@[j], self.coverages@[ids.0@[j] as int]),
            decreases n - i,
        {
            let id = ids.0[i];
            let len = self.coverages.len();
            assert(id < len);
            let idx: usize = id as usize;
            assert(idx as int == id as int);
            let c = copy_coverage(&self.coverages[idx]);
            out.push(c);
            i = i + 1;
        }
        out
    }

    /// The listed covers exist.
    pub proof fn lemma_bought_ids_bounded(&self, user: Seq<u8>, n: int)
        requires
            0 <= n <= self.coverages@.len(),
        ensures
            forall|j: int| 0 <= j < self.bought_ids(user, n).len() ==> #[trigger] self.bought_ids(user, n)[j] < n,
        decreases n,
    {
        if n > 0 {
            self.lemma_bought_ids_bounded(user, n - 1);
            let prev = self.bought_ids(user, n - 1);
            assert forall|j: int| 0 <= j < self.bought_ids(user, n).len() implies #[trigger] self.bought_ids(user, n)[j] < n by {
                if j < prev.len() {
                    assert(self.bought_ids(user, n)[j] == prev[j]);
                }
            }
        }
    }

    /// The cover with identifier `coverage_id`, if it exists.
    pub fn get_coverage(&self, coverage_id: u64) -> (r: Option<Coverage>)
        requires
            self.wf(),
        ensures
            coverage_id < self.coverages@.len() ==> (r matches Some(c)
                && same_coverage(c, self.coverages@[coverage_id as int])),
            coverage_id >= self.coverages@.len() ==> r is None,
    {
        if coverage_id < self.coverages.len() as u64 {
            Some(copy_coverage(&self.coverages[coverage_id as usize]))
        } else {
            None
        }
    }
}

/// Pool assets a product needs behind `amount` of new cover on top of its
/// `allocation`, given its allocation limit in basis points. `None` when the
/// limit is zero (division by zero) or the arithmetic leaves `u128`.
pub open spec fn required_allocation(amount: u128, allocation: u128, max_pool_allocation_percent: u64) -> Option<u128> {
    if max_pool_allocation_percent == 0 || (amount + allocation) * BASIS_POINTS > u128::MAX {
        None
    } else {
        Some((((amount + allocation) * BASIS_POINTS) / (max_pool_allocation_percent as int)) as u128)
    }
}

impl Pool {
    /// Why cover of `coverage_duration` seconds from `product_id` for
    /// `covered_account` is refused before the pool is brought up to date:
    /// the product must exist and be active, the duration must lie between
    /// one episode and the product's maximum, and the covered account must
    /// not be anonymous.
    pub open spec fn purchase_refusal(&self, product_id: u64, covered_account: Seq<u8>, coverage_duration: u64)
        -> Option<PoolError> {
        match self.product(product_id as int) {
            None => Some(PoolError::ProductNotFound),
            Some(p) => if !p.active {
                Some(PoolError::ProductNotActive)
            } else if coverage_duration > p.max_coverage_duration {
                Some(PoolError::CoverageDurationTooLong)
            } else if coverage_duration < EPISODE_DURATION {
                Some(PoolError::CoverageDurationTooShort)
            } else if covered_account == anonymous_bytes() {
                Some(PoolError::InvalidProductParameters)
            } else {
                None
            },
        }
    }

    /// `self` is the settled pool `p` after selling `amount` of cover from
    /// product `id` whose allocation had become `alloc0`, lasting to episode
    /// `last`: the product's expiring cover for `last` grows by `amount`, its
    /// allocation becomes `alloc0 + amount` as of second `now`, the total
    /// cover grows by `amount`, and so does the cover expiring with `last`.
    pub open spec fn is_sale_from(&self, p: &Pool, id: int, alloc0: u128, last: int, amount: u128, now: int) -> bool {
        let base = episode_or_empty(p.episode(last));
        &&& self.allocation_cuts@ == p.allocation_cuts@.push(AllocationCut {
                product_id: id as u64,
                episode: last as u64,
                amount: (cut_of(p.allocation_cuts@, id as u64, last as u64) + amount) as u128,
            })
        &&& self.products@.len() == p.products@.len()
        &&& same_product(self.products@[id], Product {
                allocation: (alloc0 + amount) as u128,
                last_allocation_update: now as u64,
                ..p.products@[id]
            })
        &&& forall|i: int| 0 <= i < p.products@.len() && i != id ==> #[trigger] self.products@[i] == p.products@[i]
        &&& self.total_cover_allocation == p.total_cover_allocation + amount
        &&& forall|k: int| #[trigger] self.episode(k) == (if k == last {
                Some(Episode { coverage_decrease: (base.coverage_decrease + amount) as u128, ..base })
            } else {
                p.episode(k)
            })
        &&& self.accrual() == p.accrual()
        &&& self.deposits == p.deposits
        &&& self.user_deposits == p.user_deposits
        &&& self.coverages == p.coverages
        &&& self.token_id == p.token_id
        &&& self.executor == p.executor
        &&& self.pool_manager == p.pool_manager
    }

    /// Whether booking `amount` of cover from product `id`, whose allocation
    /// has become `alloc0`, expiring with episode `last`, keeps every sum
    /// within the range of `u128`.
    pub open spec fn sale_fits(&self, id: int, alloc0: u128, last: int, amount: u128) -> bool {
        &&& cut_of(self.allocation_cuts@, id as u64, last as u64) + amount <= u128::MAX
        &&& alloc0 + amount <= u128::MAX
        &&& self.total_cover_allocation + amount <= u128::MAX
        &&& episode_or_empty(self.episode(last)).coverage_decrease + amount <= u128::MAX
    }

    /// Whether, on the settled pool `self`, the purchase of `amount` of cover
    /// from product `id` for `coverage_duration` seconds at `now_ns` can be
    /// decided and, if the assets are there, booked and priced without leaving
    /// the range of `u128`.
    pub open spec fn purchase_computable(&self, id: int, amount: u128, coverage_duration: u64, now_ns: u64)
        -> bool {
        let prod = self.products@[id];
        let last = episode_of_second(seconds_of(now_ns) + coverage_duration);
        match current_allocation(self.allocation_cuts@, prod, now_ns) {
            None => false,
            Some(alloc0) => match required_allocation(amount, alloc0, prod.max_pool_allocation_percent) {
                None => false,
                Some(req) => match self.allocation_available(last as u64, req, now_ns) {
                    None => false,
                    Some(b) => b ==> (self.sale_fits(id, alloc0, last, amount)
                        && premium(coverage_duration, prod.annual_percent, amount) is Some),
                },
            },
        }
    }

    /// First part of a cover purchase at clock reading `now_ns`: refuses as
    /// `purchase_refusal` says (changing nothing), otherwise brings the pool
    /// up to date and refreshes the product's allocation. The cover needs
    /// `required_allocation` of pool assets from its last episode on
    /// (`allocation_available`); when they are there it is booked (see
    /// `is_sale_from`) and its premium quoted, otherwise it is refused with
    /// `NotEnoughAssetsToCover`. Traps when the arithmetic fails, leaving
    /// the pool brought up to date and nothing else changed.
    pub fn purchase_coverage_begin(
        &mut self,
        now_ns: u64,
        product_id: u64,
        covered_account: &[u8],
        coverage_duration: u64,
        coverage_amount: u128,
    ) -> (r: Result<Result<CoverageQuote, PoolError>, Trap>)
        requires
            old(self).wf(),
            seconds_of(now_ns) >= old(self).last_time_updated,
            old(self).allocation_cuts@.len() + 1 < usize::MAX,
        ensures
            old(self).purchase_refusal(product_id, covered_account@, coverage_duration) matches Some(e)
                ==> r == Ok::<Result<CoverageQuote, PoolError>, Trap>(Err::<CoverageQuote, PoolError>(e))
                    && *final(self) == *old(self),
            old(self).purchase_refusal(product_id, covered_account@, coverage_duration) is None
                && old(self).settled(seconds_of(now_ns)) is None ==> r is Err && *final(self) == *old(self),
            r is Err && old(self).settled(seconds_of(now_ns)) is Some
                ==> final(self).is_settled_from(old(self), seconds_of(now_ns)),
            old(self).purchase_refusal(product_id, covered_account@, coverage_duration) is None
                && old(self).settled(seconds_of(now_ns)) is Some
                && (forall|p: Pool| #[trigger] p.is_settled_from(old(self), seconds_of(now_ns))
                    ==> p.purchase_computable(product_id as int, coverage_amount, coverage_duration, now_ns))
                ==> r is Ok,
            r matches Ok(Ok(quote)) ==> exists|p: Pool| {
                &&& #[trigger] p.is_settled_from(old(self), seconds_of(now_ns))
                &&& p.wf()
                &&& old(self).purchase_refusal(product_id, covered_account@, coverage_duration) is None
                &&& current_allocation(p.allocation_cuts@, p.products@[product_id as int], now_ns) is Some
                &&& quote.start_time == seconds_of(now_ns)
                &&& quote.last_covered_episode == episode_of_second(seconds_of(now_ns) + coverage_duration)
                &&& ({
                    let alloc0 = current_allocation(p.allocation_cuts@, p.products@[product_id as int], now_ns).unwrap();
                    let prod = p.products@[product_id as int];
                    &&& required_allocation(coverage_amount, alloc0, prod.max_pool_allocation_percent) is Some
                    &&& p.allocation_available(quote.last_covered_episode,
                        required_allocation(coverage_amount, alloc0, prod.max_pool_allocation_percent).unwrap(),
                        now_ns) == Some(true)
                    &&& premium(coverage_duration, prod.annual_percent, coverage_amount) == Some(quote.premium_amount)
                    &&& final(self).wf()
                    &&& final(self).is_sale_from(&p, product_id as int, alloc0,
                        quote.last_covered_episode as int, coverage_amount, seconds_of(now_ns))
                    &&& final(self).products@[product_id as int].allocation == alloc0 + coverage_amount
                    &&& exists|k: int| quote.last_covered_episode < k <= episode_at(now_ns) + MAX_ACTIVE_EPISODES
                        && (#[trigger] p.capacity_sum(quote.last_covered_episode as int, k) matches Some(c)
                        && (final(self).products@[product_id as int].allocation * BASIS_POINTS)
                            / (prod.max_pool_allocation_percent as int) <= c)
                })
            },
            r matches Ok(Err(e)) ==> (old(self).purchase_refusal(product_id, covered_account@, coverage_duration) is None
                ==> e == PoolError::NotEnoughAssetsToCover && exists|p: Pool| {
                &&& #[trigger] p.is_settled_from(old(self), seconds_of(now_ns))
                &&& current_allocation(p.allocation_cuts@, p.products@[product_id as int], now_ns) is Some
                &&& ({
                    let alloc0 = current_allocation(p.allocation_cuts@, p.products@[product_id as int], now_ns).unwrap();
                    let prod = p.products@[product_id as int];
                    &&& required_allocation(coverage_amount, alloc0, prod.max_pool_allocation_percent) is Some
                    &&& p.allocation_available(episode_of_second(seconds_of(now_ns) + coverage_duration) as u64,
                        required_allocation(coverage_amount, alloc0, prod.max_pool_allocation_percent).unwrap(),
                        now_ns) == Some(false)
                })
                &&& *final(self) == p
            }),
    {
        if product_id >= self.products.len() as u64 {
            return Ok(Err(PoolError::ProductNotFound));
        }
        let pid = product_id as usize;
        if !self.products[pid].active {
            return Ok(Err(PoolError::ProductNotActive));
        }
        if coverage_duration > self.products[pid].max_coverage_duration {
            return Ok(Err(PoolError::CoverageDurationTooLong));
        }
        if coverage_duration < EPISODE_DURATION {
            return Ok(Err(PoolError::CoverageDurationTooShort));
        }
        if is_anonymous(covered_account) {
            return Ok(Err(PoolError::InvalidProductParameters));
        }
        match self.process_episodes(now_ns) {
            Err(t) => { return Err(t); },
            Ok(()) => {},
        }
        let ghost p = *self;
        let alloc0 = match self.compute_current_product_allocation(&self.products[pid], now_ns) {
            None => { return Err(Trap); },
            Some(a) => a,
        };
        let current_time = seconds_from_nanos(now_ns);
        assert(coverage_duration < 23 * 2620800);
        proof {
            lemma_div_bracket(current_time + coverage_duration, EPISODE_DURATION as int);
            assert((current_time + coverage_duration) / (EPISODE_DURATION as int) <= 7038 + 23) by (nonlinear_arith)
                requires current_time + coverage_duration <= 18446744073 + 23 * 2620800;
        }
        let last_covered_episode = (current_time + coverage_duration) / EPISODE_DURATION;
        let max_pct = self.products[pid].max_pool_allocation_percent;
        let annual = self.products[pid].annual_percent;
        let new_total_allocation = match coverage_amount.checked_add(alloc0) {
            None => { return Err(Trap); },
            Some(v) => v,
        };
        if max_pct == 0 {
            return Err(Trap);
        }
        let required_pool_allocation = match new_total_allocation.checked_mul(BASIS_POINTS as u128) {
            None => { return Err(Trap); },
            Some(v) => v / (max_pct as u128),
        };
        match self.verify_product_allocation(last_covered_episode, required_pool_allocation, now_ns) {
            None => { return Err(Trap); },
            Some(false) => { return Ok(Err(PoolError::NotEnoughAssetsToCover)); },
            Some(true) => {},
        }
        let current_cut = get_allocation_cut(&self.allocation_cuts, product_id, last_covered_episode);
        let new_cut = match current_cut.checked_add(coverage_amount) {
            None => { return Err(Trap); },
            Some(v) => v,
        };
        let new_allocation = match alloc0.checked_add(coverage_amount) {
            None => { return Err(Trap); },
            Some(v) => v,
        };
        let new_total_cover = match self.total_cover_allocation.checked_add(coverage_amount) {
            None => { return Err(Trap); },
            Some(v) => v,
        };
        let base = match self.get_episode(last_covered_episode) {
            Some(e) => e,
            None => new_episode(),
        };
        let new_decrease = match base.coverage_decrease.checked_add(coverage_amount) {
            None => { return Err(Trap); },
            Some(v) => v,
        };
        let premium_amount = match calculate_premium(coverage_duration, annual, coverage_amount) {
            None => { return Err(Trap); },
            Some(v) => v,
        };
        self.allocation_cuts.push(AllocationCut { product_id, episode: last_covered_episode, amount: new_cut });
        let mut product = copy_product(&self.products[pid]);
        product.allocation = new_allocation;
        product.last_allocation_update = current_time;
        self.products.set(pid, product);
        self.total_cover_allocation = new_total_cover;
        let ghost mid = *self;
        self.put_episode(last_covered_episode, Episode { coverage_decrease: new_decrease, ..base });
        assert forall|k: int| #[trigger] self.episode(k) == (if k == last_covered_episode {
                Some(Episode { coverage_decrease: new_decrease, ..base })
            } else {
                p.episode(k)
            }) by {
            assert(mid.episode(k) == p.episode(k));
        }
        let quote = CoverageQuote { premium_amount, start_time: current_time, last_covered_episode };
        assert(self.is_sale_from(&p, product_id as int, alloc0, last_covered_episode as int, coverage_amount,
            seconds_of(now_ns)));
        proof {
            crate::laws::lemma_sale_stays_within_allocation_cap(p, *self, product_id as int, alloc0,
                last_covered_episode, coverage_amount, now_ns);
        }
        Ok(Ok(quote))
    }

    /// Last part of a cover purchase by `caller`, once the premium reached
    /// the pool at clock reading `now_ns`: the premium net of the transfer
    /// fee is streamed to stakers over the cover's duration, and the cover is
    /// recorded under the next cover identifier, which is returned. Traps when
    /// the premium is below the fee or the arithmetic fails.
    pub fn purchase_coverage_finish(
        &mut self,
        now_ns: u64,
        caller: &[u8],
        product_id: u64,
        covered_account: &[u8],
        coverage_duration: u64,
        coverage_amount: u128,
        quote: CoverageQuote,
    ) -> (r: Result<u64, Trap>)
        requires
            old(self).wf(),
            coverage_duration <= 23 * EPISODE_DURATION,
            quote.start_time <= u64::MAX / 1_000_000_000,
            old(self).coverages@.len() + 1 < u64::MAX,
        ensures
            ({
                let inc = crate::rewards::reward_rate_increase((quote.premium_amount - crate::TRANSFER_FEE) as u128,
                    seconds_of(now_ns), coverage_duration as int);
                let target = crate::rewards::reward_end_episode(seconds_of(now_ns), coverage_duration as int);
                &&& r is Ok <==> (quote.premium_amount >= crate::TRANSFER_FEE && inc is Some
                    && old(self).stream_fits(inc.unwrap(), target))
                &&& r is Err ==> *final(self) == *old(self)
                &&& r matches Ok(id) ==> {
                    &&& id == old(self).coverages@.len()
                    &&& final(self).wf()
                    &&& (Pool { coverages: old(self).coverages, ..*final(self) }).is_streaming_from(
                        old(self), inc.unwrap(), target)
                    &&& final(self).coverages@.len() == old(self).coverages@.len() + 1
                    &&& forall|i: int| 0 <= i < old(self).coverages@.len() ==>
                        #[trigger] final(self).coverages@[i] == old(self).coverages@[i]
                    &&& same_coverage(final(self).coverages@[id as int], Coverage {
                            coverage_id: id,
                            buyer: final(self).coverages@[id as int].buyer,
                            covered_account: final(self).coverages@[id as int].covered_account,
                            product_id,
                            coverage_amount,
                            premium_amount: quote.premium_amount,
                            start_time: quote.start_time,
                            end_time: (quote.start_time + coverage_duration) as u64,
                        })
                    &&& final(self).coverages@[id as int].buyer@ == caller@
                    &&& final(self).coverages@[id as int].covered_account@ == covered_account@
                }
            }),
    {
        if quote.premium_amount < crate::TRANSFER_FEE {
            return Err(Trap);
        }
        let reward_amount = quote.premium_amount - crate::TRANSFER_FEE;
        match self.reward_pool_with_duration(reward_amount, coverage_duration, now_ns) {
            Err(t) => { return Err(t); },
            Ok(()) => {},
        }
        let coverage_id = self.coverages.len() as u64;
        let mut buyer: Vec<u8> = Vec::new();
        crate::hashing::append_bytes(&mut buyer, caller);
        assert(buyer@ =~= caller@);
        let mut covered: Vec<u8> = Vec::new();
        crate::hashing::append_bytes(&mut covered, covered_account);
        assert(covered@ =~= covered_account@);
        let coverage = Coverage {
            coverage_id,
            buyer,
            covered_account: covered,
            product_id,
            coverage_amount,
            premium_amount: quote.premium_amount,
            start_time: quote.start_time,
            end_time: quote.start_time + coverage_duration,
        };
        self.coverages.push(coverage);
        Ok(coverage_id)
    }
}

/// How the balance of a purchase subaccount is used once a purchase is
/// accepted.
#[derive(Clone, Copy, Debug, PartialEq, Eq)]
pub struct PremiumPayment {
    /// Taken from the subaccount into the pool.
    pub premium_amount: u128,
    /// What the buyer is sent back of an over-payment, net of the ledger
    /// fee; `None` when the over-payment does not exceed the fee, and then
    /// nothing is sent back.
    pub refund: Option<u128>,
}

/// Whether a purchase subaccount holding `balance` pays the premium, and
/// if so how the balance is used: the premium goes to the pool, and an
/// over-payment larger than the ledger fee goes back to the buyer, less
/// that fee.
pub fn check_premium_balance(balance: u128, premium_amount: u128) -> (r: Result<PremiumPayment, PoolError>)
    ensures
        r == (if balance < premium_amount {
            Err::<PremiumPayment, PoolError>(PoolError::InsufficientBalance)
        } else {
            Ok::<PremiumPayment, PoolError>(PremiumPayment {
                premium_amount,
                refund: if balance - premium_amount > TRANSFER_FEE {
                    Some((balance - premium_amount - TRANSFER_FEE) as u128)
                } else {
                    None
                },
            })
        }),
{
    if balance < premium_amount {
        return Err(PoolError::InsufficientBalance);
    }
    let excess = balance - premium_amount;
    let refund = if excess > TRANSFER_FEE { Some(excess - TRANSFER_FEE) } else { None };
    Ok(PremiumPayment { premium_amount, refund })
}

/// Once summing cuts fails, it stays failed for later bounds.
pub proof fn lemma_cuts_none_propagates(cuts: Seq<AllocationCut>, product_id: u64, from: int, k: int, to: int)
    requires
        from <= k <= to,
        cuts_between(cuts, product_id, from, k) is None,
    ensures
        cuts_between(cuts, product_id, from, to) is None,
    decreases to - k,
{
    if k < to {
        lemma_cuts_none_propagates(cuts, product_id, from, k + 1, to);
    }
}

} // verus!
