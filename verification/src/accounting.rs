//! The pool's running totals seen as sums over its episodes: the assets,
//! shares and reward rate of the pool are those of the episodes that have
//! not expired yet.

use vstd::prelude::*;
use crate::types::{Deposit, Episode};
use crate::pool::{Pool, Accrual, MAX_EPISODE_INDEX};
use crate::rewards::episode_or_empty;
use crate::episodes::{episode_of_second, seconds_of, lemma_div_le_bound};
use crate::deposits::WithdrawalPlan;
use crate::EPISODE_DURATION;

verus! {

/// Assets, shares and scheduled rate decreases summed over the episodes
/// with index in `lo..hi` (an absent episode counts as empty).
pub open spec fn episode_totals(p: Pool, lo: int, hi: int) -> (int, int, int)
    decreases hi - lo,
{
    if hi <= lo {
        (0, 0, 0)
    } else {
        let s = episode_totals(p, lo, hi - 1);
        let e = episode_or_empty(p.episode(hi - 1));
        (s.0 + e.assets_staked, s.1 + e.episode_shares, s.2 + e.reward_decrease)
    }
}

/// First episode that has not expired yet.
pub open spec fn live_from(p: Pool) -> int {
    episode_of_second(p.last_time_updated as int)
}

/// The pool's assets, shares and reward rate are exactly the sums over the
/// episodes that have not expired yet.
pub open spec fn totals_match(p: Pool) -> bool {
    let t = episode_totals(p, live_from(p), MAX_EPISODE_INDEX + 1);
    &&& p.pool_state.total_assets == t.0
    &&& p.pool_state.total_shares == t.1
    &&& p.pool_reward_rate == t.2
}

/// The pool's books balance: its totals are those of the live episodes,
/// and every episode holds exactly the shares of its deposits.
pub open spec fn books_balance(p: Pool) -> bool {
    totals_match(p) && shares_match(p)
}

/// Two episode slots carry the same assets, shares and rate decrease.
pub open spec fn same_amounts(a: Option<Episode>, b: Option<Episode>) -> bool {
    let x = episode_or_empty(a);
    let y = episode_or_empty(b);
    &&& x.assets_staked == y.assets_staked
    &&& x.episode_shares == y.episode_shares
    &&& x.reward_decrease == y.reward_decrease
}

/// Pools whose episodes carry the same amounts over `lo..hi` have the same totals there.
pub proof fn lemma_totals_congruent(p: Pool, q: Pool, lo: int, hi: int)
    requires
        forall|k: int| lo <= k < hi ==> same_amounts(#[trigger] p.episode(k), q.episode(k)),
    ensures
        episode_totals(p, lo, hi) == episode_totals(q, lo, hi),
    decreases hi - lo,
{
    if hi > lo {
        lemma_totals_congruent(p, q, lo, hi - 1);
        assert(same_amounts(p.episode(hi - 1), q.episode(hi - 1)));
    }
}

/// Totals over `lo..hi` split at any point in between.
pub proof fn lemma_totals_split(p: Pool, lo: int, mid: int, hi: int)
    requires
        lo <= mid <= hi,
    ensures
        episode_totals(p, lo, hi).0 == episode_totals(p, lo, mid).0 + episode_totals(p, mid, hi).0,
        episode_totals(p, lo, hi).1 == episode_totals(p, lo, mid).1 + episode_totals(p, mid, hi).1,
        episode_totals(p, lo, hi).2 == episode_totals(p, lo, mid).2 + episode_totals(p, mid, hi).2,
    decreases hi - mid,
{
    if hi > mid {
        lemma_totals_split(p, lo, mid, hi - 1);
    }
}

/// A range without episodes sums to zero.
pub proof fn lemma_totals_zero(p: Pool, lo: int, hi: int)
    requires
        forall|k: int| lo <= k < hi ==> #[trigger] p.episode(k) is None,
    ensures
        episode_totals(p, lo, hi) == (0int, 0int, 0int),
    decreases hi - lo,
{
    if hi > lo {
        lemma_totals_zero(p, lo, hi - 1);
        assert(p.episode(hi - 1) is None);
    }
}

/// Changing one episode changes the totals by the change in that episode.
pub proof fn lemma_totals_point(p: Pool, q: Pool, lo: int, k0: int, hi: int)
    requires
        lo <= k0 < hi,
        forall|k: int| lo <= k < hi && k != k0 ==> same_amounts(#[trigger] p.episode(k), q.episode(k)),
    ensures
        ({
            let x = episode_or_empty(p.episode(k0));
            let y = episode_or_empty(q.episode(k0));
            &&& episode_totals(q, lo, hi).0 == episode_totals(p, lo, hi).0 - x.assets_staked + y.assets_staked
            &&& episode_totals(q, lo, hi).1 == episode_totals(p, lo, hi).1 - x.episode_shares + y.episode_shares
            &&& episode_totals(q, lo, hi).2 == episode_totals(p, lo, hi).2 - x.reward_decrease + y.reward_decrease
        }),
{
    lemma_totals_split(p, lo, k0, hi);
    lemma_totals_split(q, lo, k0, hi);
    lemma_totals_split(p, k0, k0 + 1, hi);
    lemma_totals_split(q, k0, k0 + 1, hi);
    assert forall|k: int| lo <= k < k0 implies same_amounts(#[trigger] p.episode(k), q.episode(k)) by {}
    lemma_totals_congruent(p, q, lo, k0);
    assert forall|k: int| k0 + 1 <= k < hi implies same_amounts(#[trigger] p.episode(k), q.episode(k)) by {}
    lemma_totals_congruent(p, q, k0 + 1, hi);
    assert(episode_totals(p, k0, k0) == (0int, 0int, 0int));
    assert(episode_totals(q, k0, k0) == (0int, 0int, 0int));
}

/// Expiring the episodes in `from..k` takes exactly their assets, shares
/// and rate decreases out of the accrual.
pub proof fn lemma_accrue_totals(p: Pool, a: Accrual, from: int, k: int)
    requires
        from <= k,
        p.accrue_episodes(a, from, k) is Some,
    ensures
        ({
            let b = p.accrue_episodes(a, from, k).unwrap();
            let t = episode_totals(p, from, k);
            &&& b.pool_state.total_assets == a.pool_state.total_assets - t.0
            &&& b.pool_state.total_shares == a.pool_state.total_shares - t.1
            &&& b.reward_rate == a.reward_rate - t.2
        }),
    decreases k - from,
{
    if k > from {
        lemma_accrue_totals(p, a, from, k - 1);
    }
}

/// Shares of the existing deposits with identifier below `n` that are
/// staked in `episode`.
pub open spec fn deposit_shares_in(p: Pool, episode: int, n: int) -> int
    decreases n,
{
    if n <= 0 {
        0
    } else {
        deposit_shares_in(p, episode, n - 1) + match p.deposit(n - 1) {
            Some(d) => if d.episode == episode { d.shares as int } else { 0 },
            None => 0,
        }
    }
}

/// Every episode holds exactly the shares of the deposits staked in it.
pub open spec fn shares_match(p: Pool) -> bool {
    forall|e: int| 0 <= e <= MAX_EPISODE_INDEX ==>
        #[trigger] episode_or_empty(p.episode(e)).episode_shares == deposit_shares_in(p, e, p.deposits@.len() as int)
}

/// Two deposit lists that agree on shares and episodes below `n` give the same sums there.
pub proof fn lemma_deposit_shares_congruent(p: Pool, q: Pool, episode: int, n: int)
    requires
        forall|i: int| 0 <= i < n ==> same_stake(#[trigger] p.deposit(i), q.deposit(i)),
    ensures
        deposit_shares_in(p, episode, n) == deposit_shares_in(q, episode, n),
    decreases n,
{
    if n > 0 {
        lemma_deposit_shares_congruent(p, q, episode, n - 1);
        assert(same_stake(p.deposit(n - 1), q.deposit(n - 1)));
    }
}

/// Two deposit slots are both empty, or both hold the same shares in the same episode.
pub open spec fn same_stake(a: Option<Deposit>, b: Option<Deposit>) -> bool {
    match (a, b) {
        (None, None) => true,
        (Some(x), Some(y)) => x.shares == y.shares && x.episode == y.episode,
        _ => false,
    }
}

/// Emptying deposit slot `k` takes its shares out of its episode's sum.
pub proof fn lemma_deposit_shares_removed(p: Pool, q: Pool, episode: int, k: int, n: int)
    requires
        0 <= k < n,
        forall|i: int| 0 <= i < n && i != k ==> same_stake(#[trigger] p.deposit(i), q.deposit(i)),
        q.deposit(k) is None,
    ensures
        deposit_shares_in(q, episode, n) == deposit_shares_in(p, episode, n) - match p.deposit(k) {
            Some(d) => if d.episode == episode { d.shares as int } else { 0 },
            None => 0,
        },
    decreases n,
{
    if n - 1 > k {
        lemma_deposit_shares_removed(p, q, episode, k, n - 1);
        assert(same_stake(p.deposit(n - 1), q.deposit(n - 1)));
    } else {
        assert forall|i: int| 0 <= i < n - 1 implies same_stake(#[trigger] p.deposit(i), q.deposit(i)) by {}
        lemma_deposit_shares_congruent(p, q, episode, n - 1);
    }
}

/// Bringing the pool up to date keeps its totals equal to the sums over
/// the episodes that have not expired: the episodes that expire take
/// exactly their assets, shares and reward rate out of the pool.
pub proof fn lemma_totals_after_settling(old: Pool, p: Pool, now_ns: u64)
    requires
        old.wf(),
        totals_match(old),
        seconds_of(now_ns) >= old.last_time_updated,
        p.is_settled_from(&old, seconds_of(now_ns)),
    ensures
        totals_match(p),
{
    let now = seconds_of(now_ns);
    let hi = MAX_EPISODE_INDEX + 1;
    if now == old.last_time_updated {
        assert forall|k: int| live_from(old) <= k < hi implies same_amounts(#[trigger] old.episode(k), p.episode(k)) by {
            assert(p.episode(k) == old.settled_episode(k, now));
        }
        lemma_totals_congruent(old, p, live_from(old), hi);
    } else {
        let from = live_from(old);
        let to = episode_of_second(now);
        lemma_div_le_bound(now, 18446744073, EPISODE_DURATION as int);
        lemma_div_le_bound(old.last_time_updated as int, now, EPISODE_DURATION as int);
        assert(18446744073int / 2620800int == 7038int) by (nonlinear_arith);
        assert(from <= to <= 7038);
        let b = old.accrue_episodes(old.accrual(), from, to).unwrap();
        lemma_accrue_totals(old, old.accrual(), from, to);
        lemma_totals_split(old, from, to, hi);
        assert(p.last_time_updated == now);
        assert(live_from(p) == to);
        assert forall|k: int| to <= k < hi implies same_amounts(#[trigger] old.episode(k), p.episode(k)) by {
            assert(p.episode(k) == old.settled_episode(k, now));
        }
        lemma_totals_congruent(old, p, to, hi);
    }
}

/// Recording a deposit into an episode that has not expired keeps the
/// pool's totals equal to the sums over the live episodes.
pub proof fn lemma_totals_after_deposit(old: Pool, p: Pool, id: u64, d: Deposit, user: Seq<u8>, amount: u128)
    requires
        totals_match(old),
        old.deposit_fits(d, amount, true),
        p.deposit_added(&old, id, d, user, amount, true),
        live_from(old) <= d.episode <= MAX_EPISODE_INDEX,
    ensures
        totals_match(p),
{
    let hi = MAX_EPISODE_INDEX + 1;
    assert forall|k: int| live_from(old) <= k < hi && k != d.episode implies
        same_amounts(#[trigger] old.episode(k), p.episode(k)) by {}
    lemma_totals_point(old, p, live_from(old), d.episode as int, hi);
}

/// Completing a withdrawal from an expired episode leaves the pool's
/// totals equal to the sums over the live episodes.
pub proof fn lemma_totals_after_withdrawal(old: Pool, p: Pool, caller: Seq<u8>, deposit_id: u64, plan: WithdrawalPlan)
    requires
        totals_match(old),
        p.is_withdrawn_from(&old, caller, deposit_id, plan),
        plan.deposit.episode < live_from(old),
    ensures
        totals_match(p),
{
    let hi = MAX_EPISODE_INDEX + 1;
    assert(p.last_time_updated == old.last_time_updated);
    assert forall|k: int| live_from(old) <= k < hi implies same_amounts(#[trigger] old.episode(k), p.episode(k)) by {}
    lemma_totals_congruent(old, p, live_from(old), hi);
}

/// What the slashed episodes in `from..hi` lost together is what the slash took.
proof fn lemma_slash_totals(old: Pool, p: Pool, amount: u128, from: int, to: int, t: u128, hi: int)
    requires
        from <= hi <= to,
        old.slashed_total(amount, from, hi) is Some,
        p.is_slashed_from(&old, amount, from, to, t),
    ensures
        episode_totals(p, from, hi).0 == episode_totals(old, from, hi).0 - old.slashed_total(amount, from, hi).unwrap(),
        episode_totals(p, from, hi).1 == episode_totals(old, from, hi).1,
        episode_totals(p, from, hi).2 == episode_totals(old, from, hi).2,
    decreases hi - from,
{
    if hi > from {
        lemma_slash_totals(old, p, amount, from, to, t, hi - 1);
        assert(p.episode(hi - 1) == old.slashed_episode(amount, from, to, hi - 1));
    }
}

/// A slash over live episodes keeps the pool's totals equal to the sums
/// over the live episodes: the pool loses exactly what the episodes lost.
pub proof fn lemma_totals_after_slash(old: Pool, p: Pool, amount: u128, from: int, to: int, t: u128)
    requires
        totals_match(old),
        old.slashed_total(amount, from, to) == Some(t),
        p.is_slashed_from(&old, amount, from, to, t),
        live_from(old) <= from <= to <= MAX_EPISODE_INDEX + 1,
    ensures
        totals_match(p),
{
    let hi = MAX_EPISODE_INDEX + 1;
    let lo = live_from(old);
    lemma_slash_totals(old, p, amount, from, to, t, to);
    lemma_totals_split(old, lo, from, hi);
    lemma_totals_split(old, from, to, hi);
    lemma_totals_split(p, lo, from, hi);
    lemma_totals_split(p, from, to, hi);
    assert forall|k: int| lo <= k < from implies same_amounts(#[trigger] old.episode(k), p.episode(k)) by {
        assert(p.episode(k) == old.slashed_episode(amount, from, to, k));
    }
    lemma_totals_congruent(old, p, lo, from);
    assert forall|k: int| to <= k < hi implies same_amounts(#[trigger] old.episode(k), p.episode(k)) by {
        assert(p.episode(k) == old.slashed_episode(amount, from, to, k));
    }
    lemma_totals_congruent(old, p, to, hi);
}

/// Streaming a reward whose end is scheduled on a live episode keeps the
/// reward rate equal to the sum of the decreases scheduled on live episodes.
pub proof fn lemma_totals_after_streaming(old: Pool, p: Pool, inc: u128, target: int)
    requires
        totals_match(old),
        old.stream_fits(inc, target),
        p.is_streaming_from(&old, inc, target),
        live_from(old) <= target <= MAX_EPISODE_INDEX,
    ensures
        totals_match(p),
{
    let hi = MAX_EPISODE_INDEX + 1;
    assert forall|k: int| live_from(old) <= k < hi && k != target implies
        same_amounts(#[trigger] old.episode(k), p.episode(k)) by {}
    lemma_totals_point(old, p, live_from(old), target, hi);
}

/// Selling a cover, which streams its premium to a live episode, keeps the
/// pool's totals equal to the sums over the live episodes.
pub proof fn lemma_totals_after_cover_purchase(old: Pool, p: Pool, inc: u128, target: int)
    requires
        totals_match(old),
        old.stream_fits(inc, target),
        (Pool { coverages: old.coverages, ..p }).is_streaming_from(&old, inc, target),
        live_from(old) <= target <= MAX_EPISODE_INDEX,
    ensures
        totals_match(p),
{
    let q = Pool { coverages: old.coverages, ..p };
    lemma_totals_after_streaming(old, q, inc, target);
    let hi = MAX_EPISODE_INDEX + 1;
    assert forall|k: int| live_from(q) <= k < hi implies same_amounts(#[trigger] q.episode(k), p.episode(k)) by {}
    lemma_totals_congruent(q, p, live_from(q), hi);
}

/// Collecting rewards, which touches only deposits, keeps the pool's totals.
pub proof fn lemma_totals_after_collection(old: Pool, p: Pool)
    requires
        totals_match(old),
        p.only_deposits_changed(&old),
    ensures
        totals_match(p),
{
    let hi = MAX_EPISODE_INDEX + 1;
    assert forall|k: int| live_from(old) <= k < hi implies same_amounts(#[trigger] old.episode(k), p.episode(k)) by {}
    lemma_totals_congruent(old, p, live_from(old), hi);
}

/// Booking cover on the settled pool, which only schedules cover
/// expiries, keeps its totals.
pub proof fn lemma_totals_after_booking(p: Pool, q: Pool, id: int, alloc0: u128, last: int, amount: u128, now: int)
    requires
        totals_match(p),
        q.is_sale_from(&p, id, alloc0, last, amount, now),
    ensures
        totals_match(q),
{
    let hi = MAX_EPISODE_INDEX + 1;
    assert forall|k: int| live_from(p) <= k < hi implies same_amounts(#[trigger] p.episode(k), q.episode(k)) by {}
    lemma_totals_congruent(p, q, live_from(p), hi);
}

/// The sums of deposit shares never go below zero.
pub proof fn lemma_deposit_shares_nonneg(p: Pool, episode: int, n: int)
    ensures
        deposit_shares_in(p, episode, n) >= 0,
    decreases n,
{
    if n > 0 {
        lemma_deposit_shares_nonneg(p, episode, n - 1);
    }
}

/// A pool whose episodes hold the same shares and whose deposits hold the
/// same stakes as a pool whose shares match has matching shares too.
pub proof fn lemma_shares_carry_over(old: Pool, p: Pool)
    requires
        shares_match(old),
        p.deposits@.len() == old.deposits@.len(),
        forall|i: int| 0 <= i < old.deposits@.len() ==> same_stake(#[trigger] old.deposit(i), p.deposit(i)),
        forall|k: int| 0 <= k <= MAX_EPISODE_INDEX ==>
            #[trigger] episode_or_empty(p.episode(k)).episode_shares == episode_or_empty(old.episode(k)).episode_shares,
    ensures
        shares_match(p),
{
    assert forall|e: int| 0 <= e <= MAX_EPISODE_INDEX implies
        #[trigger] episode_or_empty(p.episode(e)).episode_shares == deposit_shares_in(p, e, p.deposits@.len() as int) by {
        lemma_deposit_shares_congruent(old, p, e, old.deposits@.len() as int);
        assert(episode_or_empty(old.episode(e)).episode_shares
            == deposit_shares_in(old, e, old.deposits@.len() as int));
    }
}

/// Slots past the end of the deposit list are empty and add nothing.
pub proof fn lemma_deposit_shares_beyond(p: Pool, episode: int, m: int)
    requires
        m >= p.deposits@.len(),
    ensures
        deposit_shares_in(p, episode, m) == deposit_shares_in(p, episode, p.deposits@.len() as int),
    decreases m,
{
    if m > p.deposits@.len() {
        lemma_deposit_shares_beyond(p, episode, m - 1);
    }
}

/// Two deposit lists that differ in slot `k` alone differ in the sums
/// by what that slot holds.
pub proof fn lemma_deposit_shares_point(p: Pool, q: Pool, episode: int, k: int, n: int)
    requires
        0 <= k < n,
        forall|i: int| 0 <= i < n && i != k ==> same_stake(#[trigger] p.deposit(i), q.deposit(i)),
    ensures
        deposit_shares_in(q, episode, n) - match q.deposit(k) {
            Some(d) => if d.episode == episode { d.shares as int } else { 0 },
            None => 0,
        } == deposit_shares_in(p, episode, n) - match p.deposit(k) {
            Some(d) => if d.episode == episode { d.shares as int } else { 0 },
            None => 0,
        },
    decreases n,
{
    if n - 1 > k {
        lemma_deposit_shares_point(p, q, episode, k, n - 1);
        assert(same_stake(p.deposit(n - 1), q.deposit(n - 1)));
    } else {
        assert forall|i: int| 0 <= i < n - 1 implies same_stake(#[trigger] p.deposit(i), q.deposit(i)) by {}
        lemma_deposit_shares_congruent(p, q, episode, n - 1);
    }
}

/// Recording a deposit adds its shares to its episode's sum.
pub proof fn lemma_shares_after_deposit(old: Pool, p: Pool, id: u64, d: Deposit, user: Seq<u8>, amount: u128,
    update: bool)
    requires
        shares_match(old),
        old.deposit(id as int) is None,
        old.deposit_fits(d, amount, update),
        p.deposit_added(&old, id, d, user, amount, update),
    ensures
        shares_match(p),
{
    let n = old.deposits@.len() as int;
    let m = p.deposits@.len() as int;
    let k = id as int;
    assert forall|i: int| 0 <= i < m && i != k implies same_stake(#[trigger] old.deposit(i), p.deposit(i)) by {
        assert(p.deposit(i) == old.deposit(i));
    }
    assert forall|e: int| 0 <= e <= MAX_EPISODE_INDEX implies
        #[trigger] episode_or_empty(p.episode(e)).episode_shares == deposit_shares_in(p, e, m) by {
        lemma_deposit_shares_beyond(old, e, m);
        lemma_deposit_shares_point(old, p, e, k, m);
        assert(p.deposit(k) == Some(d));
        assert(episode_or_empty(old.episode(e)).episode_shares == deposit_shares_in(old, e, n));
    }
}

/// Completing a withdrawal takes the withdrawn deposit's shares out of
/// its episode's sum.
pub proof fn lemma_shares_after_withdrawal(old: Pool, p: Pool, caller: Seq<u8>, deposit_id: u64, plan: WithdrawalPlan)
    requires
        shares_match(old),
        p.is_withdrawn_from(&old, caller, deposit_id, plan),
        old.deposit(deposit_id as int) matches Some(d) && d.shares == plan.deposit.shares
            && d.episode == plan.deposit.episode,
        plan.deposit.episode <= MAX_EPISODE_INDEX,
    ensures
        shares_match(p),
{
    let n = old.deposits@.len() as int;
    let k = deposit_id as int;
    let d = old.deposit(k).unwrap();
    assert forall|i: int| 0 <= i < n && i != k implies same_stake(#[trigger] old.deposit(i), p.deposit(i)) by {
        assert(p.deposits@[i] == old.deposits@[i]);
    }
    assert(p.deposit(k) is None);
    assert forall|e: int| 0 <= e <= MAX_EPISODE_INDEX implies
        #[trigger] episode_or_empty(p.episode(e)).episode_shares == deposit_shares_in(p, e, p.deposits@.len() as int) by {
        lemma_deposit_shares_removed(old, p, e, k, n);
        lemma_deposit_shares_nonneg(p, e, n);
        assert(episode_or_empty(old.episode(e)).episode_shares == deposit_shares_in(old, e, n));
    }
}

/// Assets summed over a range of episodes never go below zero.
pub proof fn lemma_totals_assets_nonneg(p: Pool, lo: int, hi: int)
    ensures
        episode_totals(p, lo, hi).0 >= 0,
    decreases hi - lo,
{
    if hi > lo {
        lemma_totals_assets_nonneg(p, lo, hi - 1);
    }
}

/// Each episode's slash share rounds down its part of `amount`, so what
/// the episodes in `from..k` bear together, times the pool's assets, is at
/// most `amount` times their assets; with no assets in the pool nothing is
/// slashed.
pub proof fn lemma_slashed_total_bound(p: Pool, amount: u128, from: int, k: int)
    requires
        p.slashed_total(amount, from, k) is Some,
    ensures
        p.slashed_total(amount, from, k).unwrap() * p.pool_state.total_assets
            <= amount * episode_totals(p, from, k).0,
        p.pool_state.total_assets == 0 ==> p.slashed_total(amount, from, k).unwrap() == 0,
    decreases k - from,
{
    if k > from {
        lemma_slashed_total_bound(p, amount, from, k - 1);
        let t0 = p.slashed_total(amount, from, k - 1).unwrap() as int;
        let sum0 = episode_totals(p, from, k - 1).0;
        let big_t = p.pool_state.total_assets as int;
        let am = amount as int;
        match p.episode(k - 1) {
            None => {},
            Some(e) => {
                let a = e.assets_staked as int;
                let x = am * a;
                let sh = x / big_t;
                assert(x >= 0) by (nonlinear_arith)
                    requires am >= 0, a >= 0, x == am * a;
                crate::episodes::lemma_div_bracket(x, big_t);
                assert(sh * big_t <= x);
                assert((t0 + sh) * big_t == t0 * big_t + sh * big_t) by (nonlinear_arith);
                assert(am * (sum0 + a) == am * sum0 + am * a) by (nonlinear_arith);
            },
        }
    }
}

/// Shares of the existing deposits staked in the episodes `lo..hi`.
pub open spec fn staked_deposit_shares(p: Pool, lo: int, hi: int) -> int
    decreases hi - lo,
{
    if hi <= lo {
        0
    } else {
        staked_deposit_shares(p, lo, hi - 1) + deposit_shares_in(p, hi - 1, p.deposits@.len() as int)
    }
}

/// Where every episode holds its deposits' shares, the shares summed over
/// a range of episodes are the shares of the deposits staked there.
pub proof fn lemma_episode_shares_are_deposit_shares(p: Pool, lo: int, hi: int)
    requires
        shares_match(p),
        0 <= lo,
        hi <= MAX_EPISODE_INDEX + 1,
    ensures
        episode_totals(p, lo, hi).1 == staked_deposit_shares(p, lo, hi),
    decreases hi - lo,
{
    if hi > lo {
        lemma_episode_shares_are_deposit_shares(p, lo, hi - 1);
        assert(episode_or_empty(p.episode(hi - 1)).episode_shares
            == deposit_shares_in(p, hi - 1, p.deposits@.len() as int));
    }
}

} // verus!
