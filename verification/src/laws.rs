//! Properties of the pool and the claim registry that span several
//! operations.

use vstd::prelude::*;
use crate::types::{Deposit, PoolState, Product};
use crate::pool::{Pool, Accrual, MAX_EPISODE_INDEX, rate_per_share};
use crate::episodes::{episode_of_second, seconds_of, lemma_div_bracket, episode_end, episode_at};
use crate::deposits::{shares_for, share_value};
use crate::claim_types::{Claim, ClaimStatus, ClaimError};
use crate::claims::ClaimRegistry;
use crate::accounting::{
    live_from, books_balance, shares_match, deposit_shares_in, same_stake, lemma_deposit_shares_nonneg,
    lemma_shares_carry_over, lemma_shares_after_deposit, lemma_shares_after_withdrawal,
    lemma_deposit_shares_removed, lemma_totals_after_settling, lemma_totals_after_deposit,
    lemma_totals_after_withdrawal, lemma_totals_after_slash, lemma_totals_after_streaming,
    lemma_totals_after_booking, lemma_totals_after_cover_purchase, lemma_totals_after_collection,
    totals_match, episode_totals, lemma_totals_split, staked_deposit_shares,
    lemma_episode_shares_are_deposit_shares, lemma_totals_assets_nonneg, lemma_slashed_total_bound,
};
use crate::deposits::WithdrawalPlan;
use crate::rewards::{episode_or_empty, collect_rewards, all_collected, lemma_collect_when_all_collected,
    lemma_collect_keeps_stakes, reward_rate_increase, reward_duration, reward_end_episode, reward_last_episode};
use crate::deposits::without_id;
use crate::coverage::{required_allocation, BASIS_POINTS};
use crate::{EPISODE_DURATION, PRECISION_SCALE, MAX_ACTIVE_EPISODES};
use crate::coverage::same_product;

verus! {

/// Bringing the pool up to date twice at the same second changes nothing
/// the second time: the settled pool is its own settlement.
pub proof fn lemma_settling_is_idempotent(old: Pool, p: Pool, now: int)
    requires
        p.is_settled_from(&old, now),
        now >= old.last_time_updated,
    ensures
        p.last_time_updated == now,
        p.settled(now) == Some(p.accrual()),
        forall|k: int| #[trigger] p.settled_episode(k, now) == p.episode(k),
{
}

/// A deposit never dilutes the stakers already in the pool: after adding
/// `amount` assets for the shares `shares_for` mints, each share is worth
/// at least as much as before (compared as cross products, `assets/shares`).
pub proof fn lemma_deposit_does_not_dilute(state: PoolState, amount: u128)
    requires
        state.total_shares > 0,
        state.total_assets > 0,
        shares_for(state, amount) is Some,
    ensures
        ({
            let s = shares_for(state, amount).unwrap();
            (state.total_shares + s) * state.total_assets
                <= state.total_shares * (state.total_assets + amount)
        }),
{
    let s = shares_for(state, amount).unwrap() as int;
    let a = state.total_assets as int;
    let sh = state.total_shares as int;
    let am = amount as int;
    assert(s == (am * sh) / a);
    vstd::arithmetic::div_mod::lemma_fundamental_div_mod(am * sh, a);
    vstd::arithmetic::div_mod::lemma_mod_bound(am * sh, a);
    assert(s * a <= am * sh) by (nonlinear_arith)
        requires am * sh == a * ((am * sh) / a) + (am * sh) % a, (am * sh) % a >= 0, s == (am * sh) / a;
    assert((sh + s) * a <= sh * (a + am)) by (nonlinear_arith)
        requires s * a <= am * sh;
}

/// Into an empty pool a deposit buys one share per asset.
pub proof fn lemma_first_deposit_one_to_one(state: PoolState, amount: u128)
    requires
        state.total_shares == 0,
    ensures
        shares_for(state, amount) == Some(amount),
{
}

/// A claim that is being executed cannot be executed a second time at the
/// same time: whatever the clock says, the second attempt is refused.
pub proof fn lemma_no_concurrent_execution(g: ClaimRegistry, g2: ClaimRegistry, id: u64, c: Claim, now_ns: u64)
    requires
        g2.only_claim_changed(&g, id as int, Claim { status: ClaimStatus::Executing, ..c }),
        1 <= id <= g.claims@.len(),
    ensures
        g2.execution_refusal(id, now_ns) == Some(ClaimError::NotApproved),
{
}

/// An executed claim is never executed again.
pub proof fn lemma_executed_claim_stays_executed(g: ClaimRegistry, id: u64, now_ns: u64)
    requires
        g.claim(id as int) matches Some(c) && c.status == ClaimStatus::Executed,
    ensures
        g.execution_refusal(id, now_ns) == Some(ClaimError::AlreadyExecuted),
        g.spam_refusal(g.owner@, id) matches Some(e) && (e == ClaimError::AlreadyExecuted || e == ClaimError::NotApprover),
{
}

/// A claim marked as spam keeps its deposit: its proposer's withdrawal is
/// refused whatever the clock says.
pub proof fn lemma_spam_forfeits_deposit(g: ClaimRegistry, id: u64, now_ns: u64)
    requires
        g.claim(id as int) matches Some(c) && c.status == ClaimStatus::Spam,
    ensures
        g.withdrawal_refusal(g.claim(id as int).unwrap().proposer@, id, now_ns)
            == Some(ClaimError::AlreadyMarkedAsSpam),
{
}

/// A deposit is returned at most once: once a claim's deposit was
/// withdrawn (it is zero), every later withdrawal is refused.
pub proof fn lemma_deposit_withdrawn_once(g: ClaimRegistry, id: u64, caller: Seq<u8>, now_ns: u64)
    requires
        g.claim(id as int) matches Some(c) && c.deposit_amount == 0,
    ensures
        g.withdrawal_refusal(caller, id, now_ns) is Some,
{
}

/// Only an approver can approve, and an approved claim cannot be approved again.
pub proof fn lemma_approval_guarded(g: ClaimRegistry, caller: Seq<u8>, id: u64, now_ns: u64)
    ensures
        !g.approver(caller) ==> g.approval_refusal(caller, id, now_ns) == Some(ClaimError::NotApprover),
        g.approver(caller) && (g.claim(id as int) matches Some(c) && c.status == ClaimStatus::Approved)
            ==> g.approval_refusal(caller, id, now_ns) == Some(ClaimError::AlreadyApproved),
{
}

/// Bringing the pool up to date keeps its books balanced: the episodes
/// that expire take exactly their assets, shares and reward rate out of
/// the pool, and every episode keeps the shares of its deposits.
pub proof fn lemma_settling_keeps_books(old: Pool, p: Pool, now_ns: u64)
    requires
        old.wf(),
        books_balance(old),
        seconds_of(now_ns) >= old.last_time_updated,
        p.is_settled_from(&old, seconds_of(now_ns)),
    ensures
        books_balance(p),
{
    lemma_totals_after_settling(old, p, now_ns);
    assert forall|i: int| 0 <= i < old.deposits@.len() implies same_stake(#[trigger] old.deposit(i), p.deposit(i)) by {}
    assert forall|k: int| 0 <= k <= MAX_EPISODE_INDEX implies #[trigger] episode_or_empty(p.episode(k)).episode_shares
        == episode_or_empty(old.episode(k)).episode_shares by {
        assert(p.episode(k) == old.settled_episode(k, seconds_of(now_ns)));
    }
    lemma_shares_carry_over(old, p);
}

/// Recording a deposit into an episode that has not expired keeps the
/// books balanced.
pub proof fn lemma_deposit_keeps_books(old: Pool, p: Pool, id: u64, d: Deposit, user: Seq<u8>, amount: u128)
    requires
        books_balance(old),
        old.deposit(id as int) is None,
        old.deposit_fits(d, amount, true),
        p.deposit_added(&old, id, d, user, amount, true),
        live_from(old) <= d.episode <= MAX_EPISODE_INDEX,
    ensures
        books_balance(p),
{
    lemma_totals_after_deposit(old, p, id, d, user, amount);
    lemma_shares_after_deposit(old, p, id, d, user, amount, true);
}

/// Completing the withdrawal of a deposit from an expired episode keeps
/// the books balanced.
pub proof fn lemma_withdrawal_keeps_books(old: Pool, p: Pool, caller: Seq<u8>, deposit_id: u64, plan: WithdrawalPlan)
    requires
        books_balance(old),
        p.is_withdrawn_from(&old, caller, deposit_id, plan),
        old.deposit(deposit_id as int) matches Some(d) && d.shares == plan.deposit.shares
            && d.episode == plan.deposit.episode,
        plan.deposit.episode < live_from(old),
    ensures
        books_balance(p),
{
    lemma_totals_after_withdrawal(old, p, caller, deposit_id, plan);
    if plan.deposit.episode <= MAX_EPISODE_INDEX {
        lemma_shares_after_withdrawal(old, p, caller, deposit_id, plan);
    } else {
        assert(p.episodes@.len() <= MAX_EPISODE_INDEX + 1);
        assert forall|i: int| 0 <= i < old.deposits@.len() && i != deposit_id implies
            same_stake(#[trigger] old.deposit(i), p.deposit(i)) by {
            assert(p.deposits@[i] == old.deposits@[i]);
        }
        assert forall|e: int| 0 <= e <= MAX_EPISODE_INDEX implies
            #[trigger] episode_or_empty(p.episode(e)).episode_shares
                == deposit_shares_in(p, e, p.deposits@.len() as int) by {
            lemma_deposit_shares_removed(old, p, e, deposit_id as int, old.deposits@.len() as int);
        }
    }
}

/// A slash over live episodes keeps the books balanced: the pool loses
/// exactly the assets the episodes lost, and no shares move.
pub proof fn lemma_slash_keeps_books(old: Pool, p: Pool, amount: u128, from: int, to: int, t: u128)
    requires
        books_balance(old),
        old.slashed_total(amount, from, to) == Some(t),
        p.is_slashed_from(&old, amount, from, to, t),
        live_from(old) <= from <= to <= MAX_EPISODE_INDEX + 1,
    ensures
        books_balance(p),
{
    lemma_totals_after_slash(old, p, amount, from, to, t);
    assert forall|i: int| 0 <= i < old.deposits@.len() implies same_stake(#[trigger] old.deposit(i), p.deposit(i)) by {}
    assert forall|k: int| 0 <= k <= MAX_EPISODE_INDEX implies #[trigger] episode_or_empty(p.episode(k)).episode_shares
        == episode_or_empty(old.episode(k)).episode_shares by {
        assert(p.episode(k) == old.slashed_episode(amount, from, to, k));
    }
    lemma_shares_carry_over(old, p);
}

/// Streaming a reward whose end is scheduled on a live episode keeps the
/// books balanced: the reward rate stays the sum of the decreases
/// scheduled on live episodes.
pub proof fn lemma_streaming_keeps_books(old: Pool, p: Pool, inc: u128, target: int)
    requires
        books_balance(old),
        old.stream_fits(inc, target),
        p.is_streaming_from(&old, inc, target),
        live_from(old) <= target <= MAX_EPISODE_INDEX,
    ensures
        books_balance(p),
{
    lemma_totals_after_streaming(old, p, inc, target);
    assert forall|i: int| 0 <= i < old.deposits@.len() implies same_stake(#[trigger] old.deposit(i), p.deposit(i)) by {}
    assert forall|k: int| 0 <= k <= MAX_EPISODE_INDEX implies #[trigger] episode_or_empty(p.episode(k)).episode_shares
        == episode_or_empty(old.episode(k)).episode_shares by {}
    lemma_shares_carry_over(old, p);
}

/// Booking cover on the settled pool keeps its books balanced.
pub proof fn lemma_cover_booking_keeps_books(p: Pool, q: Pool, id: int, alloc0: u128, last: int, amount: u128,
    now: int)
    requires
        books_balance(p),
        q.is_sale_from(&p, id, alloc0, last, amount, now),
    ensures
        books_balance(q),
{
    lemma_totals_after_booking(p, q, id, alloc0, last, amount, now);
    assert forall|i: int| 0 <= i < p.deposits@.len() implies same_stake(#[trigger] p.deposit(i), q.deposit(i)) by {}
    assert forall|k: int| 0 <= k <= MAX_EPISODE_INDEX implies #[trigger] episode_or_empty(q.episode(k)).episode_shares
        == episode_or_empty(p.episode(k)).episode_shares by {}
    lemma_shares_carry_over(p, q);
}

/// Completing a cover purchase, which streams its premium to a live
/// episode, keeps the books balanced.
pub proof fn lemma_cover_purchase_keeps_books(old: Pool, p: Pool, inc: u128, target: int)
    requires
        books_balance(old),
        old.stream_fits(inc, target),
        (Pool { coverages: old.coverages, ..p }).is_streaming_from(&old, inc, target),
        live_from(old) <= target <= MAX_EPISODE_INDEX,
    ensures
        books_balance(p),
{
    lemma_totals_after_cover_purchase(old, p, inc, target);
    let q = Pool { coverages: old.coverages, ..p };
    assert forall|i: int| 0 <= i < old.deposits@.len() implies same_stake(#[trigger] old.deposit(i), p.deposit(i)) by {
        assert(q.deposit(i) == p.deposit(i));
    }
    assert forall|k: int| 0 <= k <= MAX_EPISODE_INDEX implies #[trigger] episode_or_empty(p.episode(k)).episode_shares
        == episode_or_empty(old.episode(k)).episode_shares by {
        assert(q.episode(k) == p.episode(k));
    }
    lemma_shares_carry_over(old, p);
}

/// Collecting rewards, which only records payouts on deposits, keeps the
/// books balanced.
pub proof fn lemma_collection_keeps_books(old: Pool, p: Pool, ids: Seq<u64>, update: bool)
    requires
        books_balance(old),
        collect_rewards(old.deposits@, old.accumulated_reward_per_share, ids, update) matches Some((_, after))
            && p.deposits@ == after,
        p.only_deposits_changed(&old),
    ensures
        books_balance(p),
{
    lemma_totals_after_collection(old, p);
    lemma_collect_keeps_stakes(old.deposits@, old.accumulated_reward_per_share, ids, update);
    assert forall|i: int| 0 <= i < old.deposits@.len() implies same_stake(#[trigger] old.deposit(i), p.deposit(i)) by {}
    assert forall|k: int| 0 <= k <= MAX_EPISODE_INDEX implies #[trigger] episode_or_empty(p.episode(k)).episode_shares
        == episode_or_empty(old.episode(k)).episode_shares by {}
    lemma_shares_carry_over(old, p);
}

/// Expiring episodes never lowers the accumulated reward per share.
proof fn lemma_accrue_grows(p: Pool, a: Accrual, from: int, k: int)
    requires
        from <= k,
        p.accrue_episodes(a, from, k) is Some,
    ensures
        p.accrue_episodes(a, from, k).unwrap().acc >= a.acc,
        p.accrue_episodes(a, from, k).unwrap().reward_rate <= a.reward_rate,
    decreases k - from,
{
    if k > from {
        lemma_accrue_grows(p, a, from, k - 1);
    }
}

/// Bringing the pool up to date never lowers the reward earned per share,
/// so what a deposit has earned never shrinks.
pub proof fn lemma_settling_never_lowers_rewards(old: Pool, p: Pool, now: int)
    requires
        p.is_settled_from(&old, now),
    ensures
        p.accumulated_reward_per_share >= old.accumulated_reward_per_share,
{
    if now != old.last_time_updated {
        let from = episode_of_second(old.last_time_updated as int);
        let to = episode_of_second(now);
        if from <= to {
            lemma_accrue_grows(old, old.accrual(), from, to);
        }
    }
}

/// A withdrawn deposit has nothing left to collect: listing it pays zero
/// and changes nothing.
pub proof fn lemma_withdrawn_deposit_earns_nothing(old: Pool, p: Pool, caller: Seq<u8>, deposit_id: u64, plan: WithdrawalPlan,
    acc: u128, update: bool)
    requires
        p.is_withdrawn_from(&old, caller, deposit_id, plan),
        deposit_id < old.deposits@.len(),
    ensures
        collect_rewards(p.deposits@, acc, seq![deposit_id], update) == Some((0u128, p.deposits@)),
{
    let ids = seq![deposit_id];
    assert(p.deposits@[deposit_id as int] is None);
    assert(all_collected(p.deposits@, acc, ids));
    lemma_collect_when_all_collected(p.deposits@, acc, ids, update);
}

/// A deposit joins with nothing to collect: rewards accrued before it was
/// made are not its to take.
pub proof fn lemma_new_deposit_has_nothing_to_collect(old: Pool, p: Pool, id: u64, d: Deposit, user: Seq<u8>,
    amount: u128, update: bool)
    requires
        p.deposit_added(&old, id, d, user, amount, true),
        d.reward_per_share == old.accumulated_reward_per_share,
        d.rewards_collected == 0,
    ensures
        collect_rewards(p.deposits@, p.accumulated_reward_per_share, seq![id], update) == Some((0u128, p.deposits@)),
{
    let ids = seq![id];
    assert(p.deposit(id as int) == Some(d));
    assert(p.deposits@[id as int] == Some(d));
    assert(d.shares * (p.accumulated_reward_per_share - d.reward_per_share) == 0);
    assert(all_collected(p.deposits@, p.accumulated_reward_per_share, ids));
    lemma_collect_when_all_collected(p.deposits@, p.accumulated_reward_per_share, ids, update);
}

/// A deposit's shares are part of its episode's sum of deposit shares.
proof fn lemma_deposit_within_sum(p: Pool, k: int, n: int)
    requires
        0 <= k < n,
        p.deposit(k) is Some,
    ensures
        deposit_shares_in(p, p.deposit(k).unwrap().episode as int, n) >= p.deposit(k).unwrap().shares,
    decreases n,
{
    let e = p.deposit(k).unwrap().episode as int;
    lemma_deposit_shares_nonneg(p, e, n - 1);
    if n - 1 > k {
        lemma_deposit_within_sum(p, k, n - 1);
    }
}

/// While the books balance, a withdrawal whose plan values an existing
/// deposit at its episode's share price always completes: its episode
/// holds at least the deposit's shares and the assets they are worth.
pub proof fn lemma_withdrawal_completes(p: Pool, deposit_id: u64, plan: WithdrawalPlan)
    requires
        shares_match(p),
        p.deposit(deposit_id as int) matches Some(d) && d.shares == plan.deposit.shares
            && d.episode == plan.deposit.episode,
        plan.deposit.episode <= MAX_EPISODE_INDEX,
        p.episode(plan.deposit.episode as int) matches Some(e)
            ==> share_value(plan.deposit.shares, e) == Some(plan.withdrawal_amount),
    ensures
        p.episode(plan.deposit.episode as int) matches Some(e) ==> e.episode_shares >= plan.deposit.shares
            && e.assets_staked >= plan.withdrawal_amount,
{
    let ep = plan.deposit.episode as int;
    lemma_deposit_within_sum(p, deposit_id as int, p.deposits@.len() as int);
    assert(episode_or_empty(p.episode(ep)).episode_shares == deposit_shares_in(p, ep, p.deposits@.len() as int));
    if let Some(e) = p.episode(ep) {
        let s = plan.deposit.shares as int;
        let a = e.assets_staked as int;
        let t = e.episode_shares as int;
        assert(s <= t);
        assert(t > 0);
        assert(s * a <= t * a) by (nonlinear_arith)
            requires s <= t, a >= 0;
        assert((s * a) / t <= a) by (nonlinear_arith)
            requires s * a <= t * a, t > 0, a >= 0;
    }
}

/// Accrual credits the staked shares what the rate streams, within
/// rounding: over any stretch, the per-share increase times all the
/// pool's shares is at most what the rate streams (both scaled by
/// `PRECISION_SCALE`), and, while the pool holds assets and shares, falls
/// short of it by less than one unit per share.
pub proof fn lemma_accrual_credits_what_is_streamed(state: PoolState, rate: u128, from: int, to: int)
    requires
        from <= to,
        rate_per_share(state, rate, from, to) is Some,
    ensures
        state.total_shares * rate_per_share(state, rate, from, to).unwrap() <= rate * (to - from),
        state.total_assets > 0 && state.total_shares > 0 ==> rate * (to - from) - state.total_shares
            < state.total_shares * rate_per_share(state, rate, from, to).unwrap(),
{
    let c = rate_per_share(state, rate, from, to).unwrap();
    if state.total_assets == 0 || state.total_shares == 0 {
        assert(rate * (to - from) >= 0) by (nonlinear_arith)
            requires rate >= 0, to - from >= 0;
    } else {
        let x = rate * (to - from);
        let n = state.total_shares as int;
        assert(x >= 0) by (nonlinear_arith)
            requires rate >= 0, to - from >= 0, x == rate * (to - from);
        lemma_div_bracket(x, n);
        assert(n * (x / n) == (x / n) * n) by (nonlinear_arith);
    }
}

/// A reward paid into the pool is streamed whole, within rounding: the
/// rate increase it causes, kept up over the span it is computed on (up to
/// the end of its last episode), adds up to at most the amount paid and to
/// more than the amount less one unit per second of that span (both scaled
/// by `PRECISION_SCALE`). The increase is undone only when the episode after
/// the last one expires, one episode after that span ends.
pub proof fn lemma_reward_streamed_whole(amount: u128, now: int, horizon: int)
    requires
        0 <= now,
        0 <= horizon,
        reward_rate_increase(amount, now, horizon) is Some,
    ensures
        reward_duration(now, horizon) > 0,
        reward_rate_increase(amount, now, horizon).unwrap() * reward_duration(now, horizon)
            <= amount * PRECISION_SCALE,
        amount * PRECISION_SCALE - reward_duration(now, horizon)
            < reward_rate_increase(amount, now, horizon).unwrap() * reward_duration(now, horizon),
        episode_end(reward_end_episode(now, horizon)) == now + reward_duration(now, horizon) + EPISODE_DURATION,
{
    let t = now + horizon;
    lemma_div_bracket(t, EPISODE_DURATION as int);
    let d = reward_duration(now, horizon);
    assert(d > 0);
    let x = amount * PRECISION_SCALE;
    assert(x >= 0) by (nonlinear_arith)
        requires amount >= 0, x == amount * PRECISION_SCALE;
    lemma_div_bracket(x, d);
    let l = reward_last_episode(now, horizon);
    assert((l + 2) * EPISODE_DURATION == (l + 1) * EPISODE_DURATION + EPISODE_DURATION) by (nonlinear_arith);
}

/// Taking an identifier out of a list that it was just added to, and did
/// not hold before, gives the list back.
pub proof fn lemma_without_undoes_push(ids: Seq<u64>, id: u64)
    requires
        !ids.contains(id),
    ensures
        without_id(ids.push(id), id) == ids,
{
    assert(ids.push(id).drop_last() =~= ids);
    lemma_without_absent(ids, id);
}

/// Taking out an identifier that a list does not hold leaves it as it is.
pub proof fn lemma_without_absent(ids: Seq<u64>, id: u64)
    requires
        !ids.contains(id),
    ensures
        without_id(ids, id) == ids,
    decreases ids.len(),
{
    if ids.len() > 0 {
        let init = ids.drop_last();
        assert(ids.last() == ids[ids.len() - 1]);
        assert forall|i: int| 0 <= i < init.len() implies init[i] != id by {
            assert(init[i] == ids[i]);
        }
        lemma_without_absent(init, id);
        assert(init.push(ids.last()) =~= ids);
    }
}

/// Withdrawing a deposit undoes its recording in the deposit records: when
/// `user`'s deposit under a fresh identifier is recorded and then
/// withdrawn by `user`, every user's list and every deposit slot is as
/// before.
pub proof fn lemma_withdrawal_undoes_recording(old: Pool, p: Pool, q: Pool, id: u64, d: Deposit, user: Seq<u8>,
    amount: u128, update: bool, plan: WithdrawalPlan)
    requires
        old.deposit(id as int) is None,
        !old.user_deposit_ids(user).contains(id),
        p.deposit_added(&old, id, d, user, amount, update),
        q.is_withdrawn_from(&p, user, id, plan),
    ensures
        forall|u: Seq<u8>| #[trigger] q.user_deposit_ids(u) == old.user_deposit_ids(u),
        forall|k: int| #[trigger] q.deposit(k) == old.deposit(k),
{
    lemma_without_undoes_push(old.user_deposit_ids(user), id);
    assert forall|u: Seq<u8>| #[trigger] q.user_deposit_ids(u) == old.user_deposit_ids(u) by {
        assert(p.user_deposit_ids(u) == if u == user {
            old.user_deposit_ids(user).push(id)
        } else {
            old.user_deposit_ids(u)
        });
    }
    assert forall|k: int| #[trigger] q.deposit(k) == old.deposit(k) by {
        assert(p.deposit(k) == if k == id { Some(d) } else { old.deposit(k) });
        assert(p.deposit(id as int) == Some(d));
    }
}

/// A slash never takes more than the amount asked for: while the books
/// balance, the episodes slashed from the first live one on together lose
/// at most `amount`.
pub proof fn lemma_slash_takes_at_most_amount(p: Pool, amount: u128, from: int, to: int)
    requires
        totals_match(p),
        live_from(p) <= from <= to <= MAX_EPISODE_INDEX + 1,
        p.slashed_total(amount, from, to) is Some,
    ensures
        p.slashed_total(amount, from, to).unwrap() <= amount,
{
    let t = p.slashed_total(amount, from, to).unwrap() as int;
    let big_t = p.pool_state.total_assets as int;
    let hi = MAX_EPISODE_INDEX + 1;
    lemma_slashed_total_bound(p, amount, from, to);
    if big_t > 0 {
        lemma_totals_split(p, live_from(p), from, hi);
        lemma_totals_split(p, from, to, hi);
        lemma_totals_assets_nonneg(p, live_from(p), from);
        lemma_totals_assets_nonneg(p, to, hi);
        let w = episode_totals(p, from, to).0;
        assert(w <= big_t);
        let am = amount as int;
        assert(am * w <= am * big_t) by (nonlinear_arith)
            requires am >= 0, w <= big_t;
        assert(t <= am) by (nonlinear_arith)
            requires t * big_t <= am * big_t, big_t > 0;
    }
}

/// What the rate streams reaches the stakers within rounding: while the
/// books balance, the shares of the deposits staked in live episodes are
/// the pool's shares, so the per-share increase of any stretch credits
/// them together at most what the rate streams over it, and less than one
/// unit per share short of it (both scaled by `PRECISION_SCALE`).
pub proof fn lemma_streamed_rewards_reach_stakers(p: Pool, from: int, to: int)
    requires
        books_balance(p),
        from <= to,
        p.pool_state.total_assets > 0,
        rate_per_share(p.pool_state, p.pool_reward_rate, from, to) is Some,
    ensures
        ({
            let staked = staked_deposit_shares(p, live_from(p), MAX_EPISODE_INDEX + 1);
            let c = rate_per_share(p.pool_state, p.pool_reward_rate, from, to).unwrap();
            let streamed = p.pool_reward_rate * (to - from);
            &&& staked == p.pool_state.total_shares
            &&& staked * c <= streamed
            &&& p.pool_state.total_shares > 0 ==> streamed - staked < staked * c
        }),
{
    lemma_episode_shares_are_deposit_shares(p, live_from(p), MAX_EPISODE_INDEX + 1);
    lemma_accrual_credits_what_is_streamed(p.pool_state, p.pool_reward_rate, from, to);
}

/// When the running capacity sum reaches a request, some prefix of the
/// episodes already holds it.
pub proof fn lemma_reached_capacity_has_witness(p: Pool, requested: u128, from: int, to: int)
    requires
        p.capacity_reaches(requested, from, to) == Some(true),
    ensures
        exists|k: int| from < k <= to && (#[trigger] p.capacity_sum(from, k) matches Some(c) && c >= requested),
    decreases to - from,
{
    if p.capacity_reaches(requested, from, to - 1) == Some(true) {
        lemma_reached_capacity_has_witness(p, requested, from, to - 1);
    } else {
        assert(p.capacity_sum(from, to) matches Some(c) && c >= requested);
    }
}

/// A sale never takes a product past its allocation limit: after cover is
/// sold from product `id`, the product's whole allocation (what it had
/// left from earlier sales plus this one), scaled up by its limit
/// `max_pool_allocation_percent` in basis points, is held by the pool's
/// episodes from the last covered one on, within the active window.
pub proof fn lemma_sale_stays_within_allocation_cap(p: Pool, q: Pool, id: int, alloc0: u128, last: u64,
    amount: u128, now_ns: u64)
    requires
        0 <= id < p.products@.len(),
        q.is_sale_from(&p, id, alloc0, last as int, amount, seconds_of(now_ns)),
        required_allocation(amount, alloc0, p.products@[id].max_pool_allocation_percent) matches Some(req)
            && p.allocation_available(last, req, now_ns) == Some(true),
    ensures
        ({
            let prod = q.products@[id];
            &&& prod.max_pool_allocation_percent > 0
            &&& prod.allocation == alloc0 + amount
            &&& p.pool_state.total_shares > 0
            &&& exists|k: int| last < k <= episode_at(now_ns) + MAX_ACTIVE_EPISODES
                && (#[trigger] p.capacity_sum(last as int, k) matches Some(c)
                && (prod.allocation * BASIS_POINTS) / (prod.max_pool_allocation_percent as int) <= c)
        }),
{
    let req = required_allocation(amount, alloc0, p.products@[id].max_pool_allocation_percent).unwrap();
    assert(same_product(q.products@[id], Product {
        allocation: (alloc0 + amount) as u128,
        last_allocation_update: seconds_of(now_ns) as u64,
        ..p.products@[id]
    }));
    lemma_reached_capacity_has_witness(p, req, last as int, episode_at(now_ns) + MAX_ACTIVE_EPISODES);
}

/// A completed withdrawal takes exactly what it pays out of its episode:
/// when a deposit is paid the value of its shares, and the episode keeps
/// other shares, the episode loses the deposit's shares and the amount
/// paid, so the deposits left there keep their value per share, up to
/// the rounding of that one payment (which the pool keeps).
pub proof fn lemma_withdrawal_keeps_share_price(old: Pool, q: Pool, caller: Seq<u8>, deposit_id: u64,
    plan: WithdrawalPlan)
    requires
        q.is_withdrawn_from(&old, caller, deposit_id, plan),
        old.episode(plan.deposit.episode as int) matches Some(e)
            && plan.deposit.shares < e.episode_shares
            && share_value(plan.deposit.shares, e) == Some(plan.withdrawal_amount),
    ensures
        ({
            let e = old.episode(plan.deposit.episode as int).unwrap();
            &&& q.episode(plan.deposit.episode as int) matches Some(f)
                && f.assets_staked + plan.withdrawal_amount == e.assets_staked
                && f.episode_shares + plan.deposit.shares == e.episode_shares
                && e.assets_staked * f.episode_shares <= f.assets_staked * e.episode_shares
                && f.assets_staked * e.episode_shares < e.assets_staked * f.episode_shares + e.episode_shares
        }),
{
    let e = old.episode(plan.deposit.episode as int).unwrap();
    let a = e.assets_staked as int;
    let n = e.episode_shares as int;
    let s = plan.deposit.shares as int;
    let w = plan.withdrawal_amount as int;
    let x = s * a;
    assert(x >= 0) by (nonlinear_arith)
        requires s >= 0, a >= 0, x == s * a;
    assert(w == x / n);
    lemma_div_bracket(x, n);
    assert(x <= n * a) by (nonlinear_arith)
        requires x == s * a, s < n, a >= 0;
    assert(w <= a) by (nonlinear_arith)
        requires w * n <= x, x <= n * a, n > 0;
    let f = q.episode(plan.deposit.episode as int).unwrap();
    assert(f.assets_staked == a - w);
    assert(f.episode_shares == n - s);
    assert(a * (n - s) <= (a - w) * n) by (nonlinear_arith)
        requires w * n <= s * a;
    assert((a - w) * n < a * (n - s) + n) by (nonlinear_arith)
        requires s * a < (w + 1) * n;
}

/// A withdrawal pays the deposit its proportional part of its episode's
/// assets, rounded down, on top of its pending rewards: the amount times
/// the episode's shares is at most the deposit's shares times the
/// episode's assets, and short of it by less than one share's worth.
pub proof fn lemma_withdrawal_pays_proportional_share(p: Pool, caller: Seq<u8>, deposit_id: u64, current: int,
    plan: WithdrawalPlan)
    requires
        p.withdrawal_decision(caller, deposit_id, current) == Some(Ok::<WithdrawalPlan, crate::types::PoolError>(plan)),
    ensures
        p.deposit(deposit_id as int) == Some(plan.deposit),
        p.owns(caller, deposit_id),
        plan.deposit.episode < current,
        plan.total_transfer_amount >= plan.withdrawal_amount,
        p.episode(plan.deposit.episode as int) matches Some(e)
            && e.episode_shares > 0
            && plan.withdrawal_amount * e.episode_shares <= plan.deposit.shares * e.assets_staked
            && plan.deposit.shares * e.assets_staked < (plan.withdrawal_amount + 1) * e.episode_shares,
{
    let d = p.deposit(deposit_id as int).unwrap();
    let e = p.episode(d.episode as int).unwrap();
    let x = d.shares * e.assets_staked;
    assert(x >= 0) by (nonlinear_arith)
        requires d.shares >= 0, e.assets_staked >= 0, x == d.shares * e.assets_staked;
    lemma_div_bracket(x, e.episode_shares as int);
    assert(plan.withdrawal_amount * e.episode_shares == e.episode_shares * plan.withdrawal_amount) by (nonlinear_arith);
}

} // verus!
