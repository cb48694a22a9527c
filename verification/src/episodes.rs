//! Episode arithmetic: which episode a moment falls into, which episodes
//! accept deposits, and when the next episode starts.

use vstd::prelude::*;
use crate::{EPISODE_DURATION, MAX_ACTIVE_EPISODES, NANOS_PER_SECOND};

verus! {

/// Seconds elapsed since the epoch at the given nanosecond clock reading.
pub open spec fn seconds_of(now_ns: u64) -> int {
    now_ns as int / NANOS_PER_SECOND as int
}

/// Index of the episode that contains the given second.
pub open spec fn episode_of_second(t: int) -> int {
    t / EPISODE_DURATION as int
}

/// Index of the episode that contains the given clock reading.
pub open spec fn episode_at(now_ns: u64) -> int {
    episode_of_second(seconds_of(now_ns))
}

/// Converts a nanosecond clock reading into whole seconds.
pub fn seconds_from_nanos(now_ns: u64) -> (secs: u64)
    ensures
        secs == seconds_of(now_ns),
        secs <= u64::MAX / 1_000_000_000,
{
    now_ns / NANOS_PER_SECOND
}

/// The episode in progress at the given clock reading.
pub fn get_current_episode(now_ns: u64) -> (episode: u64)
    ensures
        episode == episode_at(now_ns),
        episode <= 7038,
{
    let secs = seconds_from_nanos(now_ns);
    proof {
        lemma_div_le_bound(secs as int, 18446744073, EPISODE_DURATION as int);
        assert(18446744073int / 2620800int == 7038int) by (nonlinear_arith);
    }
    secs / EPISODE_DURATION
}

/// Index of the episode in progress at the given clock reading.
pub fn get_current_episode_id(now_ns: u64) -> (episode: u64)
    ensures
        episode == episode_at(now_ns),
{
    get_current_episode(now_ns)
}

/// `x <= b` implies `x / d <= b / d` for a positive divisor.
pub proof fn lemma_div_le_bound(x: int, b: int, d: int)
    requires
        0 <= x <= b,
        0 < d,
    ensures
        x / d <= b / d,
{
    vstd::arithmetic::div_mod::lemma_div_is_ordered(x, b, d);
}

/// Division by a positive divisor brackets the dividend.
pub proof fn lemma_div_bracket(x: int, d: int)
    requires
        0 <= x,
        0 < d,
    ensures
        (x / d) * d <= x < (x / d + 1) * d,
        (x / d + 1) * d == (x / d) * d + d,
        0 <= x / d,
{
    vstd::arithmetic::div_mod::lemma_fundamental_div_mod(x, d);
    vstd::arithmetic::div_mod::lemma_mod_bound(x, d);
    vstd::arithmetic::div_mod::lemma_div_pos_is_pos(x, d);
    assert((x / d + 1) * d == (x / d) * d + d) by (nonlinear_arith);
    assert(d * (x / d) == (x / d) * d) by (nonlinear_arith);
}

/// The episode in which the pool state was last brought up to date.
pub fn get_last_processed_episode(last_time_updated: u64) -> (episode: u64)
    ensures
        episode == episode_of_second(last_time_updated as int),
{
    last_time_updated / EPISODE_DURATION
}

/// Whether an episode is active: from the current one up to
/// `MAX_ACTIVE_EPISODES` episodes ahead (exclusive).
pub open spec fn episode_active(episode_id: int, current: int) -> bool {
    current <= episode_id < current + MAX_ACTIVE_EPISODES as int
}

/// Whether deposits may currently be made into `episode_id`.
pub fn is_episode_active(episode_id: u64, now_ns: u64) -> (active: bool)
    ensures
        active == episode_active(episode_id as int, episode_at(now_ns)),
{
    let current_episode = get_current_episode(now_ns);
    episode_id >= current_episode && episode_id < current_episode + MAX_ACTIVE_EPISODES
}

/// Only every third episode (those with index 2 modulo 3) accepts stakes.
pub open spec fn episode_stakable(episode_id: int) -> bool {
    episode_id % 3 == 2
}

/// Whether `episode_id` is one that accepts stakes.
pub fn is_episode_stakable(episode_id: u64) -> (stakable: bool)
    ensures
        stakable == episode_stakable(episode_id as int),
{
    episode_id % 3 == 2
}

/// Seconds from `now_secs` until the next episode begins.
pub fn time_to_next_episode(now_secs: u64) -> (wait: u64)
    requires
        now_secs <= u64::MAX / 1_000_000_000,
    ensures
        now_secs + wait == (episode_of_second(now_secs as int) + 1) * EPISODE_DURATION,
        0 < wait <= EPISODE_DURATION,
{
    let current_episode = now_secs / EPISODE_DURATION;
    proof {
        lemma_div_bracket(now_secs as int, EPISODE_DURATION as int);
        assert(current_episode as int == now_secs as int / EPISODE_DURATION as int);
        assert((current_episode + 1) * EPISODE_DURATION <= now_secs + EPISODE_DURATION);
    }
    let next_episode_start = (current_episode + 1) * EPISODE_DURATION;
    next_episode_start - now_secs
}

/// End (exclusive) of an episode, in seconds.
pub open spec fn episode_end(episode_id: int) -> int {
    (episode_id + 1) * EPISODE_DURATION as int
}

/// First episode at or after `current_episode` that accepts stakes.
pub open spec fn first_stakable(current_episode: int) -> int {
    current_episode + (2 - current_episode % 3)
}

/// The first episode at or after `current_episode` that accepts stakes.
pub fn get_stakable_episode(current_episode: u64) -> (episode: u64)
    requires
        current_episode <= u64::MAX - 2,
    ensures
        episode == first_stakable(current_episode as int),
        episode_stakable(episode as int),
        forall|k: int| current_episode <= k < episode ==> !episode_stakable(k),
{
    let mut episode = current_episode;
    while episode % 3 != 2
        invariant
            current_episode <= u64::MAX - 2,
            current_episode <= episode <= first_stakable(current_episode as int),
            forall|k: int| current_episode <= k < episode ==> !episode_stakable(k),
        decreases first_stakable(current_episode as int) - episode,
    {
        episode = episode + 1;
    }
    episode
}

/// The stakable episode `relative_episode` places after the first one at
/// or after `current_episode` (stakable episodes are three apart); only the
/// first eight are offered.
pub fn get_stakable_episode_with_client(current_episode: u64, relative_episode: u8) -> (episode: u64)
    requires
        current_episode <= u64::MAX - 23,
        relative_episode <= 7,
    ensures
        episode == first_stakable(current_episode as int) + 3 * relative_episode,
        episode_stakable(episode as int),
{
    let first = get_stakable_episode(current_episode);
    first + (relative_episode as u64) * 3
}

/// Seconds from `now_secs` until `target_episode` ends.
pub fn get_episode_time_to_end(target_episode: u64, now_secs: u64) -> (wait: u64)
    requires
        episode_end(target_episode as int) <= u64::MAX,
        now_secs <= episode_end(target_episode as int),
    ensures
        wait == episode_end(target_episode as int) - now_secs,
{
    assert(target_episode + 1 <= (target_episode + 1) * EPISODE_DURATION) by (nonlinear_arith);
    (target_episode + 1) * EPISODE_DURATION - now_secs
}

} // verus!
