//! Staking into episodes and withdrawing stakes once their episode ended.

use vstd::prelude::*;
use crate::types::{Deposit, Episode, Trap, PoolError, PoolState, UserDepositInfo, UserDeposits, new_episode};
use crate::pool::{Pool, UserDepositList, MAX_EPISODE_INDEX};
use vstd::pervasive::VecAdditionalExecFns;
use crate::principal::same_principal;
use crate::episodes::{seconds_of, episode_at, episode_active, episode_stakable, get_current_episode,
    is_episode_active, is_episode_stakable};
use crate::rewards::{collect_rewards, episode_or_empty};
use crate::{MINIMUM_DEPOSIT_AMOUNT, TRANSFER_FEE};

verus! {

/// Assets that `shares` of an episode are worth: their part of the assets
/// staked in it. `None` when the episode has no shares (division by zero)
/// or the product leaves the range of `u128`.
pub open spec fn share_value(shares: u128, e: Episode) -> Option<u128> {
    if e.episode_shares == 0 || shares * e.assets_staked > u128::MAX {
        None
    } else {
        Some(((shares * e.assets_staked) / (e.episode_shares as int)) as u128)
    }
}

/// Computes `share_value`.
pub fn share_value_exec(shares: u128, e: Episode) -> (r: Option<u128>)
    ensures
        r == share_value(shares, e),
{
    if e.episode_shares == 0 {
        return None;
    }
    match shares.checked_mul(e.assets_staked) {
        None => None,
        Some(p) => Some(p / e.episode_shares),
    }
}

/// Shares minted for `amount` of new assets: one per asset in an empty
/// pool, otherwise in proportion to the existing shares per asset.
/// `None` when the pool has shares but no assets (division by zero) or the
/// product leaves the range of `u128`.
pub open spec fn shares_for(state: PoolState, amount: u128) -> Option<u128> {
    if state.total_shares == 0 {
        Some(amount)
    } else if state.total_assets == 0 || amount * state.total_shares > u128::MAX {
        None
    } else {
        Some(((amount * state.total_shares) / (state.total_assets as int)) as u128)
    }
}

/// Computes `shares_for`.
pub fn shares_for_exec(state: PoolState, amount: u128) -> (r: Option<u128>)
    ensures
        r == shares_for(state, amount),
{
    if state.total_shares == 0 {
        return Some(amount);
    }
    if state.total_assets == 0 {
        return None;
    }
    match amount.checked_mul(state.total_shares) {
        None => None,
        Some(p) => Some(p / state.total_assets),
    }
}

/// Adding `shares` and `assets` to the pool totals stays within `u128`.
pub open spec fn old_totals_fit(state: PoolState, shares: u128, assets: u128) -> bool {
    &&& state.total_assets + assets <= u128::MAX
    &&& state.total_shares + shares <= u128::MAX
}

/// What a withdrawal pays: the stake's value and, on top, its pending rewards.
#[derive(Clone, Copy, Debug, PartialEq, Eq)]
pub struct WithdrawalPlan {
    /// The deposit as it was when the withdrawal was accepted.
    pub deposit: Deposit,
    pub withdrawal_amount: u128,
    pub total_transfer_amount: u128,
}

/// Position of the first of the first `n` lists that belongs to `user`.
pub open spec fn first_list(lists: Seq<UserDepositList>, user: Seq<u8>, n: int) -> Option<int>
    decreases n,
{
    if n <= 0 {
        None
    } else {
        match first_list(lists, user, n - 1) {
            Some(i) => Some(i),
            None => if lists[n - 1].user@ == user { Some(n - 1) } else { None },
        }
    }
}

/// Lists that name the same users below `n` find a user at the same place.
pub proof fn lemma_first_list_same_users(a: Seq<UserDepositList>, b: Seq<UserDepositList>, user: Seq<u8>, n: int)
    requires
        n <= a.len(),
        n <= b.len(),
        forall|i: int| 0 <= i < n ==> #[trigger] a[i].user@ == b[i].user@,
    ensures
        first_list(a, user, n) == first_list(b, user, n),
    decreases n,
{
    if n > 0 {
        lemma_first_list_same_users(a, b, user, n - 1);
    }
}

/// The position found lies below `n` and names the user.
pub proof fn lemma_first_list_found(lists: Seq<UserDepositList>, user: Seq<u8>, n: int)
    requires
        n <= lists.len(),
    ensures
        first_list(lists, user, n) matches Some(i) ==> 0 <= i < n && lists[i].user@ == user,
    decreases n,
{
    if n > 0 {
        lemma_first_list_found(lists, user, n - 1);
    }
}

/// `ids` without any occurrence of `id`, the others in their order.
pub open spec fn without_id(ids: Seq<u64>, id: u64) -> Seq<u64>
    decreases ids.len(),
{
    if ids.len() == 0 {
        Seq::empty()
    } else if ids.last() == id {
        without_id(ids.drop_last(), id)
    } else {
        without_id(ids.drop_last(), id).push(ids.last())
    }
}

impl Pool {
    /// Identifiers of the deposits recorded for `user`, in the order they
    /// were recorded; empty for a user with no list.
    pub open spec fn user_deposit_ids(&self, user: Seq<u8>) -> Seq<u64> {
        match first_list(self.user_deposits@, user, self.user_deposits@.len() as int) {
            Some(i) => self.user_deposits@[i].ids@,
            None => Seq::empty(),
        }
    }

    /// `user` counts as the owner of `id`: it is in the user's list.
    pub open spec fn owns(&self, user: Seq<u8>, id: u64) -> bool {
        self.user_deposit_ids(user).contains(id)
    }

    /// Every user's list in `self` is the one in `old`, but for `user`'s,
    /// which is `ids`.
    pub open spec fn lists_changed_for(&self, old: &Pool, user: Seq<u8>, ids: Seq<u64>) -> bool {
        forall|u: Seq<u8>| #[trigger] self.user_deposit_ids(u) == if u == user {
            ids
        } else {
            old.user_deposit_ids(u)
        }
    }

    /// Position in `user_deposits` of `user`'s list, if there is one.
    fn find_user_list(&self, user: &[u8]) -> (r: Option<usize>)
        ensures
            r matches Some(i) ==> i < self.user_deposits@.len() && first_list(self.user_deposits@, user@,
                self.user_deposits@.len() as int) == Some(i as int),
            r is None ==> first_list(self.user_deposits@, user@, self.user_deposits@.len() as int) is None,
    {
        let n = self.user_deposits.len();
        let mut i: usize = 0;
        while i < n
            invariant
                n == self.user_deposits@.len(),
                i <= n,
                first_list(self.user_deposits@, user@, i as int) is None,
            decreases n - i,
        {
            if same_principal(self.user_deposits[i].user.as_slice(), user) {
                assert(first_list(self.user_deposits@, user@, i as int + 1) == Some(i as int));
                proof { self.lemma_first_list_stays(user@, i as int + 1, n as int); }
                return Some(i);
            }
            i = i + 1;
        }
        None
    }

    /// Once a list is found among the first `k`, more lists do not change it.
    proof fn lemma_first_list_stays(&self, user: Seq<u8>, k: int, n: int)
        requires
            k <= n,
            first_list(self.user_deposits@, user, k) is Some,
        ensures
            first_list(self.user_deposits@, user, n) == first_list(self.user_deposits@, user, k),
        decreases n - k,
    {
        if k < n {
            self.lemma_first_list_stays(user, k + 1, n);
        }
    }

    /// Whether `deposit_id` is in `user`'s list.
    pub fn is_owner(&self, user: &[u8], deposit_id: u64) -> (owner: bool)
        ensures
            owner == self.owns(user@, deposit_id),
    {
        let i = match self.find_user_list(user) {
            None => { return false; },
            Some(i) => i,
        };
        let ids = &self.user_deposits[i].ids;
        let n = ids.len();
        let mut j: usize = 0;
        while j < n
            invariant
                n == ids@.len(),
                ids@ == self.user_deposit_ids(user@),
                j <= n,
                forall|k: int| 0 <= k < j ==> ids@[k] != deposit_id,
            decreases n - j,
        {
            if ids[j] == deposit_id {
                assert(ids@[j as int] == deposit_id);
                return true;
            }
            j = j + 1;
        }
        false
    }

    /// Identifiers of the deposits recorded for `user`, in the order they
    /// were recorded.
    pub fn get_user_deposit_ids(&self, user: &[u8]) -> (ids: UserDeposits)
        ensures
            ids.0@ == self.user_deposit_ids(user@),
    {
        let mut out: Vec<u64> = Vec::new();
        let i = match self.find_user_list(user) {
            None => { return UserDeposits(out); },
            Some(i) => i,
        };
        let ids = &self.user_deposits[i].ids;
        let n = ids.len();
        let mut j: usize = 0;
        while j < n
            invariant
                n == ids@.len(),
                j <= n,
                out@ == ids@.subrange(0, j as int),
            decreases n - j,
        {
            out.push(ids[j]);
            j = j + 1;
            assert(out@ =~= ids@.subrange(0, j as int));
        }
        assert(ids@.subrange(0, n as int) =~= ids@);
        UserDeposits(out)
    }

    /// Adds `deposit_id` at the end of `user`'s list, starting one where
    /// there is none; every other list stays as it was.
    fn append_user_deposit(&mut self, user: &[u8], deposit_id: u64)
        ensures
            final(self).lists_changed_for(old(self), user@, old(self).user_deposit_ids(user@).push(deposit_id)),
            final(self).deposits == old(self).deposits,
            final(self).episodes == old(self).episodes,
            final(self).pool_state == old(self).pool_state,
            final(self).accrual() == old(self).accrual(),
            final(self).token_id == old(self).token_id,
            final(self).executor == old(self).executor,
            final(self).pool_manager == old(self).pool_manager,
            final(self).total_cover_allocation == old(self).total_cover_allocation,
            final(self).products == old(self).products,
            final(self).allocation_cuts == old(self).allocation_cuts,
            final(self).coverages == old(self).coverages,
    {
        let ghost lists = self.user_deposits@;
        let ghost n = lists.len() as int;
        match self.find_user_list(user) {
            None => {
                let mut owner: Vec<u8> = Vec::new();
                crate::hashing::append_bytes(&mut owner, user);
                let mut ids: Vec<u64> = Vec::new();
                ids.push(deposit_id);
                self.user_deposits.push(UserDepositList { user: owner, ids });
                assert forall|u: Seq<u8>| #[trigger] self.user_deposit_ids(u) == if u == user@ {
                    old(self).user_deposit_ids(user@).push(deposit_id)
                } else {
                    old(self).user_deposit_ids(u)
                } by {
                    lemma_first_list_same_users(lists, self.user_deposits@, u, n);
                    if u == user@ {
                        assert(self.user_deposit_ids(u) =~= seq![deposit_id]);
                        assert(old(self).user_deposit_ids(user@).push(deposit_id) =~= seq![deposit_id]);
                    } else {
                        lemma_first_list_found(lists, u, n);
                        match first_list(lists, u, n) {
                            Some(k) => assert(self.user_deposits@[k] == lists[k]),
                            None => {},
                        }
                    }
                }
            },
            Some(i) => {
                proof { lemma_first_list_found(lists, user@, n); }
                let mut entry = UserDepositList { user: Vec::new(), ids: Vec::new() };
                self.user_deposits.set_and_swap(i, &mut entry);
                let ghost before = entry.ids@;
                assert(before == old(self).user_deposit_ids(user@));
                entry.ids.push(deposit_id);
                self.user_deposits.set_and_swap(i, &mut entry);
                assert forall|u: Seq<u8>| #[trigger] self.user_deposit_ids(u) == if u == user@ {
                    old(self).user_deposit_ids(user@).push(deposit_id)
                } else {
                    old(self).user_deposit_ids(u)
                } by {
                    assert forall|k: int| 0 <= k < n implies #[trigger] lists[k].user@ == self.user_deposits@[k].user@ by {
                        if k != i { assert(self.user_deposits@[k] == lists[k]); }
                    }
                    lemma_first_list_same_users(lists, self.user_deposits@, u, n);
                    lemma_first_list_found(lists, u, n);
                    match first_list(lists, u, n) {
                        Some(k) => {
                            if k != i {
                                assert(self.user_deposits@[k] == lists[k]);
                            }
                        },
                        None => {},
                    }
                }
            },
        }
    }

    /// Takes every occurrence of `deposit_id` out of `user`'s list, where
    /// there is one; every other list stays as it was.
    fn remove_user_deposit(&mut self, user: &[u8], deposit_id: u64)
        ensures
            final(self).lists_changed_for(old(self), user@, without_id(old(self).user_deposit_ids(user@), deposit_id)),
            final(self).deposits == old(self).deposits,
            final(self).episodes == old(self).episodes,
            final(self).pool_state == old(self).pool_state,
            final(self).accrual() == old(self).accrual(),
            final(self).token_id == old(self).token_id,
            final(self).executor == old(self).executor,
            final(self).pool_manager == old(self).pool_manager,
            final(self).total_cover_allocation == old(self).total_cover_allocation,
            final(self).products == old(self).products,
            final(self).allocation_cuts == old(self).allocation_cuts,
            final(self).coverages == old(self).coverages,
    {
        let ghost lists = self.user_deposits@;
        let ghost n = lists.len() as int;
        match self.find_user_list(user) {
            None => {
                assert(without_id(Seq::<u64>::empty(), deposit_id) =~= Seq::<u64>::empty());
            },
            Some(i) => {
                proof { lemma_first_list_found(lists, user@, n); }
                let mut entry = UserDepositList { user: Vec::new(), ids: Vec::new() };
                self.user_deposits.set_and_swap(i, &mut entry);
                let ghost before = entry.ids@;
                assert(before == old(self).user_deposit_ids(user@));
                let mut kept: Vec<u64> = Vec::new();
                let m = entry.ids.len();
                let mut j: usize = 0;
                while j < m
                    invariant
                        m == entry.ids@.len(),
                        entry.ids@ == before,
                        j <= m,
                        kept@ == without_id(before.subrange(0, j as int), deposit_id),
                    decreases m - j,
                {
                    let x = entry.ids[j];
                    assert(before.subrange(0, j as int + 1).drop_last() =~= before.subrange(0, j as int));
                    if x != deposit_id {
                        kept.push(x);
                    }
                    j = j + 1;
                }
                assert(before.subrange(0, m as int) =~= before);
                entry.ids = kept;
                self.user_deposits.set_and_swap(i, &mut entry);
                assert forall|u: Seq<u8>| #[trigger] self.user_deposit_ids(u) == if u == user@ {
                    without_id(old(self).user_deposit_ids(user@), deposit_id)
                } else {
                    old(self).user_deposit_ids(u)
                } by {
                    assert forall|k: int| 0 <= k < n implies #[trigger] lists[k].user@ == self.user_deposits@[k].user@ by {
                        if k != i { assert(self.user_deposits@[k] == lists[k]); }
                    }
                    lemma_first_list_same_users(lists, self.user_deposits@, u, n);
                    lemma_first_list_found(lists, u, n);
                    match first_list(lists, u, n) {
                        Some(k) => {
                            if k != i {
                                assert(self.user_deposits@[k] == lists[k]);
                            }
                        },
                        None => {},
                    }
                }
            },
        }
    }

    /// The report on deposit `id`: its episode must exist, and its amount is
    /// the value of its shares there.
    pub open spec fn deposit_info(&self, id: int) -> Option<UserDepositInfo> {
        match self.deposit(id) {
            None => None,
            Some(d) => match self.episode(d.episode as int) {
                None => None,
                Some(e) => match share_value(d.shares, e) {
                    None => None,
                    Some(amount) => Some(UserDepositInfo {
                        deposit_id: id as u64,
                        episode: d.episode,
                        shares: d.shares,
                        amount,
                    }),
                },
            },
        }
    }

    /// Reports on the deposits of `ids` that exist, in order (an identifier
    /// with no deposit is passed over); `None` if an existing one cannot be
    /// reported.
    pub open spec fn deposit_infos(&self, ids: Seq<u64>) -> Option<Seq<UserDepositInfo>>
        decreases ids.len(),
    {
        if ids.len() == 0 {
            Some(Seq::empty())
        } else {
            match self.deposit_infos(ids.drop_last()) {
                None => None,
                Some(s) => if self.deposit(ids.last() as int) is None {
                    Some(s)
                } else {
                    match self.deposit_info(ids.last() as int) {
                        None => None,
                        Some(info) => Some(s.push(info)),
                    }
                },
            }
        }
    }

    /// Reports every deposit in `user`'s list that exists, in the order of
    /// the list, with the assets it is worth. Traps when such a deposit's
    /// episode is missing or holds no shares or the arithmetic leaves `u128`.
    pub fn get_user_deposits(&self, user: &[u8]) -> (r: Result<Vec<UserDepositInfo>, Trap>)
        requires
            self.wf(),
        ensures
            match self.deposit_infos(self.user_deposit_ids(user@)) {
                None => r is Err,
                Some(infos) => r matches Ok(v) && v@ == infos,
            },
    {
        let ids = self.get_user_deposit_ids(user);
        let mut infos: Vec<UserDepositInfo> = Vec::new();
        let n = ids.0.len();
        let mut i: usize = 0;
        while i < n
            invariant
                self.wf(),
                n == ids.0@.len(),
                ids.0@ == self.user_deposit_ids(user@),
                i <= n,
                self.deposit_infos(ids.0@.subrange(0, i as int)) == Some(infos@),
            decreases n - i,
        {
            let id = ids.0[i];
            assert(ids.0@.subrange(0, i as int + 1).drop_last() =~= ids.0@.subrange(0, i as int));
            assert(ids.0@.subrange(0, i as int + 1).last() == id);
            if self.get_deposit(id).is_some() {
                let info = match self.get_deposit_info(id) {
                    None => {
                        proof { self.lemma_infos_none_propagates(ids.0@, i as int + 1); }
                        return Err(Trap);
                    },
                    Some(info) => info,
                };
                infos.push(info);
            }
            i = i + 1;
        }
        assert(ids.0@.subrange(0, n as int) =~= ids.0@);
        Ok(infos)
    }

    /// Once reporting fails on a prefix, it fails on the whole list.
    pub proof fn lemma_infos_none_propagates(&self, ids: Seq<u64>, k: int)
        requires
            0 <= k <= ids.len(),
            self.deposit_infos(ids.subrange(0, k)) is None,
        ensures
            self.deposit_infos(ids) is None,
        decreases ids.len() - k,
    {
        if k == ids.len() {
            assert(ids.subrange(0, k) =~= ids);
        } else {
            assert(ids.subrange(0, k + 1).drop_last() =~= ids.subrange(0, k));
            self.lemma_infos_none_propagates(ids, k + 1);
        }
    }

    /// Computes `deposit_info`.
    fn get_deposit_info(&self, id: u64) -> (r: Option<UserDepositInfo>)
        requires
            self.wf(),
        ensures
            r == self.deposit_info(id as int),
    {
        let d = match self.get_deposit(id) {
            None => { return None; },
            Some(d) => d,
        };
        let e = match self.get_episode(d.episode) {
            None => { return None; },
            Some(e) => e,
        };
        match share_value_exec(d.shares, e) {
            None => None,
            Some(amount) => Some(UserDepositInfo { deposit_id: id, episode: d.episode, shares: d.shares, amount }),
        }
    }

    /// The deposit with identifier `id`, if it exists.
    pub fn get_deposit(&self, id: u64) -> (d: Option<Deposit>)
        ensures
            d == self.deposit(id as int),
    {
        if id < self.deposits.len() as u64 {
            self.deposits[id as usize]
        } else {
            None
        }
    }

    /// Whether the sums that recording `deposit` (worth `assets_amount`) makes
    /// stay within `u128`: in its episode and, with `update_pool_stats`, in
    /// the pool totals.
    pub open spec fn deposit_fits(&self, deposit: Deposit, assets_amount: u128, update_pool_stats: bool) -> bool {
        let base = episode_or_empty(self.episode(deposit.episode as int));
        &&& base.episode_shares + deposit.shares <= u128::MAX
        &&& base.assets_staked + assets_amount <= u128::MAX
        &&& update_pool_stats ==> old_totals_fit(self.pool_state, deposit.shares, assets_amount)
    }

    /// `self` is `old` with `deposit` recorded under `deposit_id` and that
    /// identifier added at the end of `user`'s list: its shares and
    /// `assets_amount` join its episode (created empty when absent) and,
    /// with `update_pool_stats`, the pool totals; nothing else changes.
    pub open spec fn deposit_added(&self, old: &Pool, deposit_id: u64, deposit: Deposit, user: Seq<u8>,
        assets_amount: u128, update_pool_stats: bool) -> bool
    {
        let base = episode_or_empty(old.episode(deposit.episode as int));
        &&& self.wf()
        &&& self.deposits@.len() == if deposit_id < old.deposits@.len() {
                old.deposits@.len() as int
            } else {
                deposit_id + 1
            }
        &&& forall|k: int| #[trigger] self.deposit(k) == if k == deposit_id { Some(deposit) } else { old.deposit(k) }
        &&& self.lists_changed_for(old, user, old.user_deposit_ids(user).push(deposit_id))
        &&& forall|k: int| #[trigger] self.episode(k) == (if k == deposit.episode {
                Some(Episode {
                    episode_shares: (base.episode_shares + deposit.shares) as u128,
                    assets_staked: (base.assets_staked + assets_amount) as u128,
                    ..base
                })
            } else {
                old.episode(k)
            })
        &&& self.pool_state == (if update_pool_stats {
                PoolState {
                    total_assets: (old.pool_state.total_assets + assets_amount) as u128,
                    total_shares: (old.pool_state.total_shares + deposit.shares) as u128,
                }
            } else {
                old.pool_state
            })
        &&& self.pool_reward_rate == old.pool_reward_rate
        &&& self.accumulated_reward_per_share == old.accumulated_reward_per_share
        &&& self.last_time_updated == old.last_time_updated
        &&& self.token_id == old.token_id
        &&& self.executor == old.executor
        &&& self.pool_manager == old.pool_manager
        &&& self.total_cover_allocation == old.total_cover_allocation
        &&& self.products == old.products
        &&& self.allocation_cuts == old.allocation_cuts
        &&& self.coverages == old.coverages
    }

    /// Records `deposit` under the unused identifier `deposit_id` for
    /// `user`: the deposit itself, the identifier at the end of the user's
    /// list, its shares and `assets_amount` added to its episode (created
    /// empty when absent), and, with `update_pool_stats`, to the pool totals.
    /// Traps, changing nothing, when a sum leaves the range of `u128`.
    pub fn add_deposit(
        &mut self,
        deposit_id: u64,
        deposit: Deposit,
        user: &[u8],
        assets_amount: u128,
        update_pool_stats: bool,
    ) -> (r: Result<(), Trap>)
        requires
            old(self).wf(),
            old(self).deposit(deposit_id as int) is None,
            deposit_id + 1 < u64::MAX,
            deposit.episode <= MAX_EPISODE_INDEX,
        ensures
            r is Ok <==> old(self).deposit_fits(deposit, assets_amount, update_pool_stats),
            r is Err ==> *final(self) == *old(self),
            r is Ok ==> final(self).deposit_added(old(self), deposit_id, deposit, user@, assets_amount,
                update_pool_stats),
    {
        let base = match self.get_episode(deposit.episode) {
            Some(e) => e,
            None => new_episode(),
        };
        let episode_shares = match base.episode_shares.checked_add(deposit.shares) {
            None => { return Err(Trap); },
            Some(v) => v,
        };
        let assets_staked = match base.assets_staked.checked_add(assets_amount) {
            None => { return Err(Trap); },
            Some(v) => v,
        };
        let mut state = self.pool_state;
        if update_pool_stats {
            state.total_assets = match state.total_assets.checked_add(assets_amount) {
                None => { return Err(Trap); },
                Some(v) => v,
            };
            state.total_shares = match state.total_shares.checked_add(deposit.shares) {
                None => { return Err(Trap); },
                Some(v) => v,
            };
        }
        while (self.deposits.len() as u64) <= deposit_id
            invariant
                self.wf(),
                deposit_id + 1 < u64::MAX,
                self.deposits@.len() == old(self).deposits@.len() || self.deposits@.len() <= deposit_id + 1,
                self.deposits@.len() >= old(self).deposits@.len(),
                forall|k: int| #[trigger] self.deposit(k) == old(self).deposit(k),
                self.user_deposits == old(self).user_deposits,
                self.episodes == old(self).episodes,
                self.pool_state == old(self).pool_state,
                self.accrual() == old(self).accrual(),
                self.token_id == old(self).token_id,
                self.executor == old(self).executor,
                self.pool_manager == old(self).pool_manager,
                self.total_cover_allocation == old(self).total_cover_allocation,
                self.products == old(self).products,
                self.allocation_cuts == old(self).allocation_cuts,
                self.coverages == old(self).coverages,
            decreases deposit_id + 1 - self.deposits@.len(),
        {
            let ghost prev = *self;
            self.deposits.push(None);
            assert forall|k: int| #[trigger] self.deposit(k) == prev.deposit(k) by {
                if 0 <= k < prev.deposits@.len() {
                    assert(self.deposits@[k] == prev.deposits@[k]);
                }
            }
        }
        let ghost grown = *self;
        self.deposits.set(deposit_id as usize, Some(deposit));
        assert forall|k: int| #[trigger] self.deposit(k) == if k == deposit_id { Some(deposit) } else { old(self).deposit(k) } by {
            if k != deposit_id {
                assert(self.deposit(k) == grown.deposit(k));
            }
        }
        let ghost placed = *self;
        self.pool_state = state;
        let ghost mid = *self;
        assert(mid.deposits == placed.deposits);
        self.append_user_deposit(user, deposit_id);
        let ghost mid2 = *self;
        self.put_episode(deposit.episode, Episode { episode_shares, assets_staked, ..base });
        assert forall|k: int| #[trigger] self.episode(k) == (if k == deposit.episode {
                Some(Episode { episode_shares, assets_staked, ..base })
            } else {
                old(self).episode(k)
            }) by {
            assert(mid2.episode(k) == old(self).episode(k));
        }
        assert(self.deposits == mid.deposits);
        assert forall|k: int| #[trigger] self.deposit(k) == if k == deposit_id { Some(deposit) } else { old(self).deposit(k) } by {
            assert(self.deposit(k) == mid.deposit(k));
            assert(mid.deposit(k) == placed.deposit(k));
        }
        assert forall|u: Seq<u8>| #[trigger] self.user_deposit_ids(u) == mid2.user_deposit_ids(u) by {}
        Ok(())
    }

    /// First part of a stake into `episode_id` at clock reading `now_ns`:
    /// brings the pool up to date, then accepts only an active, stakable episode.
    pub fn deposit_begin(&mut self, now_ns: u64, episode_id: u64) -> (r: Result<Result<(), PoolError>, Trap>)
        requires
            old(self).wf(),
            seconds_of(now_ns) >= old(self).last_time_updated,
        ensures
            final(self).wf(),
            r is Err <==> old(self).settled(seconds_of(now_ns)) is None,
            r is Err ==> *final(self) == *old(self),
            r is Ok ==> final(self).is_settled_from(old(self), seconds_of(now_ns)),
            r is Ok ==> r.unwrap() == (
                if !episode_active(episode_id as int, episode_at(now_ns)) {
                    Err::<(), PoolError>(PoolError::EpisodeNotActive)
                } else if !episode_stakable(episode_id as int) {
                    Err::<(), PoolError>(PoolError::EpisodeNotStakable)
                } else {
                    Ok::<(), PoolError>(())
                }),
    {
        match self.process_episodes(now_ns) {
            Err(t) => { return Err(t); },
            Ok(()) => {},
        }
        if !is_episode_active(episode_id, now_ns) {
            return Ok(Err(PoolError::EpisodeNotActive));
        }
        if !is_episode_stakable(episode_id) {
            return Ok(Err(PoolError::EpisodeNotStakable));
        }
        Ok(Ok(()))
    }

    /// Last part of a stake of `balance` (the subaccount balance swept into
    /// the pool) into `episode_id` by `user`: the net amount
    /// `balance - TRANSFER_FEE` buys shares at the pool's current price,
    /// rounded down, so assets per share never fall, and the deposit is
    /// recorded under the next identifier, which is returned.
    /// Traps, changing nothing, when the balance does not cover the fee or
    /// the arithmetic fails.
    pub fn deposit_finish(&mut self, user: &[u8], episode_id: u64, balance: u128) -> (r: Result<u64, Trap>)
        requires
            old(self).wf(),
            old(self).deposits@.len() + 1 < u64::MAX,
            episode_id <= MAX_EPISODE_INDEX,
        ensures
            ({
                let amount = (balance - TRANSFER_FEE) as u128;
                let shares = shares_for(old(self).pool_state, amount);
                let d = Deposit {
                    episode: episode_id,
                    shares: shares.unwrap(),
                    reward_per_share: old(self).accumulated_reward_per_share,
                    rewards_collected: 0,
                };
                &&& r is Ok <==> (balance >= TRANSFER_FEE && shares is Some
                    && old(self).deposit_fits(d, amount, true))
                &&& r is Err ==> *final(self) == *old(self)
                &&& r matches Ok(id) ==> id == old(self).deposits@.len()
                    && final(self).deposit_added(old(self), id, d, user@, amount, true)
            }),
            r is Ok && old(self).pool_state.total_assets > 0 && old(self).pool_state.total_shares > 0
                ==> final(self).pool_state.total_shares * old(self).pool_state.total_assets
                    <= old(self).pool_state.total_shares * final(self).pool_state.total_assets,
    {
        if balance < TRANSFER_FEE {
            return Err(Trap);
        }
        let transfer_amount = balance - TRANSFER_FEE;
        let new_shares = match shares_for_exec(self.pool_state, transfer_amount) {
            None => { return Err(Trap); },
            Some(s) => s,
        };
        let deposit_id = self.deposits.len() as u64;
        let deposit = Deposit {
            episode: episode_id,
            shares: new_shares,
            reward_per_share: self.accumulated_reward_per_share,
            rewards_collected: 0,
        };
        proof {
            if self.pool_state.total_assets > 0 && self.pool_state.total_shares > 0 {
                crate::laws::lemma_deposit_does_not_dilute(self.pool_state, transfer_amount);
            }
        }
        let r = self.add_deposit(deposit_id, deposit, user, transfer_amount, true);
        match r {
            Err(t) => Err(t),
            Ok(()) => Ok(deposit_id),
        }
    }
}

impl Pool {
    /// The decision on a withdrawal of `deposit_id` by `caller`, taken on the
    /// settled pool `p` at current episode `current`: the deposit must exist,
    /// belong to the caller and its episode must have ended. Then its pending
    /// rewards are collected (recorded in the deposit) and the plan pays the
    /// value of its shares plus those rewards. `None` where the arithmetic fails.
    pub open spec fn withdrawal_decision(&self, caller: Seq<u8>, deposit_id: u64, current: int)
        -> Option<Result<WithdrawalPlan, PoolError>>
    {
        match self.deposit(deposit_id as int) {
            None => Some(Err(PoolError::NoDeposit)),
            Some(d) => {
                if !self.owns(caller, deposit_id) {
                    Some(Err(PoolError::NotOwner))
                } else if d.episode >= current {
                    Some(Err(PoolError::TimelockNotExpired))
                } else {
                    match collect_rewards(self.deposits@, self.accumulated_reward_per_share, seq![deposit_id], true) {
                        None => None,
                        Some((pending, _)) => match self.episode(d.episode as int) {
                            None => Some(Err(PoolError::NoDeposit)),
                            Some(e) => match share_value(d.shares, e) {
                                None => None,
                                Some(w) => {
                                    if w + pending > u128::MAX {
                                        None
                                    } else {
                                        Some(Ok(WithdrawalPlan {
                                            deposit: d,
                                            withdrawal_amount: w,
                                            total_transfer_amount: (w + pending) as u128,
                                        }))
                                    }
                                },
                            },
                        },
                    }
                }
            },
        }
    }

    /// First part of withdrawing `deposit_id` for `caller` at clock reading
    /// `now_ns`: brings the pool up to date and takes the decision described
    /// by `withdrawal_decision`. When the deposit passes the checks its
    /// pending rewards are recorded as collected, also when the episode
    /// turns out to be missing. Traps when the arithmetic fails, leaving the
    /// pool brought up to date and nothing else changed.
    pub fn withdraw_begin(&mut self, now_ns: u64, caller: &[u8], deposit_id: u64)
        -> (r: Result<Result<WithdrawalPlan, PoolError>, Trap>)
        requires
            old(self).wf(),
            seconds_of(now_ns) >= old(self).last_time_updated,
        ensures
            old(self).settled(seconds_of(now_ns)) is None ==> r is Err && *final(self) == *old(self),
            r is Err && old(self).settled(seconds_of(now_ns)) is Some
                ==> final(self).is_settled_from(old(self), seconds_of(now_ns)),
            r is Err ==> old(self).settled(seconds_of(now_ns)) is None
                || forall|p: Pool| #[trigger] p.is_settled_from(old(self), seconds_of(now_ns))
                    ==> p.withdrawal_decision(caller@, deposit_id, episode_at(now_ns)) is None,
            r matches Ok(decision) ==> exists|p: Pool| {
                &&& #[trigger] p.is_settled_from(old(self), seconds_of(now_ns))
                &&& p.wf()
                &&& p.withdrawal_decision(caller@, deposit_id, episode_at(now_ns)) == Some(decision)
                &&& final(self).wf()
                &&& final(self).only_deposits_changed(&p)
                &&& (if p.deposit(deposit_id as int) is Some && p.owns(caller@, deposit_id)
                        && p.deposit(deposit_id as int).unwrap().episode < episode_at(now_ns) {
                        final(self).deposits@ == collect_rewards(p.deposits@, p.accumulated_reward_per_share,
                            seq![deposit_id], true).unwrap().1
                    } else {
                        final(self).deposits == p.deposits
                    })
            },
    {
        match self.process_episodes(now_ns) {
            Err(t) => { return Err(t); },
            Ok(()) => {},
        }
        let ghost p = *self;
        let current_episode = get_current_episode(now_ns);
        let deposit = match self.get_deposit(deposit_id) {
            None => { return Ok(Err(PoolError::NoDeposit)); },
            Some(d) => d,
        };
        if !self.is_owner(caller, deposit_id) {
            return Ok(Err(PoolError::NotOwner));
        }
        if deposit.episode >= current_episode {
            return Ok(Err(PoolError::TimelockNotExpired));
        }
        let mut ids: Vec<u64> = Vec::new();
        ids.push(deposit_id);
        assert(ids@ =~= seq![deposit_id]);
        proof {
            reveal_with_fuel(collect_rewards, 2);
        }
        let pending_rewards = match self.get_deposits_rewards(&ids) {
            Err(t) => { return Err(t); },
            Ok(v) => v,
        };
        let episode_data = match self.get_episode(deposit.episode) {
            None => {
                let _ = self.collect_deposit_rewards(&ids, true);
                return Ok(Err(PoolError::NoDeposit));
            },
            Some(e) => e,
        };
        let withdrawal_amount = match share_value_exec(deposit.shares, episode_data) {
            None => { return Err(Trap); },
            Some(w) => w,
        };
        let total_transfer_amount = match withdrawal_amount.checked_add(pending_rewards) {
            None => { return Err(Trap); },
            Some(t) => t,
        };
        let _ = self.collect_deposit_rewards(&ids, true);
        Ok(Ok(WithdrawalPlan { deposit, withdrawal_amount, total_transfer_amount }))
    }

    /// `self` is `old` once the withdrawal `plan` of `deposit_id` by
    /// `caller` completed: the deposit is gone, and so is its identifier
    /// from the caller's list; its shares and withdrawn assets left its
    /// episode, which is gone when no shares remain; nothing else changes.
    pub open spec fn is_withdrawn_from(&self, old: &Pool, caller: Seq<u8>, deposit_id: u64, plan: WithdrawalPlan)
        -> bool
    {
        let ep = plan.deposit.episode as int;
        &&& self.wf()
        &&& self.deposits@ == old.deposits@.update(deposit_id as int, None)
        &&& self.lists_changed_for(old, caller, without_id(old.user_deposit_ids(caller), deposit_id))
        &&& forall|k: int| k != ep ==> #[trigger] self.episode(k) == old.episode(k)
        &&& self.episode(ep) == match old.episode(ep) {
                None => None,
                Some(e) => if e.episode_shares == plan.deposit.shares {
                    None
                } else {
                    Some(Episode {
                        episode_shares: (e.episode_shares - plan.deposit.shares) as u128,
                        assets_staked: (e.assets_staked - plan.withdrawal_amount) as u128,
                        ..e
                    })
                },
            }
        &&& self.accrual() == old.accrual()
        &&& self.products == old.products
        &&& self.coverages == old.coverages
        &&& self.allocation_cuts == old.allocation_cuts
        &&& self.total_cover_allocation == old.total_cover_allocation
    }

    /// Last part of a withdrawal by `caller`, once the transfer went
    /// through: the deposit is deleted and its identifier taken out of the
    /// caller's list, and its shares and withdrawn assets leave its
    /// episode, which is deleted when no shares remain in it. Traps, changing
    /// nothing, when the episode holds fewer shares or assets than are taken
    /// out.
    pub fn withdraw_finish(&mut self, caller: &[u8], deposit_id: u64, plan: WithdrawalPlan) -> (r: Result<(), Trap>)
        requires
            old(self).wf(),
            deposit_id < old(self).deposits@.len(),
            plan.deposit.episode <= MAX_EPISODE_INDEX,
        ensures
            ({
                let ep = plan.deposit.episode as int;
                match old(self).episode(ep) {
                    None => r is Ok,
                    Some(e) => r is Ok <==> (e.episode_shares >= plan.deposit.shares
                        && e.assets_staked >= plan.withdrawal_amount),
                }
            }),
            r is Err ==> *final(self) == *old(self),
            r is Ok ==> final(self).is_withdrawn_from(old(self), caller@, deposit_id, plan),
            r is Ok ==> match old(self).episode(plan.deposit.episode as int) {
                Some(e) => e.episode_shares != plan.deposit.shares ==> ({
                    let f = final(self).episode(plan.deposit.episode as int);
                    &&& f is Some
                    &&& f.unwrap().assets_staked + plan.withdrawal_amount == e.assets_staked
                    &&& f.unwrap().episode_shares + plan.deposit.shares == e.episode_shares
                }),
                None => true,
            },
    {
        let ep = plan.deposit.episode;
        let updated = match self.get_episode(ep) {
            None => None,
            Some(e) => {
                if e.episode_shares < plan.deposit.shares || e.assets_staked < plan.withdrawal_amount {
                    return Err(Trap);
                }
                Some(Episode {
                    episode_shares: e.episode_shares - plan.deposit.shares,
                    assets_staked: e.assets_staked - plan.withdrawal_amount,
                    ..e
                })
            },
        };
        assert(deposit_id < self.deposits.len());
        let idx: usize = deposit_id as usize;
        assert(idx as int == deposit_id as int);
        self.deposits.set(idx, None);
        self.remove_user_deposit(caller, deposit_id);
        let ghost mid = *self;
        match updated {
            None => {},
            Some(e) => {
                if e.episode_shares == 0 {
                    self.episodes.set(ep as usize, None);
                    assert forall|k: int| k != ep implies #[trigger] self.episode(k) == old(self).episode(k) by {
                        assert(mid.episode(k) == old(self).episode(k));
                    }
                } else {
                    self.put_episode(ep, e);
                    assert forall|k: int| k != ep implies #[trigger] self.episode(k) == old(self).episode(k) by {
                        assert(mid.episode(k) == old(self).episode(k));
                    }
                }
            },
        }
        assert forall|u: Seq<u8>| #[trigger] self.user_deposit_ids(u) == mid.user_deposit_ids(u) by {}
        Ok(())
    }
}

/// Whether a swept balance is large enough to be staked.
pub fn check_deposit_balance(balance: u128) -> (r: Result<(), PoolError>)
    ensures
        r == (if balance <= MINIMUM_DEPOSIT_AMOUNT {
            Err::<(), PoolError>(PoolError::InsufficientBalance)
        } else {
            Ok::<(), PoolError>(())
        }),
{
    if balance <= MINIMUM_DEPOSIT_AMOUNT {
        Err(PoolError::InsufficientBalance)
    } else {
        Ok(())
    }
}

} // verus!
