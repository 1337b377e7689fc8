//! The staking engine: pool registry, settlement, and the deposit, withdraw
//! and harvest entry points.
//!
//! Every entry point receives what the execution environment knows — the
//! authenticated caller, the current logical time, and the staked supply the
//! ledger reports for the pool's token — as plain values, and returns either
//! the engine's answer or an error. An error leaves the state untouched:
//! operations are all-or-nothing.

use vstd::prelude::*;
use vstd::std_specs::vec::vec_index_mut;

use crate::pool::lemma_settled_acc_monotonic;
use crate::pool::lemma_sum_alloc_ge_element;
use crate::pool::lemma_sum_alloc_push;
use crate::pool::lemma_sum_alloc_update;
use crate::pool::pool_reward;
use crate::pool::settle_fault;
use crate::pool::settled_acc;
use crate::pool::settled_pool;
use crate::pool::sum_alloc;
use crate::pool::PoolInfo;
use crate::positions::deposit_fault;
use crate::positions::deposited_position;
use crate::positions::gross_reward;
use crate::positions::harvest_fault;
use crate::positions::harvested_position;
use crate::positions::lemma_position_of_absent;
use crate::positions::lemma_position_of_found;
use crate::positions::lemma_store_set_is_push;
use crate::positions::lemma_store_set_is_update;
use crate::positions::pending_amount;
use crate::positions::position_of;
use crate::positions::store_set;
use crate::positions::withdraw_fault;
use crate::positions::withdrawn_position;
use crate::positions::UserInfo;
use crate::positions::UserPoolPair;
use crate::StakingError;
use crate::Transfer;
use crate::ACC_REWARD_PRECISION;

verus! {

/// The engine's whole state: the pool registry, the token each pool stakes,
/// every user position, and the global emission parameters.
pub struct MasterChef {
    admin: u64,
    reward_token: u64,
    reward_per_block: u128,
    total_alloc_point: u128,
    pools: Vec<PoolInfo>,
    want_tokens: Vec<u64>,
    positions: Vec<(UserPoolPair, UserInfo)>,
}

/// The mathematical model of the engine state, over which the contracts and
/// the laws are stated.
#[verifier::ext_equal]
pub struct ChefState {
    pub admin: u64,
    pub reward_token: u64,
    pub reward_per_block: u128,
    pub total_alloc_point: u128,
    pub pools: Seq<PoolInfo>,
    pub want_tokens: Seq<u64>,
    pub positions: Seq<(UserPoolPair, UserInfo)>,
}

impl View for MasterChef {
    type V = ChefState;

    closed spec fn view(&self) -> ChefState {
        ChefState {
            admin: self.admin,
            reward_token: self.reward_token,
            reward_per_block: self.reward_per_block,
            total_alloc_point: self.total_alloc_point,
            pools: self.pools@,
            want_tokens: self.want_tokens@,
            positions: self.positions@,
        }
    }
}

impl ChefState {
    /// Pool ids are sequential from 1, in order of creation, and never
    /// reused.
    pub open spec fn valid_pool(self, pool_id: usize) -> bool {
        1 <= pool_id <= self.pools.len()
    }

    /// The pool registered under `pool_id`.
    pub open spec fn pool(self, pool_id: usize) -> PoolInfo {
        self.pools[pool_id - 1]
    }

    /// The staking token of the pool registered under `pool_id`.
    pub open spec fn token(self, pool_id: usize) -> u64 {
        self.want_tokens[pool_id - 1]
    }

    /// The position of `user` in pool `pool_id`; empty when the user never
    /// deposited there.
    pub open spec fn position(self, user: u64, pool_id: usize) -> UserInfo {
        position_of(self.positions, UserPoolPair { address: user, pool_id })
    }

    /// Well-formedness: each pool has its staking token, and the recorded
    /// total weight equals the exact sum of all pools' weights (weight
    /// consistency). Every constructor establishes it and every operation
    /// preserves it.
    pub open spec fn wf(self) -> bool {
        &&& self.pools.len() == self.want_tokens.len()
        &&& self.total_alloc_point == sum_alloc(self.pools)
    }

    /// The accumulator pool `pool_id` reaches when settled at `now` against
    /// staked supply `supply`.
    pub open spec fn settled_acc_of(self, pool_id: usize, now: u64, supply: u128) -> int {
        settled_acc(self.pool(pool_id), now, self.reward_per_block, self.total_alloc_point, supply)
    }

    /// Settling `pool_id` at `now` stays within the fixed-width arithmetic.
    pub open spec fn settle_ok(self, pool_id: usize, now: u64, supply: u128) -> bool {
        &&& self.valid_pool(pool_id)
        &&& !settle_fault(self.pool(pool_id), now, self.reward_per_block, self.total_alloc_point, supply)
    }

    /// The state after pool `pool_id` is settled at `now`.
    pub open spec fn settled(self, pool_id: usize, now: u64, supply: u128) -> ChefState {
        ChefState {
            pools: self.pools.update(
                pool_id - 1,
                settled_pool(self.pool(pool_id), now, self.reward_per_block, self.total_alloc_point, supply),
            ),
            ..self
        }
    }

    /// The state with the position of `user` in `pool_id` replaced.
    pub open spec fn with_position(self, user: u64, pool_id: usize, u: UserInfo) -> ChefState {
        ChefState {
            positions: store_set(self.positions, UserPoolPair { address: user, pool_id }, u),
            ..self
        }
    }

    /// The state after a new pool staking `want` with weight `alloc_point`
    /// is registered at time `now`.
    pub open spec fn pool_added(self, want: u64, alloc_point: u128, now: u64) -> ChefState {
        ChefState {
            pools: self.pools.push(
                PoolInfo { acc_reward_per_share: 0, last_reward_time: now, alloc_point },
            ),
            want_tokens: self.want_tokens.push(want),
            total_alloc_point: (self.total_alloc_point + alloc_point) as u128,
            ..self
        }
    }

    /// The state after pool `pool_id`'s weight is replaced by `alloc_point`,
    /// with the total weight adjusted by the difference.
    pub open spec fn alloc_set(self, pool_id: usize, alloc_point: u128) -> ChefState {
        ChefState {
            pools: self.pools.update(
                pool_id - 1,
                PoolInfo { alloc_point, ..self.pool(pool_id) },
            ),
            total_alloc_point: (self.total_alloc_point - self.pool(pool_id).alloc_point
                + alloc_point) as u128,
            ..self
        }
    }

    /// The pending reward of `user` in `pool_id` at time `now`: what a
    /// harvest would pay after settlement against supply `supply`.
    pub open spec fn pending(self, user: u64, pool_id: usize, now: u64, supply: u128) -> int {
        pending_amount(self.position(user, pool_id), self.settled_acc_of(pool_id, now, supply))
    }

    /// A deposit by `user` of `amount` units of `token` succeeds: the pool
    /// exists, the token is the pool's staking token, and both the
    /// settlement and the debt arithmetic stay in range.
    pub open spec fn deposit_ok(self, user: u64, pool_id: usize, token: u64, amount: u128, now: u64, supply: u128) -> bool {
        &&& self.valid_pool(pool_id)
        &&& token == self.token(pool_id)
        &&& self.settle_ok(pool_id, now, supply)
        &&& !deposit_fault(
            self.position(user, pool_id),
            amount,
            self.settled_acc_of(pool_id, now, supply) as u128,
        )
    }

    /// The state after `user` deposits `amount` into `pool_id` at `now`.
    pub open spec fn deposited(self, user: u64, pool_id: usize, amount: u128, now: u64, supply: u128) -> ChefState {
        let s = self.settled(pool_id, now, supply);
        s.with_position(
            user,
            pool_id,
            deposited_position(self.position(user, pool_id), amount, s.pool(pool_id).acc_reward_per_share),
        )
    }

    /// A withdrawal by `user` of `amount` from `pool_id` succeeds: the pool
    /// exists, the stake covers the amount, and the arithmetic stays in
    /// range.
    pub open spec fn withdraw_ok(self, user: u64, pool_id: usize, amount: u128, now: u64, supply: u128) -> bool {
        &&& self.valid_pool(pool_id)
        &&& self.settle_ok(pool_id, now, supply)
        &&& amount <= self.position(user, pool_id).amount
        &&& !withdraw_fault(
            self.position(user, pool_id),
            amount,
            self.settled_acc_of(pool_id, now, supply) as u128,
        )
    }

    /// The state after `user` withdraws `amount` from `pool_id` at `now`.
    pub open spec fn withdrawn(self, user: u64, pool_id: usize, amount: u128, now: u64, supply: u128) -> ChefState {
        let s = self.settled(pool_id, now, supply);
        s.with_position(
            user,
            pool_id,
            withdrawn_position(self.position(user, pool_id), amount, s.pool(pool_id).acc_reward_per_share),
        )
    }

    /// A harvest by `user` in `pool_id` succeeds: the pool exists, the
    /// arithmetic stays in range, and the pending reward is not negative.
    pub open spec fn harvest_ok(self, user: u64, pool_id: usize, now: u64, supply: u128) -> bool {
        &&& self.valid_pool(pool_id)
        &&& self.settle_ok(pool_id, now, supply)
        &&& !harvest_fault(
            self.position(user, pool_id),
            self.settled_acc_of(pool_id, now, supply) as u128,
        )
    }

    /// The state after `user` harvests `pool_id` at `now`: the pool settled
    /// and the whole accrual to date priced into the user's debt.
    pub open spec fn harvested(self, user: u64, pool_id: usize, now: u64, supply: u128) -> ChefState {
        let s = self.settled(pool_id, now, supply);
        s.with_position(
            user,
            pool_id,
            harvested_position(self.position(user, pool_id), s.pool(pool_id).acc_reward_per_share),
        )
    }
}

impl MasterChef {
    /// A fresh engine distributing `reward_token`, administered by `admin`.
    /// No pools, no positions, emission rate zero.
    pub fn init(admin: u64, reward_token: u64) -> (r: MasterChef)
        ensures
            r@.wf(),
            r@.admin == admin,
            r@.reward_token == reward_token,
            r@.reward_per_block == 0,
            r@.total_alloc_point == 0,
            r@.pools == Seq::<PoolInfo>::empty(),
            r@.want_tokens == Seq::<u64>::empty(),
            r@.positions == Seq::<(UserPoolPair, UserInfo)>::empty(),
    {
        let r = MasterChef {
            admin,
            reward_token,
            reward_per_block: 0,
            total_alloc_point: 0,
            pools: Vec::new(),
            want_tokens: Vec::new(),
            positions: Vec::new(),
        };
        proof {
            assert(r@.pools =~= Seq::<PoolInfo>::empty());
            assert(r@.want_tokens =~= Seq::<u64>::empty());
            assert(r@.positions =~= Seq::<(UserPoolPair, UserInfo)>::empty());
        }
        r
    }

    /// The administrator's address.
    pub fn admin(&self) -> (r: u64)
        ensures
            r == self@.admin,
    {
        self.admin
    }

    /// The token distributed as reward.
    pub fn reward_token(&self) -> (r: u64)
        ensures
            r == self@.reward_token,
    {
        self.reward_token
    }

    /// Reward units emitted per unit of logical time, shared by all pools.
    pub fn reward_per_block(&self) -> (r: u128)
        ensures
            r == self@.reward_per_block,
    {
        self.reward_per_block
    }

    /// The recorded sum of all pools' weights.
    pub fn total_alloc_point(&self) -> (r: u128)
        ensures
            r == self@.total_alloc_point,
    {
        self.total_alloc_point
    }

    /// How many pools have been registered.
    pub fn pool_count(&self) -> (r: usize)
        ensures
            r == self@.pools.len(),
    {
        self.pools.len()
    }

    /// The staking tokens of all pools, in order of creation.
    pub fn want_tokens(&self) -> (r: &Vec<u64>)
        ensures
            r@ == self@.want_tokens,
    {
        &self.want_tokens
    }

    /// The pool registered under `pool_id`.
    pub fn pool_info(&self, pool_id: usize) -> (r: Result<PoolInfo, StakingError>)
        ensures
            match r {
                Ok(p) => self@.valid_pool(pool_id) && p == self@.pool(pool_id),
                Err(StakingError::UnknownPool) => !self@.valid_pool(pool_id),
                Err(_) => false,
            },
    {
        if 1 <= pool_id && pool_id <= self.pools.len() {
            Ok(self.pools[pool_id - 1])
        } else {
            Err(StakingError::UnknownPool)
        }
    }

    /// The staking token of the pool registered under `pool_id`.
    pub fn want_token(&self, pool_id: usize) -> (r: Result<u64, StakingError>)
        requires
            self@.wf(),
        ensures
            match r {
                Ok(t) => self@.valid_pool(pool_id) && t == self@.token(pool_id),
                Err(StakingError::UnknownPool) => !self@.valid_pool(pool_id),
                Err(_) => false,
            },
    {
        if 1 <= pool_id && pool_id <= self.want_tokens.len() {
            Ok(self.want_tokens[pool_id - 1])
        } else {
            Err(StakingError::UnknownPool)
        }
    }

    /// The position stored for `user`; the empty position when the account
    /// never deposited in that pool.
    pub fn user_info(&self, user: &UserPoolPair) -> (r: UserInfo)
        ensures
            r == position_of(self@.positions, *user),
    {
        let n = self.positions.len();
        let mut i: usize = 0;
        while i < n
            invariant
                n == self.positions.len(),
                0 <= i <= n,
                forall|j: int| 0 <= j < i ==> self.positions@[j].0 != *user,
            decreases n - i,
        {
            if self.positions[i].0 == *user {
                proof {
                    lemma_position_of_found(self.positions@, i as int);
                }
                return self.positions[i].1;
            }
            i += 1;
        }
        proof {
            lemma_position_of_absent(self.positions@, *user);
        }
        UserInfo::default()
    }

    /// Store `value` as the position under `key`, replacing the entry that
    /// holds the key or appending a new one.
    fn store_position(&mut self, key: UserPoolPair, value: UserInfo)
        ensures
            final(self)@ == (ChefState {
                positions: store_set(old(self)@.positions, key, value),
                ..old(self)@
            }),
    {
        let n = self.positions.len();
        let mut i: usize = 0;
        while i < n
            invariant
                n == self.positions.len(),
                0 <= i <= n,
                *self == *old(self),
                forall|j: int| 0 <= j < i ==> self.positions@[j].0 != key,
            decreases n - i,
        {
            if self.positions[i].0 == key {
                proof {
                    lemma_store_set_is_update(self.positions@, i as int, value);
                }
                let slot = vec_index_mut(&mut self.positions, i);
                *slot = (key, value);
                proof {
                    assert(final(self)@ =~= (ChefState {
                        positions: store_set(old(self)@.positions, key, value),
                        ..old(self)@
                    }));
                }
                return;
            }
            i += 1;
        }
        proof {
            lemma_store_set_is_push(self.positions@, key, value);
        }
        self.positions.push((key, value));
        proof {
            assert(final(self)@ =~= (ChefState {
                positions: store_set(old(self)@.positions, key, value),
                ..old(self)@
            }));
        }
    }

    /// Compute, without committing it, the pool record settlement would
    /// leave for `pool_id` at time `now` against staked supply
    /// `staked_supply`.
    fn settle_calc(&self, pool_id: usize, now: u64, staked_supply: u128) -> (r: Result<PoolInfo, StakingError>)
        requires
            self@.valid_pool(pool_id),
        ensures
            match r {
                Ok(p) => self@.settle_ok(pool_id, now, staked_supply)
                    && p == settled_pool(
                        self@.pool(pool_id),
                        now,
                        self@.reward_per_block,
                        self@.total_alloc_point,
                        staked_supply,
                    ),
                Err(StakingError::ArithmeticFault) => !self@.settle_ok(pool_id, now, staked_supply),
                Err(_) => false,
            },
    {
        let p = self.pools[pool_id - 1];
        if now <= p.last_reward_time {
            return Ok(p);
        }
        if staked_supply == 0 {
            return Ok(PoolInfo {
                acc_reward_per_share: p.acc_reward_per_share,
                last_reward_time: now,
                alloc_point: p.alloc_point,
            });
        }
        if self.total_alloc_point == 0 {
            return Err(StakingError::ArithmeticFault);
        }
        let elapsed = (now - p.last_reward_time) as u128;
        let t1 = match elapsed.checked_mul(self.reward_per_block) {
            Some(v) => v,
            None => {
                return Err(StakingError::ArithmeticFault);
            },
        };
        let t2 = match t1.checked_mul(p.alloc_point) {
            Some(v) => v,
            None => {
                return Err(StakingError::ArithmeticFault);
            },
        };
        let reward = t2 / self.total_alloc_point;
        assert(reward == pool_reward(
            now - p.last_reward_time,
            self@.reward_per_block as int,
            p.alloc_point as int,
            self@.total_alloc_point as int,
        ));
        let t3 = match reward.checked_mul(ACC_REWARD_PRECISION) {
            Some(v) => v,
            None => {
                return Err(StakingError::ArithmeticFault);
            },
        };
        let increment = t3 / staked_supply;
        let acc = match p.acc_reward_per_share.checked_add(increment) {
            Some(v) => v,
            None => {
                return Err(StakingError::ArithmeticFault);
            },
        };
        assert(acc == settled_acc(p, now, self@.reward_per_block, self@.total_alloc_point, staked_supply));
        Ok(PoolInfo { acc_reward_per_share: acc, last_reward_time: now, alloc_point: p.alloc_point })
    }

    /// Settle pool `pool_id` at time `now` against the staked supply the
    /// ledger reports: advance the accumulator by the emission of the
    /// elapsed time, weighted by the pool's share, spread per staked unit.
    /// Nothing staked leaves the accumulator unchanged; no elapsed time
    /// changes nothing at all. The accumulator never decreases.
    pub fn update_pool(&mut self, pool_id: usize, now: u64, staked_supply: u128) -> (r: Result<(), StakingError>)
        requires
            old(self)@.wf(),
        ensures
            final(self)@.wf(),
            final(self)@.positions == old(self)@.positions,
            (match r {
                Ok(()) => old(self)@.settle_ok(pool_id, now, staked_supply)
                    && final(self)@ == old(self)@.settled(pool_id, now, staked_supply),
                Err(StakingError::UnknownPool) => !old(self)@.valid_pool(pool_id)
                    && final(self)@ == old(self)@,
                Err(StakingError::ArithmeticFault) => old(self)@.valid_pool(pool_id)
                    && !old(self)@.settle_ok(pool_id, now, staked_supply)
                    && final(self)@ == old(self)@,
                Err(_) => false,
            }),
            forall|pid: usize| old(self)@.valid_pool(pid)
                ==> final(self)@.pool(pid).acc_reward_per_share
                    >= old(self)@.pool(pid).acc_reward_per_share,
    {
        if !(1 <= pool_id && pool_id <= self.pools.len()) {
            return Err(StakingError::UnknownPool);
        }
        let np = match self.settle_calc(pool_id, now, staked_supply) {
            Ok(p) => p,
            Err(e) => {
                return Err(e);
            },
        };
        proof {
            self.lemma_settle_wf(pool_id, now, staked_supply);
        }
        let slot = vec_index_mut(&mut self.pools, pool_id - 1);
        *slot = np;
        proof {
            assert(final(self)@ =~= old(self)@.settled(pool_id, now, staked_supply));
        }
        Ok(())
    }

    /// Register a new pool staking the token `want`, with weight
    /// `alloc_point`, at time `now`. Administrator only. The pool gets the
    /// next sequential id, a zero accumulator, and `now` as its settlement
    /// time; the total weight grows by `alloc_point`. Registering the same
    /// staking token twice is not rejected here: the ledger's supply
    /// queries would become ambiguous, so callers must not do it.
    pub fn add(&mut self, caller: u64, now: u64, want: u64, alloc_point: u128) -> (r: Result<usize, StakingError>)
        requires
            old(self)@.wf(),
        ensures
            final(self)@.wf(),
            (match r {
                Ok(pool_id) => caller == old(self)@.admin
                    && old(self)@.total_alloc_point + alloc_point <= u128::MAX
                    && pool_id == old(self)@.pools.len() + 1
                    && final(self)@ == old(self)@.pool_added(want, alloc_point, now),
                Err(StakingError::Unauthorized) => caller != old(self)@.admin
                    && final(self)@ == old(self)@,
                Err(StakingError::ArithmeticFault) => caller == old(self)@.admin
                    && old(self)@.total_alloc_point + alloc_point > u128::MAX
                    && final(self)@ == old(self)@,
                Err(_) => false,
            }),
    {
        if caller != self.admin {
            return Err(StakingError::Unauthorized);
        }
        let new_total = match self.total_alloc_point.checked_add(alloc_point) {
            Some(v) => v,
            None => {
                return Err(StakingError::ArithmeticFault);
            },
        };
        proof {
            lemma_sum_alloc_push(
                self@.pools,
                PoolInfo { acc_reward_per_share: 0, last_reward_time: now, alloc_point },
            );
        }
        self.pools.push(PoolInfo { acc_reward_per_share: 0, last_reward_time: now, alloc_point });
        self.want_tokens.push(want);
        self.total_alloc_point = new_total;
        let pool_id = self.pools.len();
        proof {
            assert(final(self)@ =~= old(self)@.pool_added(want, alloc_point, now));
        }
        Ok(pool_id)
    }

    /// Replace the weight of pool `pool_id` by `alloc_point`. Administrator
    /// only. The total weight is adjusted by the difference in the same
    /// operation, so weight consistency is kept. The pool is not settled
    /// here: an administrator who wants exact attribution across the change
    /// settles the active pools first.
    pub fn set(&mut self, caller: u64, pool_id: usize, alloc_point: u128) -> (r: Result<(), StakingError>)
        requires
            old(self)@.wf(),
        ensures
            final(self)@.wf(),
            (match r {
                Ok(()) => caller == old(self)@.admin
                    && old(self)@.valid_pool(pool_id)
                    && old(self)@.total_alloc_point - old(self)@.pool(pool_id).alloc_point
                        + alloc_point <= u128::MAX
                    && final(self)@ == old(self)@.alloc_set(pool_id, alloc_point),
                Err(StakingError::Unauthorized) => caller != old(self)@.admin
                    && final(self)@ == old(self)@,
                Err(StakingError::UnknownPool) => caller == old(self)@.admin
                    && !old(self)@.valid_pool(pool_id)
                    && final(self)@ == old(self)@,
                Err(StakingError::ArithmeticFault) => caller == old(self)@.admin
                    && old(self)@.valid_pool(pool_id)
                    && old(self)@.total_alloc_point - old(self)@.pool(pool_id).alloc_point
                        + alloc_point > u128::MAX
                    && final(self)@ == old(self)@,
                Err(_) => false,
            }),
    {
        if caller != self.admin {
            return Err(StakingError::Unauthorized);
        }
        if !(1 <= pool_id && pool_id <= self.pools.len()) {
            return Err(StakingError::UnknownPool);
        }
        let current = self.pools[pool_id - 1];
        proof {
            lemma_sum_alloc_ge_element(self@.pools, pool_id - 1);
        }
        let reduced = self.total_alloc_point - current.alloc_point;
        let new_total = match reduced.checked_add(alloc_point) {
            Some(v) => v,
            None => {
                return Err(StakingError::ArithmeticFault);
            },
        };
        proof {
            lemma_sum_alloc_update(
                self@.pools,
                pool_id - 1,
                PoolInfo { alloc_point, ..current },
            );
        }
        let slot = vec_index_mut(&mut self.pools, pool_id - 1);
        *slot = PoolInfo {
            acc_reward_per_share: current.acc_reward_per_share,
            last_reward_time: current.last_reward_time,
            alloc_point,
        };
        self.total_alloc_point = new_total;
        proof {
            assert(final(self)@ =~= old(self)@.alloc_set(pool_id, alloc_point));
        }
        Ok(())
    }

    /// Replace the global emission rate. Administrator only. Pools are not
    /// settled here: the next settlement of each pool applies the new rate
    /// to all time elapsed since that pool's last settlement.
    pub fn set_reward_per_block(&mut self, caller: u64, reward_per_block: u128) -> (r: Result<(), StakingError>)
        requires
            old(self)@.wf(),
        ensures
            final(self)@.wf(),
            (match r {
                Ok(()) => caller == old(self)@.admin
                    && final(self)@ == (ChefState { reward_per_block, ..old(self)@ }),
                Err(StakingError::Unauthorized) => caller != old(self)@.admin
                    && final(self)@ == old(self)@,
                Err(_) => false,
            }),
    {
        if caller != self.admin {
            return Err(StakingError::Unauthorized);
        }
        self.reward_per_block = reward_per_block;
        proof {
            assert(final(self)@ =~= (ChefState { reward_per_block, ..old(self)@ }));
        }
        Ok(())
    }

    /// The reward units fully priced in for `amount` staked units at
    /// accumulator value `acc`, as a signed quantity for the debt ledger.
    fn gross_units(amount: u128, acc: u128) -> (r: Result<i128, StakingError>)
        ensures
            match r {
                Ok(g) => amount * acc <= u128::MAX
                    && gross_reward(amount as int, acc as int) <= i128::MAX
                    && g == gross_reward(amount as int, acc as int)
                    && g >= 0,
                Err(StakingError::ArithmeticFault) => amount * acc > u128::MAX
                    || gross_reward(amount as int, acc as int) > i128::MAX,
                Err(_) => false,
            },
    {
        let scaled = match amount.checked_mul(acc) {
            Some(v) => v,
            None => {
                return Err(StakingError::ArithmeticFault);
            },
        };
        let g = scaled / ACC_REWARD_PRECISION;
        if g > i128::MAX as u128 {
            return Err(StakingError::ArithmeticFault);
        }
        Ok(g as i128)
    }

    /// Deposit `amount` units of `payment_token` for `caller` into pool
    /// `pool_id` at time `now`. The attached token must be the pool's
    /// staking token. The pool is settled first, then the stake grows and
    /// the reward the new stake would claim retroactively is priced in as
    /// debt, so a deposit earns nothing for time before it.
    pub fn deposit(&mut self, caller: u64, now: u64, pool_id: usize, payment_token: u64, amount: u128, staked_supply: u128) -> (r: Result<(), StakingError>)
        requires
            old(self)@.wf(),
            amount > 0,
        ensures
            final(self)@.wf(),
            (match r {
                Ok(()) => old(self)@.deposit_ok(caller, pool_id, payment_token, amount, now, staked_supply)
                    && final(self)@ == old(self)@.deposited(caller, pool_id, amount, now, staked_supply),
                Err(StakingError::UnknownPool) => !old(self)@.valid_pool(pool_id)
                    && final(self)@ == old(self)@,
                Err(StakingError::TokenMismatch) => old(self)@.valid_pool(pool_id)
                    && payment_token != old(self)@.token(pool_id)
                    && final(self)@ == old(self)@,
                Err(StakingError::ArithmeticFault) => old(self)@.valid_pool(pool_id)
                    && payment_token == old(self)@.token(pool_id)
                    && !old(self)@.deposit_ok(caller, pool_id, payment_token, amount, now, staked_supply)
                    && final(self)@ == old(self)@,
                Err(_) => false,
            }),
            forall|pid: usize| old(self)@.valid_pool(pid)
                ==> final(self)@.pool(pid).acc_reward_per_share
                    >= old(self)@.pool(pid).acc_reward_per_share,
    {
        if !(1 <= pool_id && pool_id <= self.pools.len()) {
            return Err(StakingError::UnknownPool);
        }
        let want = self.want_tokens[pool_id - 1];
        if payment_token != want {
            return Err(StakingError::TokenMismatch);
        }
        let np = match self.settle_calc(pool_id, now, staked_supply) {
            Ok(p) => p,
            Err(e) => {
                return Err(e);
            },
        };
        let key = UserPoolPair::new(caller, pool_id);
        let u = self.user_info(&key);
        let new_amount = match u.amount.checked_add(amount) {
            Some(v) => v,
            None => {
                return Err(StakingError::ArithmeticFault);
            },
        };
        let g = match Self::gross_units(amount, np.acc_reward_per_share) {
            Ok(v) => v,
            Err(e) => {
                return Err(e);
            },
        };
        let new_debt = match u.reward_debt.checked_add(g) {
            Some(v) => v,
            None => {
                return Err(StakingError::ArithmeticFault);
            },
        };
        proof {
            self.lemma_settle_wf(pool_id, now, staked_supply);
        }
        let slot = vec_index_mut(&mut self.pools, pool_id - 1);
        *slot = np;
        self.store_position(key, UserInfo { amount: new_amount, reward_debt: new_debt });
        proof {
            assert(final(self)@ =~= old(self)@.deposited(caller, pool_id, amount, now, staked_supply));
        }
        Ok(())
    }

    /// Withdraw `amount` staked units from pool `pool_id` for `caller` at
    /// time `now`. The pool is settled first; then the stake shrinks, the
    /// debt priced in for the withdrawn stake is released, and the engine
    /// answers with the transfer of the staking token its environment must
    /// perform.
    pub fn withdraw(&mut self, caller: u64, now: u64, pool_id: usize, amount: u128, staked_supply: u128) -> (r: Result<Transfer, StakingError>)
        requires
            old(self)@.wf(),
        ensures
            final(self)@.wf(),
            (match r {
                Ok(t) => old(self)@.withdraw_ok(caller, pool_id, amount, now, staked_supply)
                    && final(self)@ == old(self)@.withdrawn(caller, pool_id, amount, now, staked_supply)
                    && t == (Transfer { to: caller, token: old(self)@.token(pool_id), amount }),
                Err(StakingError::UnknownPool) => !old(self)@.valid_pool(pool_id)
                    && final(self)@ == old(self)@,
                Err(StakingError::ArithmeticFault) => old(self)@.valid_pool(pool_id)
                    && (!old(self)@.settle_ok(pool_id, now, staked_supply)
                        || (amount <= old(self)@.position(caller, pool_id).amount
                            && withdraw_fault(
                                old(self)@.position(caller, pool_id),
                                amount,
                                old(self)@.settled_acc_of(pool_id, now, staked_supply) as u128,
                            )))
                    && final(self)@ == old(self)@,
                Err(StakingError::InsufficientStake) => old(self)@.settle_ok(pool_id, now, staked_supply)
                    && amount > old(self)@.position(caller, pool_id).amount
                    && final(self)@ == old(self)@,
                Err(_) => false,
            }),
            forall|pid: usize| old(self)@.valid_pool(pid)
                ==> final(self)@.pool(pid).acc_reward_per_share
                    >= old(self)@.pool(pid).acc_reward_per_share,
    {
        if !(1 <= pool_id && pool_id <= self.pools.len()) {
            return Err(StakingError::UnknownPool);
        }
        let want = self.want_tokens[pool_id - 1];
        let np = match self.settle_calc(pool_id, now, staked_supply) {
            Ok(p) => p,
            Err(e) => {
                return Err(e);
            },
        };
        let key = UserPoolPair::new(caller, pool_id);
        let u = self.user_info(&key);
        if amount > u.amount {
            return Err(StakingError::InsufficientStake);
        }
        let new_amount = u.amount - amount;
        let g = match Self::gross_units(amount, np.acc_reward_per_share) {
            Ok(v) => v,
            Err(e) => {
                return Err(e);
            },
        };
        let new_debt = match u.reward_debt.checked_sub(g) {
            Some(v) => v,
            None => {
                return Err(StakingError::ArithmeticFault);
            },
        };
        proof {
            self.lemma_settle_wf(pool_id, now, staked_supply);
        }
        let slot = vec_index_mut(&mut self.pools, pool_id - 1);
        *slot = np;
        self.store_position(key, UserInfo { amount: new_amount, reward_debt: new_debt });
        proof {
            assert(final(self)@ =~= old(self)@.withdrawn(caller, pool_id, amount, now, staked_supply));
        }
        Ok(Transfer { to: caller, token: want, amount })
    }

    /// Pay out `caller`'s pending reward in pool `pool_id` at time `now`.
    /// The pool is settled first; the pending reward — the gross accrual of
    /// the current stake minus the debt already priced in — is priced in
    /// fully, and the engine answers with the reward-token transfer its
    /// environment must perform. A transfer of zero is a permitted no-op. A
    /// negative pending reward signals an internal accounting fault.
    pub fn harvest(&mut self, caller: u64, now: u64, pool_id: usize, staked_supply: u128) -> (r: Result<Transfer, StakingError>)
        requires
            old(self)@.wf(),
        ensures
            final(self)@.wf(),
            (match r {
                Ok(t) => old(self)@.harvest_ok(caller, pool_id, now, staked_supply)
                    && final(self)@ == old(self)@.harvested(caller, pool_id, now, staked_supply)
                    && t.to == caller
                    && t.token == old(self)@.reward_token
                    && t.amount == old(self)@.pending(caller, pool_id, now, staked_supply),
                Err(StakingError::UnknownPool) => !old(self)@.valid_pool(pool_id)
                    && final(self)@ == old(self)@,
                Err(StakingError::ArithmeticFault) => old(self)@.valid_pool(pool_id)
                    && !old(self)@.harvest_ok(caller, pool_id, now, staked_supply)
                    && final(self)@ == old(self)@,
                Err(_) => false,
            }),
            forall|pid: usize| old(self)@.valid_pool(pid)
                ==> final(self)@.pool(pid).acc_reward_per_share
                    >= old(self)@.pool(pid).acc_reward_per_share,
    {
        if !(1 <= pool_id && pool_id <= self.pools.len()) {
            return Err(StakingError::UnknownPool);
        }
        let np = match self.settle_calc(pool_id, now, staked_supply) {
            Ok(p) => p,
            Err(e) => {
                return Err(e);
            },
        };
        let key = UserPoolPair::new(caller, pool_id);
        let u = self.user_info(&key);
        let g = match Self::gross_units(u.amount, np.acc_reward_per_share) {
            Ok(v) => v,
            Err(e) => {
                return Err(e);
            },
        };
        let pending = match g.checked_sub(u.reward_debt) {
            Some(v) => v,
            None => {
                return Err(StakingError::ArithmeticFault);
            },
        };
        if pending < 0 {
            return Err(StakingError::ArithmeticFault);
        }
        proof {
            self.lemma_settle_wf(pool_id, now, staked_supply);
        }
        let slot = vec_index_mut(&mut self.pools, pool_id - 1);
        *slot = np;
        self.store_position(key, UserInfo { amount: u.amount, reward_debt: g });
        proof {
            assert(final(self)@ =~= old(self)@.harvested(caller, pool_id, now, staked_supply));
        }
        Ok(Transfer { to: caller, token: self.reward_token, amount: pending as u128 })
    }

    /// The reward `user` could harvest from pool `pool_id` at time `now`,
    /// against the staked supply the ledger reports. A pure read: it
    /// simulates the settlement without persisting it.
    pub fn pending_reward(&self, pool_id: usize, user: u64, now: u64, staked_supply: u128) -> (r: Result<u128, StakingError>)
        requires
            self@.wf(),
        ensures
            match r {
                Ok(v) => self@.harvest_ok(user, pool_id, now, staked_supply)
                    && v == self@.pending(user, pool_id, now, staked_supply),
                Err(StakingError::UnknownPool) => !self@.valid_pool(pool_id),
                Err(StakingError::ArithmeticFault) => self@.valid_pool(pool_id)
                    && !self@.harvest_ok(user, pool_id, now, staked_supply),
                Err(_) => false,
            },
    {
        if !(1 <= pool_id && pool_id <= self.pools.len()) {
            return Err(StakingError::UnknownPool);
        }
        let np = match self.settle_calc(pool_id, now, staked_supply) {
            Ok(p) => p,
            Err(e) => {
                return Err(e);
            },
        };
        let key = UserPoolPair::new(user, pool_id);
        let u = self.user_info(&key);
        let g = match Self::gross_units(u.amount, np.acc_reward_per_share) {
            Ok(v) => v,
            Err(e) => {
                return Err(e);
            },
        };
        let pending = match g.checked_sub(u.reward_debt) {
            Some(v) => v,
            None => {
                return Err(StakingError::ArithmeticFault);
            },
        };
        if pending < 0 {
            return Err(StakingError::ArithmeticFault);
        }
        Ok(pending as u128)
    }

    /// Settlement preserves well-formedness and never lowers any pool's
    /// accumulator.
    proof fn lemma_settle_wf(&self, pool_id: usize, now: u64, staked_supply: u128)
        requires
            self@.wf(),
            self@.settle_ok(pool_id, now, staked_supply),
        ensures
            self@.settled(pool_id, now, staked_supply).wf(),
            forall|pid: usize| self@.valid_pool(pid)
                ==> self@.settled(pool_id, now, staked_supply).pool(pid).acc_reward_per_share
                    >= self@.pool(pid).acc_reward_per_share,
    {
        let s = self@;
        let p = s.pool(pool_id);
        let np = settled_pool(p, now, s.reward_per_block, s.total_alloc_point, staked_supply);
        lemma_settled_acc_monotonic(p, now, s.reward_per_block, s.total_alloc_point, staked_supply);
        lemma_sum_alloc_update(s.pools, pool_id - 1, np);
    }
}

} // verus!
