//! Per-pool reward bookkeeping: the time-weighted accumulator and the pool
//! weight arithmetic.

use vstd::arithmetic::div_mod::lemma_fundamental_div_mod;
use vstd::arithmetic::div_mod::lemma_div_pos_is_pos;
use vstd::arithmetic::mul::lemma_mul_nonnegative;
use vstd::prelude::*;

use crate::ACC_REWARD_PRECISION;

verus! {

/// Reward bookkeeping of one pool. The pool's staking token is kept beside
/// it in the registry's token list, under the same pool id.
#[derive(Clone, Copy, Debug, PartialEq, Eq, Structural)]
pub struct PoolInfo {
    /// Cumulative reward per staked unit since the pool was created, scaled
    /// by `ACC_REWARD_PRECISION`. Never decreases.
    pub acc_reward_per_share: u128,
    /// Logical time of the last settlement of this pool.
    pub last_reward_time: u64,
    /// This pool's weight in the global emission split.
    pub alloc_point: u128,
}

/// Reward emitted to a pool over `elapsed` time units: the global emission
/// `elapsed * rate`, weighted by the pool's share `alloc_point` of
/// `total_alloc_point` (floor division).
pub open spec fn pool_reward(elapsed: int, rate: int, alloc_point: int, total_alloc_point: int) -> int {
    (elapsed * rate * alloc_point) / total_alloc_point
}

/// Growth of the per-share accumulator when `reward` units are spread over
/// `supply` staked units (floor division of the scaled reward).
pub open spec fn share_increment(reward: int, supply: int) -> int {
    (reward * ACC_REWARD_PRECISION as int) / supply
}

/// The accumulator value after settling pool `p` at time `now`. No time
/// elapsed, or nothing staked, leaves the accumulator unchanged.
pub open spec fn settled_acc(p: PoolInfo, now: u64, rate: u128, total_alloc_point: u128, supply: u128) -> int {
    if now > p.last_reward_time && supply > 0 {
        p.acc_reward_per_share + share_increment(
            pool_reward(
                now - p.last_reward_time,
                rate as int,
                p.alloc_point as int,
                total_alloc_point as int,
            ),
            supply as int,
        )
    } else {
        p.acc_reward_per_share as int
    }
}

/// True when settling pool `p` at time `now` cannot be carried out in the
/// engine's fixed-width arithmetic: a product exceeds `u128::MAX`, or reward
/// would accrue while the total weight is zero.
pub open spec fn settle_fault(p: PoolInfo, now: u64, rate: u128, total_alloc_point: u128, supply: u128) -> bool {
    let elapsed = now - p.last_reward_time;
    let reward = pool_reward(elapsed, rate as int, p.alloc_point as int, total_alloc_point as int);
    now > p.last_reward_time && supply > 0 && {
        ||| total_alloc_point == 0
        ||| elapsed * rate > u128::MAX
        ||| elapsed * rate * p.alloc_point > u128::MAX
        ||| reward * ACC_REWARD_PRECISION as int > u128::MAX
        ||| p.acc_reward_per_share + share_increment(reward, supply as int) > u128::MAX
    }
}

/// The pool after settlement at time `now`: the accumulator advanced by the
/// elapsed emission and the settlement time recorded. A settlement at a time
/// not later than the last one changes nothing.
pub open spec fn settled_pool(p: PoolInfo, now: u64, rate: u128, total_alloc_point: u128, supply: u128) -> PoolInfo {
    if now > p.last_reward_time {
        PoolInfo {
            acc_reward_per_share: settled_acc(p, now, rate, total_alloc_point, supply) as u128,
            last_reward_time: now,
            alloc_point: p.alloc_point,
        }
    } else {
        p
    }
}

/// Sum of the weights of a sequence of pools.
pub open spec fn sum_alloc(pools: Seq<PoolInfo>) -> int
    decreases pools.len(),
{
    if pools.len() == 0 {
        0
    } else {
        sum_alloc(pools.drop_last()) + pools.last().alloc_point
    }
}

pub proof fn lemma_sum_alloc_nonneg(pools: Seq<PoolInfo>)
    ensures
        sum_alloc(pools) >= 0,
    decreases pools.len(),
{
    if pools.len() > 0 {
        lemma_sum_alloc_nonneg(pools.drop_last());
    }
}

/// Every pool's weight is at most the sum of all weights.
pub proof fn lemma_sum_alloc_ge_element(pools: Seq<PoolInfo>, i: int)
    requires
        0 <= i < pools.len(),
    ensures
        sum_alloc(pools) >= pools[i].alloc_point,
    decreases pools.len(),
{
    if i == pools.len() - 1 {
        lemma_sum_alloc_nonneg(pools.drop_last());
    } else {
        lemma_sum_alloc_ge_element(pools.drop_last(), i);
    }
}

/// Appending a pool adds exactly its weight to the sum.
pub proof fn lemma_sum_alloc_push(pools: Seq<PoolInfo>, p: PoolInfo)
    ensures
        sum_alloc(pools.push(p)) == sum_alloc(pools) + p.alloc_point,
{
    assert(pools.push(p).drop_last() =~= pools);
}

/// Replacing one pool changes the sum by the difference of the two weights.
pub proof fn lemma_sum_alloc_update(pools: Seq<PoolInfo>, i: int, p: PoolInfo)
    requires
        0 <= i < pools.len(),
    ensures
        sum_alloc(pools.update(i, p)) == sum_alloc(pools) - pools[i].alloc_point + p.alloc_point,
    decreases pools.len(),
{
    let updated = pools.update(i, p);
    if i == pools.len() - 1 {
        assert(updated.drop_last() =~= pools.drop_last());
    } else {
        assert(updated.drop_last() =~= pools.drop_last().update(i, p));
        lemma_sum_alloc_update(pools.drop_last(), i, p);
    }
}

/// Monotonicity of settlement: the accumulator never decreases, whatever the
/// time, rate, weights and supply.
pub proof fn lemma_settled_acc_monotonic(p: PoolInfo, now: u64, rate: u128, total_alloc_point: u128, supply: u128)
    requires
        now > p.last_reward_time && supply > 0 ==> total_alloc_point > 0,
    ensures
        settled_acc(p, now, rate, total_alloc_point, supply) >= p.acc_reward_per_share,
{
    if now > p.last_reward_time && supply > 0 {
        let elapsed = now - p.last_reward_time;
        lemma_mul_nonnegative(elapsed, rate as int);
        lemma_mul_nonnegative(elapsed * rate, p.alloc_point as int);
        lemma_div_pos_is_pos(elapsed * rate * p.alloc_point, total_alloc_point as int);
        let reward = pool_reward(elapsed, rate as int, p.alloc_point as int, total_alloc_point as int);
        lemma_mul_nonnegative(reward, ACC_REWARD_PRECISION as int);
        lemma_div_pos_is_pos(reward * ACC_REWARD_PRECISION, supply as int);
    }
}

/// A settlement that stays within the fixed-width arithmetic leaves the
/// accumulator representable.
pub proof fn lemma_settled_acc_in_range(p: PoolInfo, now: u64, rate: u128, total_alloc_point: u128, supply: u128)
    requires
        !settle_fault(p, now, rate, total_alloc_point, supply),
    ensures
        0 <= settled_acc(p, now, rate, total_alloc_point, supply) <= u128::MAX,
{
    if now > p.last_reward_time && supply > 0 {
        lemma_settled_acc_monotonic(p, now, rate, total_alloc_point, supply);
    }
}

/// Conservation at a single settlement: what the per-share increment hands
/// out over the whole supply never exceeds the scaled reward that accrued.
/// Floor division only ever loses fractions, it never inflates them.
pub proof fn lemma_share_increment_conserves(reward: int, supply: int)
    requires
        reward >= 0,
        supply > 0,
    ensures
        share_increment(reward, supply) >= 0,
        share_increment(reward, supply) * supply <= reward * ACC_REWARD_PRECISION as int,
{
    let scaled = reward * ACC_REWARD_PRECISION as int;
    lemma_mul_nonnegative(reward, ACC_REWARD_PRECISION as int);
    lemma_div_pos_is_pos(scaled, supply);
    lemma_fundamental_div_mod(scaled, supply);
    assert(scaled == supply * (scaled / supply) + scaled % supply);
    assert(share_increment(reward, supply) * supply == supply * (scaled / supply)) by {
        vstd::arithmetic::mul::lemma_mul_is_commutative(share_increment(reward, supply), supply);
    }
}

} // verus!
