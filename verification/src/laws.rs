//! Laws the engine obeys, proved over the spec-level transitions that the
//! entry points' contracts are stated in.

use vstd::arithmetic::div_mod::lemma_div_is_ordered;
use vstd::arithmetic::div_mod::lemma_div_multiples_vanish;
use vstd::arithmetic::div_mod::lemma_div_pos_is_pos;
use vstd::arithmetic::mul::lemma_mul_inequality;
use vstd::arithmetic::mul::lemma_mul_is_commutative;
use vstd::arithmetic::mul::lemma_mul_nonnegative;
use vstd::prelude::*;

use crate::masterchef::ChefState;
use crate::pool::lemma_settled_acc_in_range;
use crate::pool::lemma_settled_acc_monotonic;
use crate::pool::lemma_share_increment_conserves;
use crate::pool::lemma_sum_alloc_ge_element;
use crate::pool::pool_reward;
use crate::pool::share_increment;
use crate::positions::deposited_position;
use crate::positions::gross_reward;
use crate::positions::harvested_position;
use crate::positions::lemma_store_set_other;
use crate::positions::lemma_store_set_same;
use crate::positions::position_of;
use crate::positions::pending_amount;
use crate::positions::withdrawn_position;
use crate::positions::UserPoolPair;
use crate::ACC_REWARD_PRECISION;

verus! {

/// The gross accrual of a non-negative stake at a non-negative accumulator
/// is non-negative.
proof fn lemma_gross_reward_nonneg(amount: int, acc: int)
    requires
        amount >= 0,
        acc >= 0,
    ensures
        gross_reward(amount, acc) >= 0,
{
    lemma_mul_nonnegative(amount, acc);
    lemma_div_pos_is_pos(amount * acc, ACC_REWARD_PRECISION as int);
}

/// Monotonicity: settling one pool never lowers any pool's accumulator, so
/// across any sequence of settlements with non-decreasing time inputs the
/// accumulator is non-decreasing.
pub proof fn lemma_accumulator_monotonic(s: ChefState, pool_id: usize, now: u64, supply: u128)
    requires
        s.settle_ok(pool_id, now, supply),
    ensures
        forall|pid: usize| s.valid_pool(pid)
            ==> s.settled(pool_id, now, supply).pool(pid).acc_reward_per_share
                >= s.pool(pid).acc_reward_per_share,
{
    let p = s.pool(pool_id);
    lemma_settled_acc_monotonic(p, now, s.reward_per_block, s.total_alloc_point, supply);
    lemma_settled_acc_in_range(p, now, s.reward_per_block, s.total_alloc_point, supply);
}

/// Conservation at a settlement: the per-share growth, taken over the whole
/// staked supply, never exceeds the pool's share of the emission of the
/// elapsed time, and that share never exceeds the emission itself. Floor
/// division only ever reduces what is distributed.
pub proof fn lemma_settlement_conserves(s: ChefState, pool_id: usize, now: u64, supply: u128)
    requires
        s.wf(),
        s.settle_ok(pool_id, now, supply),
        now >= s.pool(pool_id).last_reward_time,
    ensures
        (s.settled_acc_of(pool_id, now, supply) - s.pool(pool_id).acc_reward_per_share) * supply
            <= (now - s.pool(pool_id).last_reward_time) * s.reward_per_block
                * ACC_REWARD_PRECISION,
{
    let p = s.pool(pool_id);
    let elapsed = now - p.last_reward_time;
    let rate = s.reward_per_block as int;
    let total = s.total_alloc_point as int;
    let emission = elapsed * rate;
    lemma_mul_nonnegative(elapsed, rate);
    lemma_mul_nonnegative(emission, ACC_REWARD_PRECISION as int);
    if now > p.last_reward_time && supply > 0 {
        let reward = pool_reward(elapsed, rate, p.alloc_point as int, total);
        lemma_mul_nonnegative(emission, p.alloc_point as int);
        lemma_div_pos_is_pos(emission * p.alloc_point, total);
        lemma_share_increment_conserves(reward, supply as int);
        // The pool's weight is one summand of the total weight.
        lemma_sum_alloc_ge_element(s.pools, pool_id - 1);
        // So its weighted share of the emission is at most the emission.
        lemma_mul_inequality(p.alloc_point as int, total, emission);
        lemma_mul_is_commutative(emission, p.alloc_point as int);
        lemma_mul_is_commutative(emission, total);
        lemma_div_is_ordered(emission * p.alloc_point, emission * total, total);
        lemma_mul_is_commutative(total, emission);
        lemma_div_multiples_vanish(emission, total);
        assert(reward <= emission);
        lemma_mul_inequality(reward, emission, ACC_REWARD_PRECISION as int);
        assert(share_increment(reward, supply as int) * supply
            <= reward * ACC_REWARD_PRECISION as int);
        assert(s.settled_acc_of(pool_id, now, supply) - p.acc_reward_per_share
            == share_increment(reward, supply as int));
    } else {
        assert(s.settled_acc_of(pool_id, now, supply) == p.acc_reward_per_share);
        vstd::arithmetic::mul::lemma_mul_by_zero_is_zero(supply as int);
        assert((s.settled_acc_of(pool_id, now, supply) - p.acc_reward_per_share) * supply == 0);
    }
}

/// No double payment: once a harvest has settled a pool and priced the
/// whole accrual into the user's debt, a second harvest at the same time
/// and supply succeeds and pays exactly zero.
pub proof fn lemma_no_double_payment(s: ChefState, user: u64, pool_id: usize, now: u64, supply: u128)
    requires
        s.wf(),
        s.harvest_ok(user, pool_id, now, supply),
    ensures
        s.harvested(user, pool_id, now, supply).harvest_ok(user, pool_id, now, supply),
        s.harvested(user, pool_id, now, supply).pending(user, pool_id, now, supply) == 0,
{
    let key = UserPoolPair { address: user, pool_id };
    let p = s.pool(pool_id);
    let u = s.position(user, pool_id);
    let acc_int = s.settled_acc_of(pool_id, now, supply);
    lemma_settled_acc_in_range(p, now, s.reward_per_block, s.total_alloc_point, supply);
    let acc = acc_int as u128;
    let hp = harvested_position(u, acc);
    let s1 = s.harvested(user, pool_id, now, supply);
    lemma_store_set_same(s.positions, key, hp);
    assert(s1.position(user, pool_id) == hp);
    lemma_gross_reward_nonneg(u.amount as int, acc as int);
    assert(hp.reward_debt == gross_reward(u.amount as int, acc as int));
    assert(s1.pool(pool_id).last_reward_time >= now);
    assert(s1.settled_acc_of(pool_id, now, supply) == acc_int);
    assert(pending_amount(hp, acc_int) == 0);
}

/// Deposit neutrality: depositing and then, with no time elapsed,
/// withdrawing the same amount always succeeds and returns the position to
/// exactly what it was, so the pending reward is what it was before the
/// deposit.
pub proof fn lemma_deposit_withdraw_neutral(s: ChefState, user: u64, pool_id: usize, amount: u128, now: u64, supply: u128)
    requires
        s.wf(),
        s.deposit_ok(user, pool_id, s.token(pool_id), amount, now, supply),
    ensures
        s.deposited(user, pool_id, amount, now, supply).withdraw_ok(user, pool_id, amount, now, supply),
        s.deposited(user, pool_id, amount, now, supply)
            .withdrawn(user, pool_id, amount, now, supply)
            .position(user, pool_id) == s.position(user, pool_id),
        s.deposited(user, pool_id, amount, now, supply)
            .withdrawn(user, pool_id, amount, now, supply)
            .pending(user, pool_id, now, supply) == s.pending(user, pool_id, now, supply),
        forall|other: UserPoolPair| other != (UserPoolPair { address: user, pool_id })
            ==> position_of(
                s.deposited(user, pool_id, amount, now, supply)
                    .withdrawn(user, pool_id, amount, now, supply)
                    .positions,
                other,
            ) == position_of(s.positions, other),
{
    let key = UserPoolPair { address: user, pool_id };
    let p = s.pool(pool_id);
    let u = s.position(user, pool_id);
    let acc_int = s.settled_acc_of(pool_id, now, supply);
    lemma_settled_acc_in_range(p, now, s.reward_per_block, s.total_alloc_point, supply);
    let acc = acc_int as u128;
    lemma_gross_reward_nonneg(amount as int, acc as int);
    let dp = deposited_position(u, amount, acc);
    let s1 = s.deposited(user, pool_id, amount, now, supply);
    lemma_store_set_same(s.positions, key, dp);
    assert(s1.position(user, pool_id) == dp);
    assert(s1.pool(pool_id).last_reward_time >= now);
    assert(s1.settled_acc_of(pool_id, now, supply) == acc_int);

    let wp = withdrawn_position(dp, amount, acc);
    assert(wp == u);
    let s2 = s1.withdrawn(user, pool_id, amount, now, supply);
    lemma_store_set_same(s1.positions, key, wp);
    assert(s2.position(user, pool_id) == u);
    assert(s2.pool(pool_id) == s1.pool(pool_id));
    assert(s2.settled_acc_of(pool_id, now, supply) == acc_int);

    assert forall|other: UserPoolPair| other != key implies position_of(s2.positions, other)
        == position_of(s.positions, other) by {
        lemma_store_set_other(s.positions, key, dp, other);
        lemma_store_set_other(s1.positions, key, wp, other);
    }
}

} // verus!
