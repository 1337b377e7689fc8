//! Per-user, per-pool positions: staked amount and reward debt, and the
//! store that keeps one position per `(address, pool_id)` key.

use vstd::prelude::*;

use crate::ACC_REWARD_PRECISION;

verus! {

/// Key of a position: one account's stake in one pool.
#[derive(Clone, Copy, Debug, PartialEq, Eq, Structural)]
pub struct UserPoolPair {
    /// The staking account.
    pub address: u64,
    /// The pool the stake sits in.
    pub pool_id: usize,
}

impl UserPoolPair {
    pub fn new(address: u64, pool_id: usize) -> (r: Self)
        ensures
            r == (UserPoolPair { address, pool_id }),
    {
        Self { address, pool_id }
    }
}

/// One account's position in one pool.
#[derive(Clone, Copy, Debug, PartialEq, Eq, Structural)]
pub struct UserInfo {
    /// Currently staked quantity.
    pub amount: u128,
    /// Reward already priced in for the current stake, as of the last
    /// settlement this position took part in. Signed: incremental debt
    /// adjustment can legitimately drive it below zero.
    pub reward_debt: i128,
}

/// The position of an account that never interacted with a pool.
pub open spec fn empty_position() -> UserInfo {
    UserInfo { amount: 0, reward_debt: 0 }
}

impl Default for UserInfo {
    fn default() -> (r: Self)
        ensures
            r == empty_position(),
    {
        Self { amount: 0, reward_debt: 0 }
    }
}

/// Reward units fully priced in for `amount` staked units at accumulator
/// value `acc`: the unscaled product, floored.
pub open spec fn gross_reward(amount: int, acc: int) -> int {
    (amount * acc) / (ACC_REWARD_PRECISION as int)
}

/// Pending (unclaimed) reward of position `u` at accumulator value `acc`.
pub open spec fn pending_amount(u: UserInfo, acc: int) -> int {
    gross_reward(u.amount as int, acc) - u.reward_debt
}

/// Position `u` after depositing `amount` at settled accumulator `acc`: the
/// stake grows, and the reward the new stake would claim retroactively is
/// priced in as debt.
pub open spec fn deposited_position(u: UserInfo, amount: u128, acc: u128) -> UserInfo {
    UserInfo {
        amount: (u.amount + amount) as u128,
        reward_debt: (u.reward_debt + gross_reward(amount as int, acc as int)) as i128,
    }
}

/// True when the debt arithmetic of a deposit overflows the fixed widths.
pub open spec fn deposit_fault(u: UserInfo, amount: u128, acc: u128) -> bool {
    ||| u.amount + amount > u128::MAX
    ||| amount * acc > u128::MAX
    ||| gross_reward(amount as int, acc as int) > i128::MAX
    ||| u.reward_debt + gross_reward(amount as int, acc as int) > i128::MAX
}

/// Position `u` after withdrawing `amount` at settled accumulator `acc`: the
/// stake shrinks, and the debt priced in for the withdrawn stake is released.
pub open spec fn withdrawn_position(u: UserInfo, amount: u128, acc: u128) -> UserInfo {
    UserInfo {
        amount: (u.amount - amount) as u128,
        reward_debt: (u.reward_debt - gross_reward(amount as int, acc as int)) as i128,
    }
}

/// True when the debt arithmetic of a withdrawal overflows the fixed widths.
pub open spec fn withdraw_fault(u: UserInfo, amount: u128, acc: u128) -> bool {
    ||| amount * acc > u128::MAX
    ||| gross_reward(amount as int, acc as int) > i128::MAX
    ||| u.reward_debt - gross_reward(amount as int, acc as int) < i128::MIN
}

/// Position `u` after a harvest at settled accumulator `acc`: the stake is
/// untouched and the whole accrual to date is priced in as debt.
pub open spec fn harvested_position(u: UserInfo, acc: u128) -> UserInfo {
    UserInfo { amount: u.amount, reward_debt: gross_reward(u.amount as int, acc as int) as i128 }
}

/// True when a harvest (or a pending-reward read) cannot be carried out: the
/// gross accrual overflows the fixed widths, or the pending reward comes out
/// negative, which signals an internal accounting fault.
pub open spec fn harvest_fault(u: UserInfo, acc: u128) -> bool {
    ||| u.amount * acc > u128::MAX
    ||| gross_reward(u.amount as int, acc as int) > i128::MAX
    ||| gross_reward(u.amount as int, acc as int) - u.reward_debt > i128::MAX
    ||| pending_amount(u, acc as int) < 0
}

/// The position stored under `key` in a store laid out as a sequence of
/// key-value entries; an account that never deposited has the empty position.
pub open spec fn position_of(entries: Seq<(UserPoolPair, UserInfo)>, key: UserPoolPair) -> UserInfo
    decreases entries.len(),
{
    if entries.len() == 0 {
        empty_position()
    } else if entries[0].0 == key {
        entries[0].1
    } else {
        position_of(entries.drop_first(), key)
    }
}

/// The store after the position under `key` is set to `value`: the first
/// entry with that key is replaced, or a new entry is appended.
pub open spec fn store_set(
    entries: Seq<(UserPoolPair, UserInfo)>,
    key: UserPoolPair,
    value: UserInfo,
) -> Seq<(UserPoolPair, UserInfo)>
    decreases entries.len(),
{
    if entries.len() == 0 {
        seq![(key, value)]
    } else if entries[0].0 == key {
        seq![(key, value)] + entries.drop_first()
    } else {
        seq![entries[0]] + store_set(entries.drop_first(), key, value)
    }
}

/// Reading back the key just set yields the value just set.
pub proof fn lemma_store_set_same(entries: Seq<(UserPoolPair, UserInfo)>, key: UserPoolPair, value: UserInfo)
    ensures
        position_of(store_set(entries, key, value), key) == value,
    decreases entries.len(),
{
    let result = store_set(entries, key, value);
    if entries.len() == 0 {
        assert(result[0] == (key, value));
    } else if entries[0].0 == key {
        assert(result[0] == (key, value));
    } else {
        assert(result[0] == entries[0]);
        assert(result.drop_first() =~= store_set(entries.drop_first(), key, value));
        lemma_store_set_same(entries.drop_first(), key, value);
    }
}

/// Setting one key leaves every other key's position unchanged.
pub proof fn lemma_store_set_other(
    entries: Seq<(UserPoolPair, UserInfo)>,
    key: UserPoolPair,
    value: UserInfo,
    other: UserPoolPair,
)
    requires
        other != key,
    ensures
        position_of(store_set(entries, key, value), other) == position_of(entries, other),
    decreases entries.len(),
{
    let result = store_set(entries, key, value);
    if entries.len() == 0 {
        assert(result[0] == (key, value));
        assert(position_of(result, other) == position_of(result.drop_first(), other));
        assert(result.drop_first() =~= Seq::<(UserPoolPair, UserInfo)>::empty());
        assert(position_of(result.drop_first(), other) == empty_position());
    } else if entries[0].0 == key {
        assert(result[0] == (key, value));
        assert(result.drop_first() =~= entries.drop_first());
        assert(position_of(result, other) == position_of(entries.drop_first(), other));
        assert(position_of(entries, other) == position_of(entries.drop_first(), other));
    } else {
        assert(result[0] == entries[0]);
        assert(result.drop_first() =~= store_set(entries.drop_first(), key, value));
        lemma_store_set_other(entries.drop_first(), key, value, other);
        if entries[0].0 == other {
            assert(position_of(result, other) == result[0].1);
            assert(position_of(entries, other) == entries[0].1);
        } else {
            assert(position_of(result, other) == position_of(result.drop_first(), other));
            assert(position_of(entries, other) == position_of(entries.drop_first(), other));
        }
    }
}

/// When the first entry holding `key` stands at index `i`, setting `key` is
/// an in-place update of that entry.
pub proof fn lemma_store_set_is_update(
    entries: Seq<(UserPoolPair, UserInfo)>,
    i: int,
    value: UserInfo,
)
    requires
        0 <= i < entries.len(),
        forall|j: int| 0 <= j < i ==> entries[j].0 != entries[i].0,
    ensures
        store_set(entries, entries[i].0, value) == entries.update(i, (entries[i].0, value)),
    decreases entries.len(),
{
    let key = entries[i].0;
    if i == 0 {
        assert(store_set(entries, key, value) =~= entries.update(0, (key, value)));
    } else {
        assert(entries[0].0 != key);
        let rest = entries.drop_first();
        assert(rest[i - 1] == entries[i]);
        assert(forall|j: int| 0 <= j < i - 1 ==> rest[j] == entries[j + 1] && rest[j].0 != key);
        lemma_store_set_is_update(rest, i - 1, value);
        assert(store_set(entries, key, value) =~= entries.update(i, (key, value)));
    }
}

/// When no entry holds `key`, setting `key` appends a new entry.
pub proof fn lemma_store_set_is_push(
    entries: Seq<(UserPoolPair, UserInfo)>,
    key: UserPoolPair,
    value: UserInfo,
)
    requires
        forall|j: int| 0 <= j < entries.len() ==> entries[j].0 != key,
    ensures
        store_set(entries, key, value) == entries.push((key, value)),
    decreases entries.len(),
{
    if entries.len() == 0 {
        assert(store_set(entries, key, value) =~= entries.push((key, value)));
    } else {
        let rest = entries.drop_first();
        assert(forall|j: int| 0 <= j < rest.len() ==> rest[j] == entries[j + 1] && rest[j].0 != key);
        lemma_store_set_is_push(rest, key, value);
        assert(store_set(entries, key, value) =~= entries.push((key, value)));
    }
}

/// The first entry holding `key` gives that key's position.
pub proof fn lemma_position_of_found(entries: Seq<(UserPoolPair, UserInfo)>, i: int)
    requires
        0 <= i < entries.len(),
        forall|j: int| 0 <= j < i ==> entries[j].0 != entries[i].0,
    ensures
        position_of(entries, entries[i].0) == entries[i].1,
    decreases entries.len(),
{
    if i > 0 {
        let rest = entries.drop_first();
        assert(rest[i - 1] == entries[i]);
        assert(forall|j: int| 0 <= j < i - 1 ==> rest[j] == entries[j + 1] && rest[j].0 != entries[i].0);
        lemma_position_of_found(rest, i - 1);
    }
}

/// A key no entry holds has the empty position.
pub proof fn lemma_position_of_absent(entries: Seq<(UserPoolPair, UserInfo)>, key: UserPoolPair)
    requires
        forall|j: int| 0 <= j < entries.len() ==> entries[j].0 != key,
    ensures
        position_of(entries, key) == empty_position(),
    decreases entries.len(),
{
    if entries.len() > 0 {
        let rest = entries.drop_first();
        assert(forall|j: int| 0 <= j < rest.len() ==> rest[j] == entries[j + 1] && rest[j].0 != key);
        lemma_position_of_absent(rest, key);
    }
}

} // verus!
