use masterchef::masterchef::MasterChef;
use masterchef::positions::UserInfo;
use masterchef::positions::UserPoolPair;
use masterchef::StakingError;
use masterchef::ACC_REWARD_PRECISION;

const ADMIN: u64 = 1;
const REWARD_TOKEN: u64 = 77;
const LP_TOKEN: u64 = 55;

fn engine_with_pool(rate: u128, alloc_point: u128) -> MasterChef {
    let mut chef = MasterChef::init(ADMIN, REWARD_TOKEN);
    chef.set_reward_per_block(ADMIN, rate).unwrap();
    let pool_id = chef.add(ADMIN, 0, LP_TOKEN, alloc_point).unwrap();
    assert_eq!(pool_id, 1);
    chef
}

#[test]
fn sole_pool_scenario_pays_exact_reward() {
    // alloc_point = 100, total 100, rate 1000 per time unit; 500 staked at
    // t = 0 must have accrued exactly 10000 at t = 10.
    let mut chef = engine_with_pool(1000, 100);
    chef.deposit(2, 0, 1, LP_TOKEN, 500, 0).unwrap();

    let pending = chef.pending_reward(1, 2, 10, 500).unwrap();
    assert_eq!(pending, 10000);

    let transfer = chef.harvest(2, 10, 1, 500).unwrap();
    assert_eq!(transfer.to, 2);
    assert_eq!(transfer.token, REWARD_TOKEN);
    assert_eq!(transfer.amount, 10000);

    let pool = chef.pool_info(1).unwrap();
    assert_eq!(pool.acc_reward_per_share, 2 * 10u128.pow(13));
    assert_eq!(pool.last_reward_time, 10);
    assert_eq!(chef.pending_reward(1, 2, 10, 500).unwrap(), 0);
}

#[test]
fn second_harvest_pays_zero() {
    let mut chef = engine_with_pool(1000, 100);
    chef.deposit(2, 0, 1, LP_TOKEN, 500, 0).unwrap();

    let first = chef.harvest(2, 10, 1, 500).unwrap();
    assert_eq!(first.amount, 10000);
    let second = chef.harvest(2, 10, 1, 500).unwrap();
    assert_eq!(second.amount, 0);
}

#[test]
fn deposit_then_withdraw_leaves_pending_unchanged() {
    let mut chef = engine_with_pool(1000, 100);
    chef.deposit(2, 0, 1, LP_TOKEN, 500, 0).unwrap();

    let before = chef.pending_reward(1, 2, 10, 500).unwrap();
    assert_eq!(before, 10000);

    chef.deposit(2, 10, 1, LP_TOKEN, 300, 500).unwrap();
    let transfer = chef.withdraw(2, 10, 1, 300, 800).unwrap();
    assert_eq!(transfer.token, LP_TOKEN);
    assert_eq!(transfer.amount, 300);

    let after = chef.pending_reward(1, 2, 10, 800).unwrap();
    assert_eq!(after, before);
}

#[test]
fn total_alloc_point_tracks_every_weight_change() {
    let mut chef = MasterChef::init(ADMIN, REWARD_TOKEN);
    chef.add(ADMIN, 0, LP_TOKEN, 100).unwrap();
    assert_eq!(chef.total_alloc_point(), 100);
    chef.add(ADMIN, 0, 56, 50).unwrap();
    assert_eq!(chef.total_alloc_point(), 150);
    chef.set(ADMIN, 2, 70).unwrap();
    assert_eq!(chef.total_alloc_point(), 170);
    chef.set(ADMIN, 1, 0).unwrap();
    assert_eq!(chef.total_alloc_point(), 70);
    assert_eq!(
        chef.pool_info(1).unwrap().alloc_point + chef.pool_info(2).unwrap().alloc_point,
        chef.total_alloc_point()
    );
}

#[test]
fn truncation_never_inflates_payouts() {
    // Numbers chosen so the floor divisions lose fractions: the pending
    // rewards sum below the reward the pool accrued.
    let mut chef = engine_with_pool(997, 100);
    chef.deposit(2, 0, 1, LP_TOKEN, 300, 0).unwrap();
    chef.deposit(3, 0, 1, LP_TOKEN, 201, 300).unwrap();

    let accrued = 7 * 997;
    let p2 = chef.pending_reward(1, 2, 7, 501).unwrap();
    let p3 = chef.pending_reward(1, 3, 7, 501).unwrap();
    assert_eq!(p2, 4179);
    assert_eq!(p3, 2799);
    assert!(p2 + p3 <= accrued);
}

#[test]
fn accumulator_never_decreases() {
    let mut chef = engine_with_pool(1000, 100);
    chef.deposit(2, 0, 1, LP_TOKEN, 500, 0).unwrap();

    let mut last_acc = chef.pool_info(1).unwrap().acc_reward_per_share;
    for (now, supply) in [(3u64, 500u128), (3, 500), (10, 500), (10, 0), (11, 0), (20, 800)] {
        chef.update_pool(1, now, supply).unwrap();
        let acc = chef.pool_info(1).unwrap().acc_reward_per_share;
        assert!(acc >= last_acc);
        last_acc = acc;
    }
}

#[test]
fn settle_without_stake_accrues_nothing_but_advances_time() {
    let mut chef = engine_with_pool(1000, 100);
    chef.update_pool(1, 9, 0).unwrap();
    let pool = chef.pool_info(1).unwrap();
    assert_eq!(pool.acc_reward_per_share, 0);
    assert_eq!(pool.last_reward_time, 9);
}

#[test]
fn settle_at_same_time_is_a_no_op() {
    let mut chef = engine_with_pool(1000, 100);
    chef.deposit(2, 0, 1, LP_TOKEN, 500, 0).unwrap();
    chef.update_pool(1, 10, 500).unwrap();
    let before = chef.pool_info(1).unwrap();
    chef.update_pool(1, 10, 500).unwrap();
    assert_eq!(chef.pool_info(1).unwrap(), before);
}

#[test]
fn only_admin_may_administrate() {
    let mut chef = engine_with_pool(1000, 100);
    assert_eq!(chef.add(9, 0, 56, 10), Err(StakingError::Unauthorized));
    assert_eq!(chef.set(9, 1, 10), Err(StakingError::Unauthorized));
    assert_eq!(chef.set_reward_per_block(9, 10), Err(StakingError::Unauthorized));
    assert_eq!(chef.total_alloc_point(), 100);
}

#[test]
fn deposit_of_foreign_token_is_refused() {
    let mut chef = engine_with_pool(1000, 100);
    assert_eq!(chef.deposit(2, 0, 1, 56, 500, 0), Err(StakingError::TokenMismatch));
    assert_eq!(chef.user_info(&UserPoolPair::new(2, 1)), UserInfo::default());
}

#[test]
fn withdraw_beyond_stake_is_refused() {
    let mut chef = engine_with_pool(1000, 100);
    chef.deposit(2, 0, 1, LP_TOKEN, 500, 0).unwrap();
    assert_eq!(chef.withdraw(2, 0, 1, 501, 500), Err(StakingError::InsufficientStake));
    assert_eq!(chef.withdraw(9, 0, 1, 1, 500), Err(StakingError::InsufficientStake));
    let transfer = chef.withdraw(2, 0, 1, 500, 500).unwrap();
    assert_eq!(transfer.amount, 500);
}

#[test]
fn unknown_pool_is_refused_everywhere() {
    let mut chef = engine_with_pool(1000, 100);
    assert_eq!(chef.set(ADMIN, 2, 10), Err(StakingError::UnknownPool));
    assert_eq!(chef.deposit(2, 0, 0, LP_TOKEN, 5, 0), Err(StakingError::UnknownPool));
    assert_eq!(chef.withdraw(2, 0, 2, 5, 0), Err(StakingError::UnknownPool));
    assert_eq!(chef.harvest(2, 0, 2, 0), Err(StakingError::UnknownPool));
    assert_eq!(chef.pending_reward(2, 2, 0, 0), Err(StakingError::UnknownPool));
    assert_eq!(chef.update_pool(0, 0, 0), Err(StakingError::UnknownPool));
    assert!(chef.pool_info(2).is_err());
    assert!(chef.want_token(0).is_err());
}

#[test]
fn weight_overflow_is_an_arithmetic_fault() {
    let mut chef = MasterChef::init(ADMIN, REWARD_TOKEN);
    chef.add(ADMIN, 0, LP_TOKEN, u128::MAX).unwrap();
    assert_eq!(chef.add(ADMIN, 0, 56, 1), Err(StakingError::ArithmeticFault));
    assert_eq!(chef.set(ADMIN, 1, u128::MAX), Ok(()));
    assert_eq!(chef.total_alloc_point(), u128::MAX);
}

#[test]
fn settling_with_zero_total_weight_is_an_arithmetic_fault() {
    let mut chef = MasterChef::init(ADMIN, REWARD_TOKEN);
    chef.set_reward_per_block(ADMIN, 1000).unwrap();
    chef.add(ADMIN, 0, LP_TOKEN, 0).unwrap();
    assert_eq!(chef.update_pool(1, 5, 10), Err(StakingError::ArithmeticFault));
    // Nothing staked: the zero weight is never divided by.
    assert_eq!(chef.update_pool(1, 5, 0), Ok(()));
}

#[test]
fn emission_overflow_is_an_arithmetic_fault() {
    let mut chef = engine_with_pool(u128::MAX, 100);
    chef.deposit(2, 0, 1, LP_TOKEN, 500, 0).unwrap();
    assert_eq!(chef.update_pool(1, 2, 500), Err(StakingError::ArithmeticFault));
    // The failed settlement committed nothing.
    assert_eq!(chef.pool_info(1).unwrap().last_reward_time, 0);
}

#[test]
fn negative_pending_is_an_internal_fault() {
    // Incremental debt adjustment with floor division can price in one unit
    // too much: stake 2 at an accumulator of 1.5 times the precision prices
    // in 3 units, withdrawing 1 releases only 1, and the remaining stake's
    // gross accrual of 1 no longer covers the debt of 2.
    let mut chef = engine_with_pool(3, 1);
    chef.deposit(9, 0, 1, LP_TOKEN, 2, 0).unwrap();
    chef.update_pool(1, 1, 2).unwrap();
    assert_eq!(
        chef.pool_info(1).unwrap().acc_reward_per_share,
        3 * ACC_REWARD_PRECISION / 2
    );
    chef.deposit(2, 1, 1, LP_TOKEN, 2, 2).unwrap();
    chef.withdraw(2, 1, 1, 1, 4).unwrap();
    assert_eq!(chef.harvest(2, 1, 1, 3), Err(StakingError::ArithmeticFault));
    assert_eq!(chef.pending_reward(1, 2, 1, 3), Err(StakingError::ArithmeticFault));
}

#[test]
fn positions_are_kept_per_user_and_pool() {
    let mut chef = engine_with_pool(1000, 100);
    chef.add(ADMIN, 0, 56, 100).unwrap();
    chef.deposit(2, 0, 1, LP_TOKEN, 500, 0).unwrap();
    chef.deposit(2, 0, 2, 56, 70, 0).unwrap();
    chef.deposit(3, 0, 1, LP_TOKEN, 40, 500).unwrap();

    assert_eq!(chef.user_info(&UserPoolPair::new(2, 1)).amount, 500);
    assert_eq!(chef.user_info(&UserPoolPair::new(2, 2)).amount, 70);
    assert_eq!(chef.user_info(&UserPoolPair::new(3, 1)).amount, 40);
    assert_eq!(chef.user_info(&UserPoolPair::new(3, 2)), UserInfo::default());
}

#[test]
fn registry_getters_report_the_configuration() {
    let chef = engine_with_pool(1000, 100);
    assert_eq!(chef.admin(), ADMIN);
    assert_eq!(chef.reward_token(), REWARD_TOKEN);
    assert_eq!(chef.reward_per_block(), 1000);
    assert_eq!(chef.pool_count(), 1);
    assert_eq!(chef.want_tokens(), &vec![LP_TOKEN]);
    assert_eq!(chef.want_token(1).unwrap(), LP_TOKEN);
    let pool = chef.pool_info(1).unwrap();
    assert_eq!(pool.alloc_point, 100);
    assert_eq!(pool.acc_reward_per_share, 0);
    assert_eq!(pool.last_reward_time, 0);
}

#[test]
fn zero_weight_pool_accrues_nothing() {
    let mut chef = engine_with_pool(1000, 100);
    chef.add(ADMIN, 0, 56, 0).unwrap();
    chef.deposit(2, 0, 2, 56, 500, 0).unwrap();
    chef.update_pool(2, 10, 500).unwrap();
    let pool = chef.pool_info(2).unwrap();
    assert_eq!(pool.acc_reward_per_share, 0);
    assert_eq!(pool.last_reward_time, 10);
    assert_eq!(chef.pending_reward(2, 2, 10, 500).unwrap(), 0);
}

#[test]
fn round_trip_of_one_user_leaves_others_untouched() {
    let mut chef = engine_with_pool(1000, 100);
    chef.deposit(2, 0, 1, LP_TOKEN, 300, 0).unwrap();
    chef.deposit(3, 0, 1, LP_TOKEN, 200, 300).unwrap();
    let bystander = chef.pending_reward(1, 3, 10, 500).unwrap();

    chef.deposit(2, 10, 1, LP_TOKEN, 100, 500).unwrap();
    chef.withdraw(2, 10, 1, 100, 600).unwrap();

    assert_eq!(chef.user_info(&UserPoolPair::new(3, 1)).amount, 200);
    assert_eq!(chef.pending_reward(1, 3, 10, 600).unwrap(), bystander);
}

#[test]
fn rate_change_applies_to_the_whole_open_interval() {
    // The engine does not settle on a rate change: the next settlement
    // applies the new rate to all time since the last settlement.
    let mut chef = engine_with_pool(1000, 100);
    chef.deposit(2, 0, 1, LP_TOKEN, 500, 0).unwrap();
    chef.set_reward_per_block(ADMIN, 2000).unwrap();
    assert_eq!(chef.pending_reward(1, 2, 10, 500).unwrap(), 20000);
}
