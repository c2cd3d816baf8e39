use stakegov::errors::Error;
use stakegov::staking::StakingEngine;

const DAY: u64 = 24 * 60 * 60;

#[test]
fn test_staking_lifecycle() {
    let admin: u64 = 1;
    let user1: u64 = 2;
    let token: u64 = 7;

    // The host mints 1_000_000 staking tokens to the user; balances live
    // with the host, so the test tracks them alongside the engine.
    let mut user_balance: i128 = 1_000_000;
    let mut contract_balance: i128 = 0;

    let mut eng = StakingEngine::initialize(admin, token, token, 10);

    // Tier 1: staking above 1000 tokens earns at 1.5x.
    eng.set_tier(admin, 1, 1000, 150).unwrap();

    // User stakes 2000 tokens with a 30 day lock.
    let lock_duration: u64 = 30 * DAY;
    eng.stake(user1, 2000, lock_duration, 1, 0).unwrap();
    user_balance -= 2000;
    contract_balance += 2000;

    assert_eq!(user_balance, 1_000_000 - 2000);
    assert_eq!(contract_balance, 2000);

    // The host mints reward liquidity to the contract.
    contract_balance += 100_000;

    // 10 seconds later the user claims without compounding:
    // reward = 10 s x rate 10 = 100 tokens.
    let paid = eng.claim(user1, false, 10).unwrap();
    user_balance += paid;
    contract_balance -= paid;
    assert_eq!(user_balance, 998_100);

    // 10 more seconds, then an unstake before the lock ends: the 20%
    // penalty on 1000 leaves a payout of 800.
    let payout = eng.unstake(user1, 1000, 20).unwrap();
    user_balance += payout;
    contract_balance -= payout;
    assert_eq!(user_balance, 998_900);

    // The admin slashes 500; no tokens move.
    eng.slash(admin, user1, 500, 20).unwrap();

    // Emergency withdrawal of the remaining 500 pays 400 after the 20%
    // penalty.
    let payout = eng.emergency_withdraw(user1, 20).unwrap();
    user_balance += payout;
    assert_eq!(user_balance, 999_300);
}

#[test]
fn test_upgrade_flow() {
    let admin: u64 = 1;
    let token: u64 = 7;
    let mut eng = StakingEngine::initialize(admin, token, token, 10);

    // Initial version should be 1.
    assert_eq!(eng.version(), 1);

    let new_wasm_hash = vec![1u8; 32];
    let current_timestamp: u64 = 0;
    let unlock_time = current_timestamp + 86400; // 24 hours later

    // Schedule the upgrade; the schedule itself is the observable record.
    eng.schedule_upgrade(admin, new_wasm_hash.clone(), unlock_time, current_timestamp)
        .unwrap();
    assert!(eng.upgrade.is_some());

    // Cancel (rollback), then reschedule.
    eng.cancel_upgrade(admin).unwrap();
    eng.schedule_upgrade(admin, new_wasm_hash.clone(), unlock_time, current_timestamp)
        .unwrap();

    // After the unlock time passes, migrate the state shape.
    eng.migrate_state(admin, 2).unwrap();
    assert_eq!(eng.version(), 2);

    // The scheduled upgrade itself can now run.
    eng.execute_upgrade(admin, &new_wasm_hash, unlock_time + 1).unwrap();
    assert!(eng.upgrade.is_none());
}

#[test]
fn claim_twice_without_elapsed_time_pays_zero() {
    let admin: u64 = 1;
    let user: u64 = 2;
    let mut eng = StakingEngine::initialize(admin, 7, 7, 10);
    eng.set_tier(admin, 0, 0, 100).unwrap();
    eng.stake(user, 500, 60, 0, 0).unwrap();

    let first = eng.claim(user, false, 25).unwrap();
    assert_eq!(first, 250);
    let second = eng.claim(user, false, 25).unwrap();
    assert_eq!(second, 0);
}

#[test]
fn single_staker_claims_exactly_rate_times_elapsed() {
    let admin: u64 = 1;
    let user: u64 = 2;
    let mut eng = StakingEngine::initialize(admin, 7, 7, 42);
    eng.set_tier(admin, 0, 0, 100).unwrap();
    eng.stake(user, 1000, 0, 0, 0).unwrap();
    // A lone staker owns every share: reward = rate x elapsed, exactly.
    let paid = eng.claim(user, false, 1000).unwrap();
    assert_eq!(paid, 42 * 1000);
}

#[test]
fn unstake_after_lock_expiry_pays_full_amount() {
    let admin: u64 = 1;
    let user: u64 = 2;
    let mut eng = StakingEngine::initialize(admin, 7, 7, 10);
    eng.set_tier(admin, 0, 0, 100).unwrap();
    eng.stake(user, 1000, 100, 0, 0).unwrap();
    // The lock ends at t = 100; at t = 100 the full principal comes back.
    let payout = eng.unstake(user, 1000, 100).unwrap();
    assert_eq!(payout, 1000);
}

#[test]
fn unstake_before_lock_expiry_pays_eighty_percent() {
    let admin: u64 = 1;
    let user: u64 = 2;
    let mut eng = StakingEngine::initialize(admin, 7, 7, 10);
    eng.set_tier(admin, 0, 0, 100).unwrap();
    eng.stake(user, 1000, 100, 0, 0).unwrap();
    let payout = eng.unstake(user, 1000, 99).unwrap();
    assert_eq!(payout, 800);
}

#[test]
fn total_shares_is_the_sum_of_user_shares() {
    let admin: u64 = 1;
    let mut eng = StakingEngine::initialize(admin, 7, 7, 10);
    eng.set_tier(admin, 0, 0, 100).unwrap();
    eng.set_tier(admin, 1, 1000, 150).unwrap();

    eng.stake(3, 500, 0, 0, 0).unwrap();
    eng.stake(4, 2000, 0, 1, 0).unwrap();
    let a = eng.get_user(3).unwrap().shares;
    let b = eng.get_user(4).unwrap().shares;
    assert_eq!(a, 500);
    assert_eq!(b, 3000);
    assert_eq!(eng.total_shares(), a + b);

    eng.unstake(4, 1000, 0).unwrap();
    let b2 = eng.get_user(4).unwrap().shares;
    assert_eq!(eng.total_shares(), a + b2);
}

#[test]
fn reward_accumulator_never_decreases() {
    let admin: u64 = 1;
    let mut eng = StakingEngine::initialize(admin, 7, 7, 10);
    eng.set_tier(admin, 0, 0, 100).unwrap();

    let mut last = eng.reward_per_token_stored();
    eng.stake(2, 1000, 0, 0, 5).unwrap();
    assert!(eng.reward_per_token_stored() >= last);
    last = eng.reward_per_token_stored();
    eng.claim(2, false, 17).unwrap();
    assert!(eng.reward_per_token_stored() >= last);
    last = eng.reward_per_token_stored();
    eng.unstake(2, 400, 30).unwrap();
    assert!(eng.reward_per_token_stored() >= last);
    last = eng.reward_per_token_stored();
    eng.emergency_withdraw(2, 31).unwrap();
    assert!(eng.reward_per_token_stored() >= last);
}

#[test]
fn compound_claim_restakes_the_reward() {
    let admin: u64 = 1;
    let user: u64 = 2;
    let mut eng = StakingEngine::initialize(admin, 7, 7, 10);
    eng.set_tier(admin, 0, 0, 150).unwrap();
    eng.stake(user, 1000, 0, 0, 0).unwrap();
    // 15 seconds at rate 10 over 1500 shares: reward = 150.
    let paid = eng.claim(user, true, 15).unwrap();
    assert_eq!(paid, 0);
    let u = eng.get_user(user).unwrap();
    assert_eq!(u.amount, 1150);
    assert_eq!(u.shares, 1500 + 225);
    assert_eq!(u.rewards, 0);
}

#[test]
fn stake_input_validation() {
    let admin: u64 = 1;
    let mut eng = StakingEngine::initialize(admin, 7, 7, 10);
    eng.set_tier(admin, 1, 1000, 150).unwrap();

    assert_eq!(eng.stake(2, 0, 0, 1, 0), Err(Error::InvalidAmount));
    assert_eq!(eng.stake(2, 2000, 0, 9, 0), Err(Error::UnknownTier));
    assert_eq!(eng.stake(2, 999, 0, 1, 0), Err(Error::BelowTierMinimum));
}

#[test]
fn unstake_and_slash_validation() {
    let admin: u64 = 1;
    let user: u64 = 2;
    let mut eng = StakingEngine::initialize(admin, 7, 7, 10);
    eng.set_tier(admin, 0, 0, 100).unwrap();
    eng.stake(user, 100, 0, 0, 0).unwrap();

    assert_eq!(eng.unstake(user, 0, 1), Err(Error::InvalidAmount));
    assert_eq!(eng.unstake(user, 101, 1), Err(Error::InsufficientStake));
    assert_eq!(eng.unstake(9, 1, 1), Err(Error::InsufficientStake));
    assert_eq!(eng.slash(user, user, 1, 1), Err(Error::NotAuthorized));
    assert_eq!(eng.slash(admin, user, 101, 1), Err(Error::InsufficientStake));
    assert_eq!(eng.set_tier(user, 2, 0, 100), Err(Error::NotAuthorized));
    // A user with no record claims nothing and nothing changes.
    assert_eq!(eng.claim(9, false, 1), Ok(0));
}

#[test]
fn upgrade_timelock_validation() {
    let admin: u64 = 1;
    let mut eng = StakingEngine::initialize(admin, 7, 7, 10);
    let hash = vec![5u8; 32];

    assert_eq!(eng.cancel_upgrade(admin), Err(Error::NoUpgradeScheduled));
    assert_eq!(eng.execute_upgrade(admin, &hash, 10), Err(Error::NoUpgradeScheduled));
    assert_eq!(
        eng.schedule_upgrade(admin, hash.clone(), 10, 10),
        Err(Error::InvalidUnlockTime)
    );
    assert_eq!(eng.schedule_upgrade(2, hash.clone(), 100, 0), Err(Error::NotAuthorized));

    eng.schedule_upgrade(admin, hash.clone(), 100, 0).unwrap();
    // Too early, and a wrong hash even after the unlock: both refused.
    assert_eq!(eng.execute_upgrade(admin, &hash, 99), Err(Error::TimelockNotExpired));
    let other = vec![6u8; 32];
    assert_eq!(eng.execute_upgrade(admin, &other, 100), Err(Error::TimelockNotExpired));

    assert_eq!(eng.migrate_state(admin, 1), Err(Error::VersionNotNewer));
    assert_eq!(eng.migrate_state(2, 3), Err(Error::NotAuthorized));
    eng.migrate_state(admin, 3).unwrap();
    assert_eq!(eng.version(), 3);
}

#[test]
fn restake_resets_the_lock_and_keeps_one_record() {
    let admin: u64 = 1;
    let user: u64 = 2;
    let mut eng = StakingEngine::initialize(admin, 7, 7, 0);
    eng.set_tier(admin, 0, 0, 100).unwrap();
    eng.stake(user, 100, 50, 0, 0).unwrap();
    eng.stake(user, 100, 50, 0, 40).unwrap();
    let u = eng.get_user(user).unwrap();
    assert_eq!(u.amount, 200);
    assert_eq!(u.lock_start_time, 40);
    // The lock restarted at t = 40, so t = 60 is still early: 20% penalty.
    let payout = eng.unstake(user, 200, 60).unwrap();
    assert_eq!(payout, 160);
}

#[test]
fn set_tier_overwrites_in_place() {
    let admin: u64 = 1;
    let mut eng = StakingEngine::initialize(admin, 7, 7, 10);
    eng.set_tier(admin, 1, 1000, 150).unwrap();
    eng.set_tier(admin, 1, 500, 120).unwrap();
    let t = eng.get_tier(1).unwrap();
    assert_eq!(t.min_amount, 500);
    assert_eq!(t.reward_multiplier, 120);
}

#[test]
fn early_penalty_floors_toward_zero() {
    let admin: u64 = 1;
    let user: u64 = 2;
    let mut eng = StakingEngine::initialize(admin, 7, 7, 0);
    eng.set_tier(admin, 0, 0, 100).unwrap();
    eng.stake(user, 7, 100, 0, 0).unwrap();
    // 80% of 7 is 5.6; the payout floors to 5.
    let payout = eng.unstake(user, 7, 1).unwrap();
    assert_eq!(payout, 5);
}
