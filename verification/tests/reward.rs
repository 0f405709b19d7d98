use staking::error::SPError;
use staking::reward::Reward;

fn one_reward_period(
    reward: Reward,
    staked_by_user: u64,
    total_staked: u128,
) -> Result<u64, SPError> {
    let staked_at: u64 = 1652378565;
    let program_ends_at: u64 = 1652378663;
    let reward_period: u64 = 2; // secs
    let current_timestamp: u64 = 1652378567; // A little bit more than one reward period

    let (reward_amount, reward_payed_for) = reward.calculate(
        current_timestamp,
        program_ends_at,
        staked_at,
        staked_by_user,
        reward_period,
        total_staked,
    )?;

    assert_eq!(reward_payed_for, staked_at + reward_period); // paid for exactly one reward periods

    Ok(reward_amount)
}

fn two_reward_periods(
    reward: Reward,
    staked_by_user: u64,
    total_staked: u128,
) -> Result<u64, SPError> {
    let staked_at: u64 = 1650106095;
    let program_ends_at: u64 = staked_at * 2;
    let reward_period: u64 = 500; // secs
    let current_timestamp: u64 = staked_at + (reward_period * 2) + 100; // A little bit more than two reward periods

    let (reward_amount, reward_payed_for) = reward.calculate(
        current_timestamp,
        program_ends_at,
        staked_at,
        staked_by_user,
        reward_period,
        total_staked,
    )?;

    assert_eq!(reward_payed_for, staked_at + reward_period * 2); // paid for exactly two reward periods

    Ok(reward_amount)
}

#[test]
fn fixed_config_one_reward_period() {
    // 10% from 1000 tokens for one reward periods
    let reward_amount = one_reward_period(Reward::new_fixed(10), 1000, 1000).unwrap();
    assert_eq!(reward_amount, 100);
}

#[test]
fn fixed_config_two_reward_periods() {
    // 10% from 100 tokens for two reward periods
    let reward_amount = two_reward_periods(Reward::new_fixed(10), 100, 100).unwrap();
    assert_eq!(reward_amount, 20);
}

#[test]
fn unfixed_config_one_reward_period_multiple_stakers() {
    // 50 tokens staked by user it's 5% of total_staked tokens (1000)
    // tokens_to_share among all stakers is 200
    // so 5% of 200 tokens is 10 tokens
    let reward_amount = one_reward_period(Reward::new_unfixed(200), 50, 1000).unwrap();
    assert_eq!(reward_amount, 10);
}

#[test]
fn unfixed_config_one_reward_period_single_staker() {
    let reward_amount = one_reward_period(Reward::new_unfixed(200), 50, 50).unwrap();
    // 50 tokens staked by user it's 100% of total_staked (50) tokens
    // tokens_to_share among all stakers is 200
    // so 100% of 200 tokens is 200 tokens
    assert_eq!(reward_amount, 200);
}

#[test]
fn constructors_keep_their_parameter() {
    assert_eq!(Reward::new_fixed(10), Reward::Fixed { data: 10 });
    assert_eq!(Reward::new_unfixed(200), Reward::Unfixed { data: 200 });
    assert!(Reward::new_fixed(10).is_fixed());
    assert!(!Reward::new_unfixed(200).is_fixed());
}

#[test]
fn validate_names_the_broken_range() {
    assert_eq!(Reward::new_fixed(0).validate(), Err(SPError::RewardRateTooSmall));
    assert_eq!(Reward::new_fixed(1).validate(), Err(SPError::RewardRateTooSmall));
    assert_eq!(Reward::new_fixed(2).validate(), Ok(()));
    assert_eq!(Reward::new_fixed(99).validate(), Ok(()));
    assert_eq!(Reward::new_fixed(100).validate(), Err(SPError::RewardRateTooHigh));
    assert_eq!(Reward::new_fixed(255).validate(), Err(SPError::RewardRateTooHigh));
    assert_eq!(Reward::new_unfixed(0).validate(), Err(SPError::TokensToShareEmpty));
    assert_eq!(Reward::new_unfixed(1).validate(), Ok(()));
}

#[test]
fn fixed_reward_is_rate_times_periods_rounded_down_once() {
    // 7% of 33 tokens is 2.31 per period; three periods make 6.93, paid as 6.
    let r = Reward::new_fixed(7).calculate(130, 1_000, 100, 33, 10, 0);
    assert_eq!(r, Ok((6, 130)));
    // five periods and a rest: 33 * 7 * 5 / 100 = 11.55
    let r = Reward::new_fixed(7).calculate(157, 1_000, 100, 33, 10, 0);
    assert_eq!(r, Ok((11, 150)));
}

#[test]
fn unfixed_reward_counts_every_period() {
    // a share of 2500 ten-thousandths of 10 tokens, over four periods
    let r = Reward::new_unfixed(10).calculate(140, 1_000, 100, 25, 10, 100);
    assert_eq!(r, Ok((10, 140)));
    // the share itself is rounded down: 1 of 3 is 3333 ten-thousandths
    let r = Reward::new_unfixed(30_000).calculate(110, 1_000, 100, 1, 10, 3);
    assert_eq!(r, Ok((9_999, 110)));
}

#[test]
fn rewards_stop_at_the_end_of_the_program() {
    let r = Reward::new_fixed(10).calculate(1_000, 125, 100, 1_000, 10, 1_000);
    assert_eq!(r, Ok((200, 120)));
    // ended within the first period: nothing is owed, nothing is paid for
    let r = Reward::new_fixed(10).calculate(1_000, 105, 100, 1_000, 10, 1_000);
    assert_eq!(r, Ok((0, 100)));
}

#[test]
fn calculate_refuses_an_empty_stake_first() {
    let r = Reward::new_fixed(0).calculate(0, 0, 100, 0, 0, 0);
    assert_eq!(r, Err(SPError::UserStakeZero));
}

#[test]
fn calculate_refuses_a_claim_within_the_first_period() {
    let r = Reward::new_fixed(10).calculate(109, 1_000, 100, 1_000, 10, 1_000);
    assert_eq!(r, Err(SPError::RewardPeriodNotPassed));
    let r = Reward::new_fixed(10).calculate(110, 1_000, 100, 1_000, 10, 1_000);
    assert_eq!(r, Ok((100, 110)));
    // a period so long that its end cannot be written down has not passed either
    let r = Reward::new_fixed(10).calculate(u64::MAX, u64::MAX, 100, 1_000, u64::MAX, 1_000);
    assert_eq!(r, Err(SPError::RewardPeriodNotPassed));
}

#[test]
fn calculate_reports_arithmetic_failures() {
    // the program ended before the stake began
    let r = Reward::new_fixed(10).calculate(1_000, 50, 100, 1_000, 10, 1_000);
    assert_eq!(r, Err(SPError::ArithmeticOverflow));
    // a period of no length
    let r = Reward::new_fixed(10).calculate(1_000, 2_000, 100, 1_000, 0, 1_000);
    assert_eq!(r, Err(SPError::ArithmeticOverflow));
    // a pool shared by nobody
    let r = Reward::new_unfixed(10).calculate(1_000, 2_000, 100, 1_000, 10, 0);
    assert_eq!(r, Err(SPError::ArithmeticOverflow));
    // a reward beyond 64 bits
    let r = Reward::new_fixed(99).calculate(1_000, 2_000, 0, u64::MAX, 1, 0);
    assert_eq!(r, Err(SPError::ArithmeticOverflow));
    let r = Reward::new_unfixed(u128::MAX).calculate(1_000, 2_000, 0, 10, 1, 10);
    assert_eq!(r, Err(SPError::ArithmeticOverflow));
}

#[test]
fn calculate_checks_the_parameter_after_the_times() {
    let r = Reward::new_fixed(1).calculate(1_000, 2_000, 100, 1_000, 10, 1_000);
    assert_eq!(r, Err(SPError::RewardRateTooSmall));
    let r = Reward::new_fixed(100).calculate(1_000, 2_000, 100, 1_000, 10, 1_000);
    assert_eq!(r, Err(SPError::RewardRateTooHigh));
    let r = Reward::new_unfixed(0).calculate(1_000, 2_000, 100, 1_000, 10, 1_000);
    assert_eq!(r, Err(SPError::TokensToShareEmpty));
    let r = Reward::new_fixed(1).calculate(1_000, 2_000, 100, 1_000, 0, 1_000);
    assert_eq!(r, Err(SPError::ArithmeticOverflow));
}

#[test]
fn unit_is_the_reward_of_one_period_in_ten_thousandths() {
    assert_eq!(Reward::new_fixed(5).unit(300, 0), Some(150_000));
    assert_eq!(Reward::new_unfixed(500).unit(300, 1_000), Some(1_500_000));
    assert_eq!(Reward::new_unfixed(500).unit(300, 0), None);
    assert_eq!(Reward::new_unfixed(u128::MAX).unit(300, 300), None);
    assert_eq!((Reward::Fixed { data: u128::MAX }).unit(2, 0), None);
}
