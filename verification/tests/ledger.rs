use staking::access_control::allow_finish_unstake;
use staking::account::Address;
use staking::account::CloseAccount;
use staking::account::Factory;
use staking::account::Member;
use staking::account::MemberPendingUnstake;
use staking::account::MemberStake;
use staking::account::StakePool;
use staking::account::Transfer;
use staking::account::Vault;
use staking::change_config;
use staking::claim_reward;
use staking::context::change_config::ChangeConfig;
use staking::context::claim_reward::ClaimReward;
use staking::context::create_member::CreateMember;
use staking::context::deposit::Deposit;
use staking::context::deposit_reward::DepositReward;
use staking::context::finish_unstake_all::FinishUnstakeAll;
use staking::context::initialize::Initialize;
use staking::context::new_stake_pool::NewStakePool;
use staking::context::stake::Stake;
use staking::context::start_unstake_all::StartUnstakeAll;
use staking::context::withdraw_all::WithdrawAll;
use staking::create_member;
use staking::deposit;
use staking::deposit_reward;
use staking::error::SPError;
use staking::finish_unstake_all;
use staking::history::ConfigHistory;
use staking::history::StakePoolConfig;
use staking::initialize;
use staking::new_stake_pool;
use staking::reward::Reward;
use staking::stake;
use staking::start_unstake_all;
use staking::withdraw_all;

fn key(n: u128) -> Address {
    Address { high: 7, low: n }
}

const OWNER: u128 = 1;
const FACTORY: u128 = 2;
const POOL: u128 = 3;
const BENEFICIARY: u128 = 4;
const MEMBER: u128 = 5;
const MEMBER_STAKE: u128 = 6;
const VAULT_REWARD: u128 = 10;
const VAULT_FREE: u128 = 11;
const VAULT_STAKED: u128 = 12;
const VAULT_PENDING: u128 = 13;
const WALLET: u128 = 14;
const WALLET_REWARD: u128 = 15;
const WALLET_OWNER: u128 = 16;

fn factory() -> Factory {
    Factory {
        bump: 254,
        owner: key(OWNER),
        reward_token_mint: key(100),
        stake_token_mint: key(101),
        vault_reward: key(VAULT_REWARD),
    }
}

fn member() -> Member {
    Member { beneficiary: key(BENEFICIARY), vault_free: key(VAULT_FREE), bump: 253 }
}

/// A pool created at `now` with a fixed rate of 10%, an owner interest of 10%, periods of
/// 500 s, an unstake delay of 60 s and a history of four slots.
fn pool(now: u64) -> StakePool {
    let ctx = NewStakePool { factory: factory(), owner: key(OWNER), now };
    new_stake_pool(&ctx, Reward::new_fixed(10), 252, None, 0, 10, 60, 0, 500, 4).unwrap()
}

fn claim(pool: StakePool, member_stake: MemberStake, staked: u64, available: u64, now: u64) -> ClaimReward {
    ClaimReward {
        factory_key: key(FACTORY),
        factory: factory(),
        stake_pool: pool,
        member_stake,
        vault_staked: Vault { address: key(VAULT_STAKED), amount: staked },
        vault_reward: Vault { address: key(VAULT_REWARD), amount: available },
        beneficiary_reward_vault: key(WALLET_REWARD),
        owner_fee_reward_vault: key(WALLET_OWNER),
        now,
    }
}

fn staked_at(at: u64) -> MemberStake {
    MemberStake {
        stake_pool: key(POOL),
        beneficiary: key(BENEFICIARY),
        vault_staked: key(VAULT_STAKED),
        staked_at: at,
        reward_payed_for: at,
        config_cursor: 0,
        bump: 251,
    }
}

#[test]
fn initialize_fills_in_the_factory() {
    let blank = Factory {
        bump: 0,
        owner: key(0),
        reward_token_mint: key(0),
        stake_token_mint: key(0),
        vault_reward: key(0),
    };
    let mut ctx = Initialize {
        factory: blank,
        bump: 254,
        reward_token_mint: key(100),
        stake_token_mint: key(101),
        vault_reward: key(VAULT_REWARD),
    };
    initialize(&mut ctx, key(OWNER));
    assert_eq!(ctx.factory, factory());
    assert_eq!(ctx.bump, 254);
    assert_eq!(ctx.reward_token_mint, key(100));
}

#[test]
fn a_new_pool_holds_its_first_config() {
    let ctx = NewStakePool { factory: factory(), owner: key(OWNER), now: 1000 };
    let pool = new_stake_pool(&ctx, Reward::new_unfixed(200), 9, Some(5000), 3, 15, 60, 20, 500, 4)
        .unwrap();
    assert_eq!(pool.started_at, 1000);
    assert_eq!(pool.ends_at, Some(5000));
    assert_eq!(pool.total_staked_tokens, 0);
    assert_eq!(pool.bump, 9);
    assert_eq!(pool.owner_interest_percent, 15);
    assert_eq!(pool.min_owner_reward, 3);
    assert_eq!(pool.reward_period, 500);
    assert_eq!(pool.config_history.capacity(), 4);
    assert_eq!(pool.config_history.head(), 1);
    assert_eq!(pool.config_history.tail(), 0);
    let first = StakePoolConfig {
        started_at: 1000,
        ended_at: None,
        unstake_delay: 60,
        unstake_forced_fee_percent: 20,
        reward_type: Reward::Unfixed { data: 200 },
    };
    assert_eq!(pool.config_history.get(0), Some(first));
    assert_eq!(pool.active_config(), first);
    assert!(pool.is_wf());
}

#[test]
fn a_new_pool_is_refused_for_the_first_failing_check() {
    let ctx = NewStakePool { factory: factory(), owner: key(OWNER), now: 1000 };
    let stranger = NewStakePool { factory: factory(), owner: key(99), now: 1000 };
    let good = Reward::new_fixed(10);
    let err = |r: Result<StakePool, SPError>| r.unwrap_err();
    assert_eq!(
        err(new_stake_pool(&stranger, Reward::new_fixed(1), 0, None, 0, 0, 0, 101, 500, 0)),
        SPError::NewPoolOwnerMismatch
    );
    assert_eq!(
        err(new_stake_pool(&ctx, Reward::new_fixed(1), 0, None, 0, 0, 0, 101, 500, 0)),
        SPError::OwnerInterestWrong
    );
    assert_eq!(
        err(new_stake_pool(&ctx, good, 0, None, 0, 100, 0, 0, 500, 4)),
        SPError::OwnerInterestWrong
    );
    assert_eq!(
        err(new_stake_pool(&ctx, Reward::new_fixed(1), 0, None, 0, 1, 0, 101, 500, 0)),
        SPError::RewardRateTooSmall
    );
    assert_eq!(
        err(new_stake_pool(&ctx, Reward::new_fixed(100), 0, None, 0, 99, 0, 101, 500, 0)),
        SPError::RewardRateTooHigh
    );
    assert_eq!(
        err(new_stake_pool(&ctx, Reward::new_unfixed(0), 0, None, 0, 99, 0, 101, 500, 0)),
        SPError::TokensToShareEmpty
    );
    assert_eq!(
        err(new_stake_pool(&ctx, good, 0, None, 0, 99, 0, 101, 500, 0)),
        SPError::UnstakeForcedFeeWrong
    );
    assert_eq!(
        err(new_stake_pool(&ctx, good, 0, None, 0, 99, 0, 100, 500, 0)),
        SPError::HistoryCapacityTooSmall
    );
    assert_eq!(
        err(new_stake_pool(&ctx, good, 0, None, 0, 99, 0, 100, 500, 1)),
        SPError::HistoryCapacityTooSmall
    );
    assert!(new_stake_pool(&ctx, good, 0, None, 0, 99, 0, 100, 500, 2).is_ok());
    assert!(new_stake_pool(&ctx, good, 0, None, 0, 1, 0, 100, 0, 2).is_ok());
}

#[test]
fn a_change_of_config_ends_the_old_and_appends_the_new() {
    let mut ctx = ChangeConfig {
        factory: factory(),
        owner: key(OWNER),
        stake_pool: pool(1000),
        now: 1250,
    };
    let cursor = change_config(&mut ctx, Reward::new_fixed(5), 120, 30).unwrap();
    assert_eq!(cursor, 1);
    let history = &ctx.stake_pool.config_history;
    assert_eq!(history.head(), 2);
    assert_eq!(history.tail(), 0);
    assert_eq!(
        history.get(0),
        Some(StakePoolConfig {
            started_at: 1000,
            ended_at: Some(1250),
            unstake_delay: 60,
            unstake_forced_fee_percent: 0,
            reward_type: Reward::Fixed { data: 10 },
        })
    );
    assert_eq!(
        history.get(1),
        Some(StakePoolConfig {
            started_at: 1250,
            ended_at: None,
            unstake_delay: 120,
            unstake_forced_fee_percent: 30,
            reward_type: Reward::Fixed { data: 5 },
        })
    );
    assert_eq!(ctx.stake_pool.active_config().unstake_delay, 120);
    assert!(ctx.stake_pool.is_wf());
    assert_eq!(ctx.stake_pool.reward_period, 500);
    assert_eq!(ctx.stake_pool.owner_interest_percent, 10);
    assert_eq!(ctx.now, 1250);
}

#[test]
fn changes_beyond_the_capacity_give_up_the_oldest_config() {
    let mut ctx = ChangeConfig {
        factory: factory(),
        owner: key(OWNER),
        stake_pool: pool(0),
        now: 0,
    };
    for i in 1..=5u64 {
        ctx.now = i * 100;
        let cursor = change_config(&mut ctx, Reward::new_fixed(10 + i as u8), 60, 0).unwrap();
        assert_eq!(cursor as u64, i);
        assert!(ctx.stake_pool.is_wf());
    }
    let history = &ctx.stake_pool.config_history;
    assert_eq!(history.head(), 6);
    assert_eq!(history.tail(), 3);
    assert_eq!(history.get(2), None);
    assert_eq!(history.get(3).unwrap().ended_at, Some(400));
    assert_eq!(history.get(4).unwrap().started_at, 400);
    assert_eq!(history.get(5).unwrap().ended_at, None);
}

#[test]
fn a_refused_change_of_config_changes_nothing() {
    let fresh = ChangeConfig {
        factory: factory(),
        owner: key(OWNER),
        stake_pool: pool(1000),
        now: 1250,
    };

    let mut ctx = fresh.clone();
    ctx.owner = key(99);
    let before = ctx.clone();
    assert_eq!(
        change_config(&mut ctx, Reward::new_fixed(1), 0, 101),
        Err(SPError::NewPoolOwnerMismatch)
    );
    assert_eq!(ctx, before);

    let mut ctx = fresh.clone();
    assert_eq!(
        change_config(&mut ctx, Reward::new_fixed(1), 0, 101),
        Err(SPError::RewardRateTooSmall)
    );
    assert_eq!(
        change_config(&mut ctx, Reward::new_fixed(100), 0, 101),
        Err(SPError::RewardRateTooHigh)
    );
    assert_eq!(
        change_config(&mut ctx, Reward::new_unfixed(0), 0, 101),
        Err(SPError::TokensToShareEmpty)
    );
    assert_eq!(
        change_config(&mut ctx, Reward::new_unfixed(5), 0, 101),
        Err(SPError::UnstakeForcedFeeWrong)
    );
    assert_eq!(
        change_config(&mut ctx, Reward::new_unfixed(5), 0, 100),
        Err(SPError::RewardTypeMismatch)
    );
    assert_eq!(ctx, fresh);

    let mut ctx = fresh.clone();
    ctx.stake_pool.config_history = ConfigHistory {
        head: u32::MAX,
        tail: u32::MAX - 1,
        history: vec![
            None,
            None,
            Some(StakePoolConfig::new(0, 0, 0, Reward::new_fixed(10)).unwrap()),
            None,
        ],
    };
    assert!(ctx.stake_pool.is_wf());
    let before = ctx.clone();
    assert_eq!(
        change_config(&mut ctx, Reward::new_fixed(5), 0, 0),
        Err(SPError::ArithmeticOverflow)
    );
    assert_eq!(ctx, before);
}

#[test]
fn a_member_is_made_of_its_beneficiary_and_its_vault() {
    let ctx = CreateMember { beneficiary: key(BENEFICIARY), vault_free: key(VAULT_FREE) };
    assert_eq!(create_member(&ctx, 253), member());
    assert_eq!(create_member(&ctx, 253), create_member(&ctx, 253));
}

#[test]
fn a_deposit_moves_what_the_wallet_holds() {
    let ctx = Deposit {
        member: member(),
        vault_free: Vault { address: key(VAULT_FREE), amount: 5 },
        beneficiary: key(BENEFICIARY),
        beneficiary_token_account: Vault { address: key(WALLET), amount: 300 },
    };
    let order = Transfer {
        from: key(WALLET),
        to: key(VAULT_FREE),
        authority: key(BENEFICIARY),
        amount: 300,
    };
    assert_eq!(deposit(&ctx, 300), Ok(order));
    assert_eq!(ctx.transfer_user_tokens_to_program(300), order);
    assert_eq!(deposit(&ctx, 0).unwrap().amount, 0);
    assert_eq!(deposit(&ctx, 301), Err(SPError::InsufficientAmountOfTokensToDeposit));
}

#[test]
fn a_deposit_of_reward_moves_the_owners_tokens() {
    let ctx = DepositReward {
        owner: key(OWNER),
        vault_owner: Vault { address: key(WALLET_OWNER), amount: 50 },
        vault_reward: Vault { address: key(VAULT_REWARD), amount: 0 },
    };
    let order = Transfer {
        from: key(WALLET_OWNER),
        to: key(VAULT_REWARD),
        authority: key(OWNER),
        amount: 40,
    };
    assert_eq!(deposit_reward(&ctx, 40), order);
    assert_eq!(ctx.transfer_tokens_to_reward_vault(40), order);
}

fn staking(pool: StakePool, free: u64, now: u64) -> Stake {
    Stake {
        stake_pool_key: key(POOL),
        stake_pool: pool,
        beneficiary: key(BENEFICIARY),
        member_key: key(MEMBER),
        member: member(),
        vault_free: Vault { address: key(VAULT_FREE), amount: free },
        vault_staked: key(VAULT_STAKED),
        now,
    }
}

#[test]
fn a_stake_starts_now_under_the_config_in_force() {
    let mut changing = ChangeConfig {
        factory: factory(),
        owner: key(OWNER),
        stake_pool: pool(1000),
        now: 1100,
    };
    change_config(&mut changing, Reward::new_fixed(5), 60, 0).unwrap();
    let mut ctx = staking(changing.stake_pool, 300, 1200);
    ctx.stake_pool.total_staked_tokens = 1000;
    let pool_before = ctx.stake_pool.clone();
    let (member_stake, order) = stake(&mut ctx, 251, 300).unwrap();
    assert_eq!(
        member_stake,
        MemberStake {
            stake_pool: key(POOL),
            beneficiary: key(BENEFICIARY),
            vault_staked: key(VAULT_STAKED),
            staked_at: 1200,
            reward_payed_for: 1200,
            config_cursor: 1,
            bump: 251,
        }
    );
    assert_eq!(
        order,
        Transfer {
            from: key(VAULT_FREE),
            to: key(VAULT_STAKED),
            authority: key(MEMBER),
            amount: 300,
        }
    );
    assert_eq!(ctx.transfer_tokens_to_staked_vault(300), order);
    assert_eq!(ctx.stake_pool.total_staked_tokens, 1300);
    assert_eq!(ctx.stake_pool.config_history, pool_before.config_history);
    assert!(ctx.stake_pool.is_wf());
}

#[test]
fn a_refused_stake_changes_nothing() {
    let mut ctx = staking(pool(1000), 300, 1200);
    let before = ctx.clone();
    assert_eq!(stake(&mut ctx, 251, 301), Err(SPError::NotEnoughFreeVaultAmount));
    assert_eq!(ctx, before);

    ctx.stake_pool.total_staked_tokens = u128::MAX - 299;
    let before = ctx.clone();
    assert_eq!(stake(&mut ctx, 251, 300), Err(SPError::ArithmeticOverflow));
    assert_eq!(ctx, before);
    assert!(stake(&mut ctx, 251, 299).is_ok());
    assert_eq!(ctx.stake_pool.total_staked_tokens, u128::MAX);
}

#[test]
fn a_claim_pays_the_member_and_the_owner() {
    let mut ctx = claim(pool(0), staked_at(1652378565), 1000, 100, 1652378567);
    ctx.stake_pool.reward_period = 2;
    let (to_member, to_owner) = claim_reward(&mut ctx).unwrap();
    assert_eq!(
        to_member,
        Transfer {
            from: key(VAULT_REWARD),
            to: key(WALLET_REWARD),
            authority: key(FACTORY),
            amount: 90,
        }
    );
    assert_eq!(
        to_owner,
        Transfer {
            from: key(VAULT_REWARD),
            to: key(WALLET_OWNER),
            authority: key(FACTORY),
            amount: 10,
        }
    );
    assert_eq!(ctx.member_stake.reward_payed_for, 1652378567);
    assert_eq!(ctx.member_stake.config_cursor, 0);
    assert_eq!(ctx.member_stake.staked_at, 1652378565);
    assert_eq!(ctx.calculate_reward_tokens(), Err(SPError::RewardPeriodNotPassed));
}

#[test]
fn a_claim_across_a_change_of_config_moves_the_cursor() {
    let mut changing = ChangeConfig {
        factory: factory(),
        owner: key(OWNER),
        stake_pool: pool(0),
        now: 250,
    };
    change_config(&mut changing, Reward::new_fixed(5), 60, 0).unwrap();
    let mut ctx = claim(changing.stake_pool, staked_at(0), 100, 1_000, 1000);
    let accrual = ctx.calculate_reward_tokens().unwrap();
    assert_eq!(accrual.reward, 12);
    let (to_member, to_owner) = claim_reward(&mut ctx).unwrap();
    assert_eq!(to_member.amount, 11);
    assert_eq!(to_owner.amount, 1);
    assert_eq!(ctx.member_stake.config_cursor, 1);
    assert_eq!(ctx.member_stake.reward_payed_for, 1000);

    // one period later, under the second config alone: 5% of 100
    ctx.now = 1500;
    let (to_member, to_owner) = claim_reward(&mut ctx).unwrap();
    assert_eq!(to_member.amount + to_owner.amount, 5);
    assert_eq!(ctx.member_stake.config_cursor, 1);
    assert_eq!(ctx.member_stake.reward_payed_for, 1500);
}

#[test]
fn a_claim_before_the_period_has_passed_changes_nothing() {
    let mut ctx = claim(pool(0), staked_at(1000), 100, 1_000, 1499);
    let before = ctx.clone();
    assert_eq!(claim_reward(&mut ctx), Err(SPError::RewardPeriodNotPassed));
    assert_eq!(ctx, before);
    ctx.now = 1500;
    assert!(claim_reward(&mut ctx).is_ok());
    assert_eq!(ctx.member_stake.reward_payed_for, 1500);
    // the period counts from the time paid through, not from the time of staking
    ctx.now = 1999;
    let before = ctx.clone();
    assert_eq!(claim_reward(&mut ctx), Err(SPError::RewardPeriodNotPassed));
    assert_eq!(ctx, before);
}

#[test]
fn a_claim_on_an_empty_stake_changes_nothing() {
    let mut ctx = claim(pool(0), staked_at(1000), 0, 1_000, 1400);
    let before = ctx.clone();
    assert_eq!(claim_reward(&mut ctx), Err(SPError::UserStakeZero));
    assert_eq!(ctx, before);
}

#[test]
fn a_claim_beyond_the_reward_vault_changes_nothing() {
    let mut ctx = claim(pool(0), staked_at(1000), 1000, 99, 1500);
    let before = ctx.clone();
    assert_eq!(claim_reward(&mut ctx), Err(SPError::InsufficientAmountOfTokensToClaim));
    assert_eq!(ctx, before);
    ctx.vault_reward.amount = 100;
    assert!(claim_reward(&mut ctx).is_ok());
}

#[test]
fn the_owner_receives_at_least_the_minimum() {
    let mut ctx = claim(pool(0), staked_at(1000), 1000, 1_000, 1500);
    ctx.stake_pool.min_owner_reward = 25;
    let (to_member, to_owner) = ctx.transfer_reward_tokens(100).unwrap();
    assert_eq!((to_member.amount, to_owner.amount), (75, 25));
    let (to_member, to_owner) = ctx.transfer_reward_tokens(1000).unwrap();
    assert_eq!((to_member.amount, to_owner.amount), (900, 100));
    let (to_member, to_owner) = ctx.transfer_reward_tokens(25).unwrap();
    assert_eq!((to_member.amount, to_owner.amount), (0, 25));
    assert_eq!(ctx.transfer_reward_tokens(24), Err(SPError::ArithmeticOverflow));
    let (to_member, to_owner) = ctx.transfer_reward_tokens(u64::MAX).unwrap();
    assert_eq!(to_owner.amount, u64::MAX / 10);
    assert_eq!(to_member.amount, u64::MAX - u64::MAX / 10);

    // a reward smaller than the owner's part is not paid, and nothing changes
    ctx.stake_pool.min_owner_reward = 101;
    let before = ctx.clone();
    assert_eq!(claim_reward(&mut ctx), Err(SPError::ArithmeticOverflow));
    assert_eq!(ctx, before);
}

#[test]
fn the_owners_share_is_rounded_down() {
    let ctx = claim(pool(0), staked_at(1000), 1000, 1_000, 1500);
    let (to_member, to_owner) = ctx.transfer_reward_tokens(19).unwrap();
    assert_eq!((to_member.amount, to_owner.amount), (18, 1));
    let (to_member, to_owner) = ctx.transfer_reward_tokens(9).unwrap();
    assert_eq!((to_member.amount, to_owner.amount), (9, 0));
}

fn unstaking(pool: StakePool, staked: u64, now: u64) -> StartUnstakeAll {
    StartUnstakeAll {
        stake_pool_key: key(POOL),
        stake_pool: pool,
        beneficiary: key(BENEFICIARY),
        member_stake_key: key(MEMBER_STAKE),
        member_stake: staked_at(1000),
        vault_staked: Vault { address: key(VAULT_STAKED), amount: staked },
        vault_pending_unstake: key(VAULT_PENDING),
        now,
    }
}

#[test]
fn an_unstake_starts_with_all_the_staked_tokens() {
    let mut ctx = unstaking(pool(0), 300, 2000);
    ctx.stake_pool.total_staked_tokens = 1000;
    let (unstake, order) = start_unstake_all(&mut ctx, 250).unwrap();
    assert_eq!(
        unstake,
        MemberPendingUnstake {
            stake_pool: key(POOL),
            beneficiary: key(BENEFICIARY),
            vault_pending_unstake: key(VAULT_PENDING),
            unstaked_at: 2000,
            bump: 250,
        }
    );
    assert_eq!(
        order,
        Transfer {
            from: key(VAULT_STAKED),
            to: key(VAULT_PENDING),
            authority: key(MEMBER_STAKE),
            amount: 300,
        }
    );
    assert_eq!(ctx.transfer_staked_tokens_to_pu_vault(300), order);
    assert_eq!(ctx.stake_pool.total_staked_tokens, 700);
    assert_eq!(ctx.member_stake, staked_at(1000));
}

#[test]
fn a_refused_start_of_an_unstake_changes_nothing() {
    let mut ctx = unstaking(pool(0), 0, 2000);
    ctx.stake_pool.total_staked_tokens = 1000;
    let before = ctx.clone();
    assert_eq!(start_unstake_all(&mut ctx, 250), Err(SPError::NoStakedTokens));
    assert_eq!(ctx, before);

    let mut ctx = unstaking(pool(0), 300, 2000);
    ctx.stake_pool.total_staked_tokens = 299;
    let before = ctx.clone();
    assert_eq!(start_unstake_all(&mut ctx, 250), Err(SPError::ArithmeticOverflow));
    assert_eq!(ctx, before);
}

fn finishing(pool: StakePool, unstaked_at: u64, now: u64) -> FinishUnstakeAll {
    FinishUnstakeAll {
        stake_pool_key: key(POOL),
        stake_pool: pool,
        beneficiary: key(BENEFICIARY),
        member: member(),
        vault_free: key(VAULT_FREE),
        member_stake_key: key(MEMBER_STAKE),
        member_stake: staked_at(1000),
        vault_staked: key(VAULT_STAKED),
        member_pending_unstake: MemberPendingUnstake {
            stake_pool: key(POOL),
            beneficiary: key(BENEFICIARY),
            vault_pending_unstake: key(VAULT_PENDING),
            unstaked_at,
            bump: 250,
        },
        vault_pending_unstake: Vault { address: key(VAULT_PENDING), amount: 300 },
        now,
    }
}

#[test]
fn an_unstake_finishes_once_the_delay_has_passed() {
    let early = finishing(pool(0), 2000, 2059);
    assert_eq!(allow_finish_unstake(&early), Err(SPError::NotAllowedFinishUnstakeYet));
    assert_eq!(finish_unstake_all(early), Err(SPError::NotAllowedFinishUnstakeYet));

    let ctx = finishing(pool(0), 2000, 2060);
    assert_eq!(allow_finish_unstake(&ctx), Ok(()));
    let order = Transfer {
        from: key(VAULT_PENDING),
        to: key(VAULT_FREE),
        authority: key(POOL),
        amount: 300,
    };
    let close_pending = CloseAccount {
        account: key(VAULT_PENDING),
        destination: key(BENEFICIARY),
        authority: key(POOL),
    };
    let close_staked = CloseAccount {
        account: key(VAULT_STAKED),
        destination: key(BENEFICIARY),
        authority: key(MEMBER_STAKE),
    };
    assert_eq!(ctx.transfer_pu_tokens_to_free_vault(300), order);
    assert_eq!(ctx.close_pending_unstake_vault(), close_pending);
    assert_eq!(ctx.close_stake_vault(), close_staked);
    assert_eq!(finish_unstake_all(ctx), Ok((order, close_pending, close_staked)));
}

#[test]
fn the_delay_is_that_of_the_config_in_force() {
    let mut changing = ChangeConfig {
        factory: factory(),
        owner: key(OWNER),
        stake_pool: pool(0),
        now: 2010,
    };
    change_config(&mut changing, Reward::new_fixed(10), 600, 0).unwrap();
    let ctx = finishing(changing.stake_pool.clone(), 2000, 2599);
    assert_eq!(allow_finish_unstake(&ctx), Err(SPError::NotAllowedFinishUnstakeYet));
    let ctx = finishing(changing.stake_pool.clone(), 2000, 2600);
    assert_eq!(allow_finish_unstake(&ctx), Ok(()));

    // a delay whose end cannot be written down never passes
    changing.now = 2020;
    change_config(&mut changing, Reward::new_fixed(10), u64::MAX, 0).unwrap();
    let ctx = finishing(changing.stake_pool, 2000, u64::MAX);
    assert_eq!(allow_finish_unstake(&ctx), Err(SPError::NotAllowedFinishUnstakeYet));
}

#[test]
fn a_withdrawal_takes_all_the_free_tokens() {
    let ctx = WithdrawAll {
        member_key: key(MEMBER),
        member: member(),
        vault_free: Vault { address: key(VAULT_FREE), amount: 321 },
        beneficiary: key(BENEFICIARY),
        beneficiary_token_account: key(WALLET),
    };
    let order = Transfer {
        from: key(VAULT_FREE),
        to: key(WALLET),
        authority: key(MEMBER),
        amount: 321,
    };
    assert_eq!(withdraw_all(&ctx), order);
    assert_eq!(ctx.transfer_free_vault_tokens_to_beneficiary(), order);
}

#[test]
fn is_wf_tells_a_sound_pool_from_a_broken_one() {
    let sound = pool(0);
    assert!(sound.is_wf());

    let mut interest = sound.clone();
    interest.owner_interest_percent = 0;
    assert!(!interest.is_wf());
    interest.owner_interest_percent = 100;
    assert!(!interest.is_wf());

    let mut empty = sound.clone();
    empty.config_history = ConfigHistory::new(4);
    assert!(!empty.is_wf());

    let mut ended = sound.clone();
    ended.config_history.close_last(5);
    assert!(!ended.is_wf());

    let first = StakePoolConfig::new(0, 0, 0, Reward::new_fixed(10)).unwrap();
    let mut unlinked = sound.clone();
    unlinked.config_history = ConfigHistory::new(4);
    unlinked.config_history.append(StakePoolConfig { ended_at: Some(10), ..first });
    unlinked.config_history.append(StakePoolConfig { started_at: 11, ..first });
    assert!(!unlinked.is_wf());

    let mut two_in_force = sound.clone();
    two_in_force.config_history = ConfigHistory::new(4);
    two_in_force.config_history.append(first);
    two_in_force.config_history.append(first);
    assert!(!two_in_force.is_wf());

    let mut mixed = sound.clone();
    mixed.config_history = ConfigHistory::new(4);
    mixed.config_history.append(StakePoolConfig { ended_at: Some(10), ..first });
    mixed.config_history.append(StakePoolConfig::new(10, 0, 0, Reward::new_unfixed(5)).unwrap());
    assert!(!mixed.is_wf());

    let mut out_of_range = sound.clone();
    out_of_range.config_history = ConfigHistory::new(4);
    out_of_range.config_history.append(StakePoolConfig { reward_type: Reward::new_fixed(100), ..first });
    assert!(!out_of_range.is_wf());
    out_of_range.config_history = ConfigHistory::new(4);
    out_of_range.config_history.append(StakePoolConfig {
        ended_at: Some(10),
        unstake_forced_fee_percent: 101,
        ..first
    });
    out_of_range.config_history.append(StakePoolConfig { started_at: 10, ..first });
    assert!(!out_of_range.is_wf());

    let mut linked = sound.clone();
    linked.config_history = ConfigHistory::new(4);
    linked.config_history.append(StakePoolConfig { ended_at: Some(10), ..first });
    linked.config_history.append(StakePoolConfig { started_at: 10, ..first });
    assert!(linked.is_wf());

    let mut slots = sound.clone();
    slots.config_history.history.push(None);
    assert!(slots.is_wf());
    slots.config_history = ConfigHistory::new(1);
    assert!(!slots.is_wf());
}

#[test]
fn a_stake_lives_from_deposit_to_withdrawal() {
    let mut free: u64 = 0;
    let mut wallet: u64 = 1_000;

    let depositing = Deposit {
        member: member(),
        vault_free: Vault { address: key(VAULT_FREE), amount: free },
        beneficiary: key(BENEFICIARY),
        beneficiary_token_account: Vault { address: key(WALLET), amount: wallet },
    };
    let order = deposit(&depositing, 400).unwrap();
    wallet -= order.amount;
    free += order.amount;

    let mut ctx = staking(pool(0), free, 100);
    let (member_stake, order) = stake(&mut ctx, 251, 400).unwrap();
    free -= order.amount;
    let mut staked = order.amount;
    let pool = ctx.stake_pool;
    assert_eq!(pool.total_staked_tokens, 400);

    let mut claiming = claim(pool, member_stake, staked, 10_000, 100 + 3 * 500 + 17);
    let (to_member, to_owner) = claim_reward(&mut claiming).unwrap();
    assert_eq!(to_member.amount + to_owner.amount, 120);
    assert_eq!(to_owner.amount, 12);
    let member_stake = claiming.member_stake;
    assert_eq!(member_stake.reward_payed_for, 1600);

    let mut ctx = unstaking(claiming.stake_pool, staked, 1700);
    ctx.member_stake = member_stake;
    let (unstake, order) = start_unstake_all(&mut ctx, 250).unwrap();
    staked -= order.amount;
    let pending = order.amount;
    assert_eq!(staked, 0);
    assert_eq!(ctx.stake_pool.total_staked_tokens, 0);

    let mut ctx = finishing(ctx.stake_pool, unstake.unstaked_at, 1760);
    ctx.member_pending_unstake = unstake;
    ctx.vault_pending_unstake.amount = pending;
    let (order, _, _) = finish_unstake_all(ctx).unwrap();
    free += order.amount;

    let withdrawing = WithdrawAll {
        member_key: key(MEMBER),
        member: member(),
        vault_free: Vault { address: key(VAULT_FREE), amount: free },
        beneficiary: key(BENEFICIARY),
        beneficiary_token_account: key(WALLET),
    };
    wallet += withdraw_all(&withdrawing).amount;
    assert_eq!(wallet, 1_000);
}

#[test]
fn a_claim_waits_one_period_since_the_staking_and_since_the_time_paid_through() {
    // staked at 1000 and paid through 1200, with periods of 500 s
    let mut member_stake = staked_at(1000);
    member_stake.reward_payed_for = 1200;
    assert!(member_stake.is_wf());
    let mut ctx = claim(pool(0), member_stake, 100, 1_000, 1499);
    let before = ctx.clone();
    // within the first period since the staking
    assert_eq!(ctx.calculate_reward_tokens(), Err(SPError::RewardPeriodNotPassed));
    assert_eq!(claim_reward(&mut ctx), Err(SPError::RewardPeriodNotPassed));
    assert_eq!(ctx, before);
    // one period since the staking, not yet one since the time paid through
    ctx.now = 1500;
    assert_eq!(claim_reward(&mut ctx), Err(SPError::RewardPeriodNotPassed));
    ctx.now = 1699;
    assert_eq!(claim_reward(&mut ctx), Err(SPError::RewardPeriodNotPassed));
    ctx.now = before.now;
    assert_eq!(ctx, before);
    ctx.now = 1700;
    let (to_member, to_owner) = claim_reward(&mut ctx).unwrap();
    assert_eq!(to_member.amount + to_owner.amount, 10);
    assert_eq!(ctx.member_stake.staked_at, 1000);
    assert_eq!(ctx.member_stake.reward_payed_for, 1700);
    assert!(ctx.member_stake.is_wf());
}

#[test]
fn a_stake_is_never_paid_through_a_time_before_it_began() {
    let mut member_stake = staked_at(100);
    assert!(member_stake.is_wf());
    member_stake.reward_payed_for = 0;
    assert!(!member_stake.is_wf());
    member_stake.reward_payed_for = 99;
    assert!(!member_stake.is_wf());
    member_stake.reward_payed_for = 101;
    assert!(member_stake.is_wf());

    // a new stake is paid through its own start, and a claim keeps it so
    let mut ctx = staking(pool(0), 300, 1200);
    let (member_stake, _) = stake(&mut ctx, 251, 300).unwrap();
    assert_eq!(member_stake.staked_at, member_stake.reward_payed_for);
    assert!(member_stake.is_wf());
    let mut claiming = claim(ctx.stake_pool, member_stake, 300, 1_000, 1200 + 2 * 500 + 1);
    claim_reward(&mut claiming).unwrap();
    assert_eq!(claiming.member_stake.staked_at, 1200);
    assert_eq!(claiming.member_stake.reward_payed_for, 2200);
    assert!(claiming.member_stake.is_wf());
}

#[test]
fn a_claim_is_sound_when_its_pool_and_its_stake_are() {
    let sound = claim(pool(0), staked_at(1000), 100, 1_000, 1500);
    assert!(sound.is_wf());

    let mut before_it_began = sound.clone();
    before_it_began.member_stake.reward_payed_for = 999;
    assert!(!before_it_began.is_wf());

    // the pool has given out the cursor 0 and no other
    let mut never_given_out = sound.clone();
    never_given_out.member_stake.config_cursor = 1;
    assert!(!never_given_out.is_wf());

    let mut broken_pool = sound.clone();
    broken_pool.stake_pool.owner_interest_percent = 0;
    assert!(!broken_pool.is_wf());

    // a claim leaves the records sound, and the cursor at an entry that the pool holds
    let mut changing = ChangeConfig {
        factory: factory(),
        owner: key(OWNER),
        stake_pool: pool(0),
        now: 0,
    };
    for i in 1..=5u64 {
        changing.now = i * 100;
        change_config(&mut changing, Reward::new_fixed(10), 60, 0).unwrap();
    }
    let mut ctx = claim(changing.stake_pool, staked_at(0), 100, 1_000, 1000);
    assert!(ctx.is_wf());
    let tail = ctx.stake_pool.config_history.tail();
    let head = ctx.stake_pool.config_history.head();
    assert_eq!((tail, head), (3, 6));
    claim_reward(&mut ctx).unwrap();
    assert!(ctx.is_wf());
    assert_eq!(ctx.member_stake.config_cursor, 5);
    assert!(tail <= ctx.member_stake.config_cursor && ctx.member_stake.config_cursor < head);
}
