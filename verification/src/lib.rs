//! Reward accrual for staked positions across a bounded history of pool configurations.
//!
//! A member deposits tokens, stakes them in a pool, claims rewards while they are staked,
//! unstakes them and withdraws them. What a stake earns depends on the configurations that
//! the pool had while the tokens were staked; the pool keeps the most recent of them in a
//! ring. Tokens themselves are kept by the host ledger: an operation checks what it is
//! given, changes the records, and returns the orders that the host carries out.

use vstd::prelude::*;

pub mod error;
pub mod reward;
pub mod history;
pub mod accrual;
pub mod account;
pub mod context;
pub mod access_control;

use crate::access_control::allow_finish_unstake;
use crate::access_control::unstake_delay_passed;
use crate::account::Address;
use crate::account::CloseAccount;
use crate::account::Factory;
use crate::account::Member;
use crate::account::MemberPendingUnstake;
use crate::account::MemberStake;
use crate::account::StakePool;
use crate::account::Transfer;
use crate::context::change_config::ChangeConfig;
use crate::context::claim_reward::ClaimReward;
use crate::context::create_member::CreateMember;
use crate::context::deposit::Deposit;
use crate::context::deposit_reward::DepositReward;
use crate::context::finish_unstake_all::FinishUnstakeAll;
use crate::context::initialize::Initialize;
use crate::context::new_stake_pool::NewStakePool;
use crate::context::stake::Stake;
use crate::context::start_unstake_all::StartUnstakeAll;
use crate::context::withdraw_all::WithdrawAll;
use crate::error::SPError;
use crate::history::law_supersede_keeps_chain;
use crate::history::ConfigHistory;
use crate::history::HistoryModel;
use crate::history::StakePoolConfig;
use crate::account::lemma_supersede_keeps_kind;
use crate::reward::Reward;

verus! {

/// Creates the stake factory: fills in the blank factory record.
pub fn initialize(ctx: &mut Initialize, owner: Address)
    ensures
        final(ctx).factory == (Factory {
            bump: old(ctx).bump,
            owner,
            reward_token_mint: old(ctx).reward_token_mint,
            stake_token_mint: old(ctx).stake_token_mint,
            vault_reward: old(ctx).vault_reward,
        }),
        *final(ctx) == (Initialize { factory: final(ctx).factory, ..*old(ctx) }),
{
    ctx.factory.bump = ctx.bump;
    ctx.factory.owner = owner;
    ctx.factory.reward_token_mint = ctx.reward_token_mint;
    ctx.factory.stake_token_mint = ctx.stake_token_mint;
    ctx.factory.vault_reward = ctx.vault_reward;
}

/// Creates a new pool with its first configuration, in force from now, in a history of
/// `history_capacity` slots. Only the owner of the factory creates pools; the parameters
/// of the configuration are checked here, once.
pub fn new_stake_pool(
    ctx: &NewStakePool,
    reward: Reward,
    bump: u8,
    ends_at: Option<u64>,
    min_owner_reward: u32,
    owner_interest_percent: u8,
    unstake_delay: u64,
    unstake_forced_fee_percent: u8,
    reward_period: u64,
    history_capacity: u32,
) -> (r: Result<StakePool, SPError>)
    ensures
        match r {
            Err(e) => ctx.refusal(
                reward,
                owner_interest_percent,
                unstake_forced_fee_percent,
                history_capacity,
            ) == Some(e),
            Ok(pool) => {
                &&& ctx.refusal(
                    reward,
                    owner_interest_percent,
                    unstake_forced_fee_percent,
                    history_capacity,
                ) is None
                &&& pool.wf()
                &&& pool.started_at == ctx.now
                &&& pool.ends_at == ends_at
                &&& pool.total_staked_tokens == 0
                &&& pool.bump == bump
                &&& pool.owner_interest_percent == owner_interest_percent
                &&& pool.min_owner_reward == min_owner_reward
                &&& pool.reward_period == reward_period
                &&& pool.config_history@ == HistoryModel::empty(history_capacity as nat).append(
                    StakePoolConfig {
                        started_at: ctx.now,
                        ended_at: None,
                        unstake_delay,
                        unstake_forced_fee_percent,
                        reward_type: reward,
                    },
                )
            },
        },
{
    if ctx.owner != ctx.factory.owner {
        return Err(SPError::NewPoolOwnerMismatch);
    }
    if owner_interest_percent == 0 || owner_interest_percent >= 100 {
        return Err(SPError::OwnerInterestWrong);
    }
    let config = match StakePoolConfig::new(
        ctx.now,
        unstake_delay,
        unstake_forced_fee_percent,
        reward,
    ) {
        Ok(config) => config,
        Err(e) => {
            return Err(e);
        },
    };
    if history_capacity < 2 {
        return Err(SPError::HistoryCapacityTooSmall);
    }
    let mut config_history = ConfigHistory::new(history_capacity);
    config_history.append(config);
    proof {
        config_history.lemma_view();
    }
    Ok(
        StakePool {
            started_at: ctx.now,
            ends_at,
            total_staked_tokens: 0,
            bump,
            owner_interest_percent,
            min_owner_reward,
            reward_period,
            config_history,
        },
    )
}

/// Changes the configuration of a pool: the configuration in force ends now, and the new
/// one, in force from now, is appended to the history. Returns the cursor of the new
/// configuration. A refused change changes nothing.
pub fn change_config(
    ctx: &mut ChangeConfig,
    reward: Reward,
    unstake_delay: u64,
    unstake_forced_fee_percent: u8,
) -> (r: Result<u32, SPError>)
    requires
        old(ctx).stake_pool.wf(),
    ensures
        match r {
            Err(e) => old(ctx).refusal(reward, unstake_forced_fee_percent) == Some(e) && *final(ctx)
                == *old(ctx),
            Ok(cursor) => {
                &&& old(ctx).refusal(reward, unstake_forced_fee_percent) is None
                &&& cursor == old(ctx).stake_pool.config_history.head
                &&& final(ctx).stake_pool.config_history.head == old(
                    ctx,
                ).stake_pool.config_history.head + 1
                &&& final(ctx).stake_pool.wf()
                &&& final(ctx).stake_pool.config_history@ == old(
                    ctx,
                ).stake_pool.config_history@.supersede(
                    old(ctx).now,
                    StakePoolConfig {
                        started_at: old(ctx).now,
                        ended_at: None,
                        unstake_delay,
                        unstake_forced_fee_percent,
                        reward_type: reward,
                    },
                )
                &&& final(ctx).stake_pool.active().reward_type == reward
                &&& final(ctx).stake_pool == (StakePool {
                    config_history: final(ctx).stake_pool.config_history,
                    ..old(ctx).stake_pool
                })
                &&& *final(ctx) == (ChangeConfig { stake_pool: final(ctx).stake_pool, ..*old(ctx) })
            },
        },
{
    if ctx.owner != ctx.factory.owner {
        return Err(SPError::NewPoolOwnerMismatch);
    }
    let config = match StakePoolConfig::new(
        ctx.now,
        unstake_delay,
        unstake_forced_fee_percent,
        reward,
    ) {
        Ok(config) => config,
        Err(e) => {
            return Err(e);
        },
    };
    let active = ctx.stake_pool.active_config();
    let same_kind: bool = match (reward, active.reward_type) {
        (Reward::Fixed { .. }, Reward::Fixed { .. }) => true,
        (Reward::Unfixed { .. }, Reward::Unfixed { .. }) => true,
        _ => false,
    };
    if !same_kind {
        return Err(SPError::RewardTypeMismatch);
    }
    if ctx.stake_pool.config_history.head() == u32::MAX {
        return Err(SPError::ArithmeticOverflow);
    }
    let ghost before = ctx.stake_pool.config_history@;
    proof {
        ctx.stake_pool.config_history.lemma_view();
        law_supersede_keeps_chain(before, ctx.now, config);
        lemma_supersede_keeps_kind(before, ctx.now, config);
    }
    let cursor = ctx.stake_pool.config_history.supersede(ctx.now, config);
    Ok(cursor)
}

/// Creates the record of a member. One beneficiary and one free vault always give the
/// same record.
pub fn create_member(ctx: &CreateMember, member_bump: u8) -> (r: Member)
    ensures
        r == (Member { beneficiary: ctx.beneficiary, vault_free: ctx.vault_free, bump: member_bump }),
{
    Member { beneficiary: ctx.beneficiary, vault_free: ctx.vault_free, bump: member_bump }
}

/// Moves tokens from the beneficiary's own holding into the member's free vault, if the
/// holding has as many.
///
/// Tokens in the free vault earn nothing. To earn rewards a member stakes them.
pub fn deposit(ctx: &Deposit, amount: u64) -> (r: Result<Transfer, SPError>)
    ensures
        r is Ok <==> amount <= ctx.beneficiary_token_account.amount,
        r matches Ok(order) ==> order == (Transfer {
            from: ctx.beneficiary_token_account.address,
            to: ctx.vault_free.address,
            authority: ctx.beneficiary,
            amount,
        }),
        r matches Err(e) ==> e == SPError::InsufficientAmountOfTokensToDeposit,
{
    let beneficiary_tokens = ctx.beneficiary_token_account.amount;
    if amount > beneficiary_tokens {
        return Err(SPError::InsufficientAmountOfTokensToDeposit);
    }
    Ok(ctx.transfer_user_tokens_to_program(amount))
}

/// Stakes tokens of the free vault in a pool: creates the stake, which starts to earn now
/// under the configuration in force, and counts the tokens into the pool's total.
/// Returns the stake and the order that moves the tokens. A refused stake changes nothing.
pub fn stake(ctx: &mut Stake, member_stake_bump: u8, amount: u64) -> (r: Result<
    (MemberStake, Transfer),
    SPError,
>)
    requires
        old(ctx).stake_pool.wf(),
    ensures
        r is Ok <==> amount <= old(ctx).vault_free.amount && old(ctx).stake_pool.total_staked_tokens
            + amount <= u128::MAX,
        r matches Ok((member_stake, order)) ==> {
            &&& member_stake == (MemberStake {
                stake_pool: old(ctx).stake_pool_key,
                beneficiary: old(ctx).beneficiary,
                vault_staked: old(ctx).vault_staked,
                staked_at: old(ctx).now,
                reward_payed_for: old(ctx).now,
                config_cursor: (old(ctx).stake_pool.config_history.head - 1) as u32,
                bump: member_stake_bump,
            })
            &&& old(ctx).stake_pool.config_history@.get(member_stake.config_cursor as nat) == Some(
                old(ctx).stake_pool.active(),
            )
            &&& order == (Transfer {
                from: old(ctx).vault_free.address,
                to: old(ctx).vault_staked,
                authority: old(ctx).member_key,
                amount,
            })
            &&& final(ctx).stake_pool == (StakePool {
                total_staked_tokens: (old(ctx).stake_pool.total_staked_tokens + amount) as u128,
                ..old(ctx).stake_pool
            })
            &&& member_stake.wf()
            &&& member_stake.config_cursor < final(ctx).stake_pool.config_history.head
            &&& *final(ctx) == (Stake { stake_pool: final(ctx).stake_pool, ..*old(ctx) })
            &&& final(ctx).stake_pool.wf()
        },
        r matches Err(e) ==> {
            &&& *final(ctx) == *old(ctx)
            &&& e == if amount > old(ctx).vault_free.amount {
                SPError::NotEnoughFreeVaultAmount
            } else {
                SPError::ArithmeticOverflow
            }
        },
{
    if amount > ctx.vault_free.amount {
        return Err(SPError::NotEnoughFreeVaultAmount);
    }
    let total = match ctx.stake_pool.total_staked_tokens.checked_add(amount as u128) {
        Some(total) => total,
        None => {
            return Err(SPError::ArithmeticOverflow);
        },
    };
    proof {
        ctx.stake_pool.config_history.lemma_view();
    }
    let member_stake = MemberStake {
        stake_pool: ctx.stake_pool_key,
        beneficiary: ctx.beneficiary,
        vault_staked: ctx.vault_staked,
        staked_at: ctx.now,
        reward_payed_for: ctx.now,
        config_cursor: ctx.stake_pool.config_history.head() - 1,
        bump: member_stake_bump,
    };
    let order = ctx.transfer_tokens_to_staked_vault(amount);
    ctx.stake_pool.total_staked_tokens = total;
    Ok((member_stake, order))
}

/// Deposits a reward for stakers: the order that moves the tokens from the owner's
/// holding into the reward vault.
pub fn deposit_reward(ctx: &DepositReward, amount: u64) -> (r: Transfer)
    ensures
        r == (Transfer {
            from: ctx.vault_owner.address,
            to: ctx.vault_reward.address,
            authority: ctx.owner,
            amount,
        }),
{
    ctx.transfer_tokens_to_reward_vault(amount)
}

/// Claims the reward for the staked tokens: computes what the stake has earned since the
/// last claim, splits it between the member and the owner, and moves the stake's cursor
/// and time paid through forward. Returns the order that pays the member and the order
/// that pays the owner. A refused claim changes nothing.
pub fn claim_reward(ctx: &mut ClaimReward) -> (r: Result<(Transfer, Transfer), SPError>)
    requires
        old(ctx).wf(),
    ensures
        final(ctx).wf(),
        final(ctx).member_stake.staked_at == old(ctx).member_stake.staked_at,
        r matches Ok((to_member, to_owner)) ==> {
            &&& old(ctx).claimed() == Ok::<(MemberStake, Transfer, Transfer), SPError>(
                (final(ctx).member_stake, to_member, to_owner),
            )
            &&& *final(ctx) == ClaimReward { member_stake: final(ctx).member_stake, ..*old(ctx) }
            &&& to_member.amount + to_owner.amount <= old(ctx).vault_reward.amount
            &&& old(ctx).member_stake.reward_payed_for <= final(ctx).member_stake.reward_payed_for
                <= old(ctx).now
            &&& old(ctx).member_stake.config_cursor <= final(ctx).member_stake.config_cursor
            &&& old(ctx).stake_pool.config_history.tail <= final(ctx).member_stake.config_cursor
                < old(ctx).stake_pool.config_history.head
        },
        r matches Err(e) ==> old(ctx).claimed() == Err::<(MemberStake, Transfer, Transfer), SPError>(
            e,
        ) && *final(ctx) == *old(ctx),
        old(ctx).vault_staked.amount == 0 ==> r == Err::<(Transfer, Transfer), SPError>(
            SPError::UserStakeZero,
        ),
        old(ctx).vault_staked.amount > 0 && old(ctx).now < old(ctx).member_stake.staked_at + old(
            ctx,
        ).stake_pool.reward_period ==> r == Err::<(Transfer, Transfer), SPError>(
            SPError::RewardPeriodNotPassed,
        ),
        old(ctx).vault_staked.amount > 0 && old(ctx).now < old(ctx).member_stake.reward_payed_for
            + old(ctx).stake_pool.reward_period ==> r == Err::<(Transfer, Transfer), SPError>(
            SPError::RewardPeriodNotPassed,
        ),
{
    let accrual = match ctx.calculate_reward_tokens() {
        Ok(a) => a,
        Err(e) => {
            return Err(e);
        },
    };
    let reward_tokens_available = ctx.vault_reward.amount;
    if accrual.reward > reward_tokens_available {
        return Err(SPError::InsufficientAmountOfTokensToClaim);
    }
    let transfers = match ctx.transfer_reward_tokens(accrual.reward) {
        Ok(t) => t,
        Err(e) => {
            return Err(e);
        },
    };
    ctx.member_stake.reward_payed_for = accrual.reward_payed_for;
    ctx.member_stake.config_cursor = accrual.config_cursor;
    Ok(transfers)
}

/// Starts to unstake all the tokens of a stake: creates the record of the pending unstake,
/// which starts now, and takes the tokens out of the pool's total. Returns the record and
/// the order that moves the tokens into the pending vault. A refused start changes
/// nothing.
pub fn start_unstake_all(ctx: &mut StartUnstakeAll, member_unstake_bump: u8) -> (r: Result<
    (MemberPendingUnstake, Transfer),
    SPError,
>)
    ensures
        r is Ok <==> 0 < old(ctx).vault_staked.amount <= old(ctx).stake_pool.total_staked_tokens,
        r matches Ok((unstake, order)) ==> {
            &&& unstake == (MemberPendingUnstake {
                stake_pool: old(ctx).stake_pool_key,
                beneficiary: old(ctx).beneficiary,
                vault_pending_unstake: old(ctx).vault_pending_unstake,
                unstaked_at: old(ctx).now,
                bump: member_unstake_bump,
            })
            &&& order == (Transfer {
                from: old(ctx).vault_staked.address,
                to: old(ctx).vault_pending_unstake,
                authority: old(ctx).member_stake_key,
                amount: old(ctx).vault_staked.amount,
            })
            &&& final(ctx).stake_pool == (StakePool {
                total_staked_tokens: (old(ctx).stake_pool.total_staked_tokens - old(
                    ctx,
                ).vault_staked.amount) as u128,
                ..old(ctx).stake_pool
            })
            &&& *final(ctx) == (StartUnstakeAll { stake_pool: final(ctx).stake_pool, ..*old(ctx) })
            &&& old(ctx).stake_pool.wf() ==> final(ctx).stake_pool.wf()
        },
        r matches Err(e) ==> {
            &&& *final(ctx) == *old(ctx)
            &&& e == if old(ctx).vault_staked.amount == 0 {
                SPError::NoStakedTokens
            } else {
                SPError::ArithmeticOverflow
            }
        },
{
    if ctx.vault_staked.amount == 0 {
        return Err(SPError::NoStakedTokens);
    }
    let stake_amount = ctx.vault_staked.amount;
    let total = match ctx.stake_pool.total_staked_tokens.checked_sub(stake_amount as u128) {
        Some(total) => total,
        None => {
            return Err(SPError::ArithmeticOverflow);
        },
    };
    let unstake = MemberPendingUnstake {
        stake_pool: ctx.stake_pool_key,
        beneficiary: ctx.beneficiary,
        vault_pending_unstake: ctx.vault_pending_unstake,
        unstaked_at: ctx.now,
        bump: member_unstake_bump,
    };
    let order = ctx.transfer_staked_tokens_to_pu_vault(stake_amount);
    ctx.stake_pool.total_staked_tokens = total;
    Ok((unstake, order))
}

/// Finishes an unstake once the pool's delay has passed: takes the stake and the pending
/// unstake, which end here, and returns the order that moves the tokens of the pending
/// vault into the free vault, the order that closes the pending vault and the order that
/// closes the staked vault.
pub fn finish_unstake_all(ctx: FinishUnstakeAll) -> (r: Result<
    (Transfer, CloseAccount, CloseAccount),
    SPError,
>)
    requires
        ctx.stake_pool.wf(),
    ensures
        r is Ok <==> unstake_delay_passed(ctx),
        r matches Ok((order, close_pending, close_staked)) ==> {
            &&& order == (Transfer {
                from: ctx.vault_pending_unstake.address,
                to: ctx.vault_free,
                authority: ctx.stake_pool_key,
                amount: ctx.vault_pending_unstake.amount,
            })
            &&& close_pending == (CloseAccount {
                account: ctx.vault_pending_unstake.address,
                destination: ctx.beneficiary,
                authority: ctx.stake_pool_key,
            })
            &&& close_staked == (CloseAccount {
                account: ctx.vault_staked,
                destination: ctx.beneficiary,
                authority: ctx.member_stake_key,
            })
        },
        r matches Err(e) ==> e == SPError::NotAllowedFinishUnstakeYet,
{
    match allow_finish_unstake(&ctx) {
        Ok(()) => {},
        Err(e) => {
            return Err(e);
        },
    }
    let unstake_amount = ctx.vault_pending_unstake.amount;
    let order = ctx.transfer_pu_tokens_to_free_vault(unstake_amount);
    let close_pending = ctx.close_pending_unstake_vault();
    let close_staked = ctx.close_stake_vault();
    Ok((order, close_pending, close_staked))
}

/// Withdraws all the tokens of the free vault to the beneficiary's own holding: the order
/// that moves them.
pub fn withdraw_all(ctx: &WithdrawAll) -> (r: Transfer)
    ensures
        r == (Transfer {
            from: ctx.vault_free.address,
            to: ctx.beneficiary_token_account,
            authority: ctx.member_key,
            amount: ctx.vault_free.amount,
        }),
{
    ctx.transfer_free_vault_tokens_to_beneficiary()
}

} // verus!
