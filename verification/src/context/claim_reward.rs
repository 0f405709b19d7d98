use vstd::prelude::*;
use crate::account::Address;
use crate::account::Factory;
use crate::account::MemberStake;
use crate::account::StakePool;
use crate::account::Transfer;
use crate::account::Vault;
use crate::accrual::accrue;
use crate::accrual::accrued;
use crate::accrual::law_claim_moves_forward;
use crate::accrual::Accrual;
use crate::error::SPError;

verus! {

/// What a claim of a reward works on.
#[derive(Clone, Debug, PartialEq, Eq)]
pub struct ClaimReward {
    /// Where the factory record is kept; the reward vault answers to it.
    pub factory_key: Address,
    pub factory: Factory,
    pub stake_pool: StakePool,
    pub member_stake: MemberStake,
    /// The member's staked tokens.
    pub vault_staked: Vault,
    /// The tokens that rewards are paid from.
    pub vault_reward: Vault,
    /// Where the member receives the reward.
    pub beneficiary_reward_vault: Address,
    /// Where the owner receives the fee.
    pub owner_fee_reward_vault: Address,
    /// The time of the operation.
    pub now: u64,
}

/// The owner's part of a reward: the owner's percentage of it, rounded down, but no less
/// than the owner's minimum.
pub open spec fn owner_fee(reward: u64, owner_interest_percent: u8, min_owner_reward: u32) -> int {
    let share = reward * owner_interest_percent / 100;
    if share < min_owner_reward {
        min_owner_reward as int
    } else {
        share
    }
}

impl ClaimReward {
    /// The pool and the stake are sound, and the stake's cursor is one that the pool has
    /// given out: a stake starts at the configuration in force, and a claim leaves it at
    /// one that the history holds.
    pub open spec fn wf(self) -> bool {
        &&& self.stake_pool.wf()
        &&& self.member_stake.wf()
        &&& self.member_stake.config_cursor < self.stake_pool.config_history.head
    }

    /// Tests `wf`, for records that were not made by the operations of this library.
    pub fn is_wf(&self) -> (r: bool)
        ensures
            r == self.wf(),
    {
        self.stake_pool.is_wf() && self.member_stake.is_wf() && self.member_stake.config_cursor
            < self.stake_pool.config_history.head()
    }

    /// What the stake has earned since the last claim, by the configurations of its pool.
    pub open spec fn accrual(self) -> Result<Accrual, SPError> {
        accrued(
            self.stake_pool.config_history@,
            self.member_stake.config_cursor,
            self.member_stake.reward_payed_for,
            self.now,
            self.stake_pool.ends_at,
            self.stake_pool.reward_period,
            self.vault_staked.amount,
            self.stake_pool.total_staked_tokens,
        )
    }

    /// The order that pays `amount` out of the reward vault into `to`.
    pub open spec fn payment(self, to: Address, amount: int) -> Transfer {
        Transfer {
            from: self.vault_reward.address,
            to,
            authority: self.factory_key,
            amount: amount as u64,
        }
    }

    /// The outcome of the claim: the stake as the claim leaves it, the order that pays the
    /// member and the order that pays the owner; or why the claim is refused.
    pub open spec fn claimed(self) -> Result<(MemberStake, Transfer, Transfer), SPError> {
        match self.accrual() {
            Err(refused) => Err(refused),
            Ok(a) => {
                let fee = owner_fee(
                    a.reward,
                    self.stake_pool.owner_interest_percent,
                    self.stake_pool.min_owner_reward,
                );
                if a.reward > self.vault_reward.amount {
                    Err(SPError::InsufficientAmountOfTokensToClaim)
                } else if fee > a.reward {
                    Err(SPError::ArithmeticOverflow)
                } else {
                    Ok(
                        (
                            MemberStake {
                                reward_payed_for: a.reward_payed_for,
                                config_cursor: a.config_cursor,
                                ..self.member_stake
                            },
                            self.payment(self.beneficiary_reward_vault, a.reward - fee),
                            self.payment(self.owner_fee_reward_vault, fee),
                        ),
                    )
                }
            },
        }
    }

    /// What the stake has earned since the last claim, and where the next claim resumes.
    ///
    /// No reward is owed before one full period has passed, neither since the staking
    /// started nor since the time that the last claim paid through.
    pub fn calculate_reward_tokens(&self) -> (r: Result<Accrual, SPError>)
        requires
            self.wf(),
        ensures
            r == self.accrual(),
            self.vault_staked.amount == 0 ==> r == Err::<Accrual, SPError>(SPError::UserStakeZero),
            self.vault_staked.amount > 0 && (self.now < self.member_stake.staked_at
                + self.stake_pool.reward_period || self.now < self.member_stake.reward_payed_for
                + self.stake_pool.reward_period) ==> r == Err::<Accrual, SPError>(
                SPError::RewardPeriodNotPassed,
            ),
            r matches Ok(a) ==> {
                &&& self.member_stake.staked_at <= self.member_stake.reward_payed_for
                    <= a.reward_payed_for <= self.now
                &&& self.member_stake.config_cursor <= a.config_cursor
                &&& self.stake_pool.config_history.tail <= a.config_cursor
                    < self.stake_pool.config_history.head
            },
    {
        proof {
            self.stake_pool.config_history.lemma_view();
            law_claim_moves_forward(
                self.stake_pool.config_history@,
                self.member_stake.config_cursor,
                self.member_stake.reward_payed_for,
                self.now,
                self.stake_pool.ends_at,
                self.stake_pool.reward_period,
                self.vault_staked.amount,
                self.stake_pool.total_staked_tokens,
            );
        }
        accrue(
            &self.stake_pool.config_history,
            self.member_stake.config_cursor,
            self.member_stake.reward_payed_for,
            self.now,
            self.stake_pool.ends_at,
            self.stake_pool.reward_period,
            self.vault_staked.amount,
            self.stake_pool.total_staked_tokens,
        )
    }

    /// Splits a reward between the member and the owner: first the order for the member,
    /// then the one for the owner. A reward smaller than the owner's part cannot be split.
    pub fn transfer_reward_tokens(&self, reward_tokens: u64) -> (r: Result<
        (Transfer, Transfer),
        SPError,
    >)
        ensures
            r is Ok <==> owner_fee(
                reward_tokens,
                self.stake_pool.owner_interest_percent,
                self.stake_pool.min_owner_reward,
            ) <= reward_tokens,
            r matches Ok((to_member, to_owner)) ==> {
                let fee = owner_fee(
                    reward_tokens,
                    self.stake_pool.owner_interest_percent,
                    self.stake_pool.min_owner_reward,
                );
                &&& to_owner == self.payment(self.owner_fee_reward_vault, fee)
                &&& to_member == self.payment(self.beneficiary_reward_vault, reward_tokens - fee)
                &&& to_member.amount + to_owner.amount == reward_tokens
            },
            r matches Err(e) ==> e == SPError::ArithmeticOverflow,
    {
        assert(reward_tokens * self.stake_pool.owner_interest_percent <= 0xffff_ffff_ffff_ffff
            * 0xff) by (nonlinear_arith);
        let share: u128 = (reward_tokens as u128) * (self.stake_pool.owner_interest_percent as u128)
            / 100;
        let least: u128 = self.stake_pool.min_owner_reward as u128;
        let fee: u128 = if share < least {
            least
        } else {
            share
        };
        if fee > reward_tokens as u128 {
            return Err(SPError::ArithmeticOverflow);
        }
        let reward_tokens_for_owner: u64 = fee as u64;
        let reward_tokens_for_user: u64 = reward_tokens - reward_tokens_for_owner;
        Ok(
            (
                self.transfer_reward_tokens_to_user(reward_tokens_for_user),
                self.transfer_reward_tokens_to_owner(reward_tokens_for_owner),
            ),
        )
    }

    fn transfer_reward_tokens_to_user(&self, amount: u64) -> (r: Transfer)
        ensures
            r == self.payment(self.beneficiary_reward_vault, amount as int),
    {
        Transfer {
            from: self.vault_reward.address,
            to: self.beneficiary_reward_vault,
            authority: self.factory_key,
            amount,
        }
    }

    fn transfer_reward_tokens_to_owner(&self, amount: u64) -> (r: Transfer)
        ensures
            r == self.payment(self.owner_fee_reward_vault, amount as int),
    {
        Transfer {
            from: self.vault_reward.address,
            to: self.owner_fee_reward_vault,
            authority: self.factory_key,
            amount,
        }
    }
}

} // verus!
