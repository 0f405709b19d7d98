use vstd::prelude::*;
use crate::account::Address;
use crate::account::Factory;
use crate::account::StakePool;
use crate::error::SPError;
use crate::reward::Reward;

verus! {

/// What a change of a pool's configuration works on.
#[derive(Clone, Debug, PartialEq, Eq)]
pub struct ChangeConfig {
    pub factory: Factory,
    /// Who asks for the change.
    pub owner: Address,
    pub stake_pool: StakePool,
    /// The time of the operation.
    pub now: u64,
}

impl ChangeConfig {
    /// Why a change to these rules is refused: the first check that fails, in this order,
    /// or `None`. Only the owner changes a pool, and a pool keeps its kind of reward.
    pub open spec fn refusal(self, reward: Reward, unstake_forced_fee_percent: u8) -> Option<
        SPError,
    > {
        if self.owner != self.factory.owner {
            Some(SPError::NewPoolOwnerMismatch)
        } else if reward is Fixed && reward.metadata() <= 1 {
            Some(SPError::RewardRateTooSmall)
        } else if reward is Fixed && reward.metadata() >= 100 {
            Some(SPError::RewardRateTooHigh)
        } else if reward is Unfixed && reward.metadata() == 0 {
            Some(SPError::TokensToShareEmpty)
        } else if unstake_forced_fee_percent > 100 {
            Some(SPError::UnstakeForcedFeeWrong)
        } else if !(reward is Fixed <==> self.stake_pool.active().reward_type is Fixed) {
            Some(SPError::RewardTypeMismatch)
        } else if self.stake_pool.config_history.head == u32::MAX {
            Some(SPError::ArithmeticOverflow)
        } else {
            None
        }
    }
}

} // verus!
