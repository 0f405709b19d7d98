use vstd::prelude::*;
use crate::account::Address;
use crate::account::Factory;
use crate::error::SPError;
use crate::reward::Reward;

verus! {

/// What the creation of a pool works on.
#[derive(Clone, Copy, Debug, PartialEq, Eq, Structural)]
pub struct NewStakePool {
    pub factory: Factory,
    /// Who asks for the pool.
    pub owner: Address,
    /// The time of the operation.
    pub now: u64,
}

impl NewStakePool {
    /// Why a pool with these parameters is refused: the first check that fails, in this
    /// order, or `None`.
    pub open spec fn refusal(
        self,
        reward: Reward,
        owner_interest_percent: u8,
        unstake_forced_fee_percent: u8,
        history_capacity: u32,
    ) -> Option<SPError> {
        if self.owner != self.factory.owner {
            Some(SPError::NewPoolOwnerMismatch)
        } else if owner_interest_percent == 0 || owner_interest_percent >= 100 {
            Some(SPError::OwnerInterestWrong)
        } else if reward is Fixed && reward.metadata() <= 1 {
            Some(SPError::RewardRateTooSmall)
        } else if reward is Fixed && reward.metadata() >= 100 {
            Some(SPError::RewardRateTooHigh)
        } else if reward is Unfixed && reward.metadata() == 0 {
            Some(SPError::TokensToShareEmpty)
        } else if unstake_forced_fee_percent > 100 {
            Some(SPError::UnstakeForcedFeeWrong)
        } else if history_capacity < 2 {
            Some(SPError::HistoryCapacityTooSmall)
        } else {
            None
        }
    }
}

} // verus!
