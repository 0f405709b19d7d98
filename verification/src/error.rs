//! Why an operation is refused.

use vstd::prelude::*;

verus! {

/// Failures reported by the staking rules.
///
/// Every operation that fails leaves the records it was given unchanged.
#[derive(Clone, Copy, Debug, PartialEq, Eq, Structural)]
pub enum SPError {
    /// A new instance of the stake pool can be created only by the owner of the program.
    NewPoolOwnerMismatch,
    /// The reward type is unknown.
    RewardTypeMismatch,
    /// The stake pool address is invalid.
    StakePoolPDAInvalid,
    /// Not enough tokens for the deposit.
    InsufficientAmountOfTokensToDeposit,
    /// The current stake is zero tokens.
    UserStakeZero,
    /// A full reward period has to pass before a reward can be claimed.
    RewardPeriodNotPassed,
    /// Not enough reward tokens in the reward vault.
    InsufficientAmountOfTokensToClaim,
    /// The reward rate has to be greater than 1.
    RewardRateTooSmall,
    /// The reward rate has to be lower than 100.
    RewardRateTooHigh,
    /// No reward tokens are available for sharing between stakers.
    TokensToShareEmpty,
    /// No staked tokens.
    NoStakedTokens,
    /// The unstake delay has not passed yet.
    NotAllowedFinishUnstakeYet,
    /// The owner interest has to be between 1% and 99%.
    OwnerInterestWrong,
    /// The free vault holds fewer tokens than are to be staked.
    NotEnoughFreeVaultAmount,
    /// The fee for a forced unstake has to be at most 100%.
    UnstakeForcedFeeWrong,
    /// A configuration history has to have room for at least two entries.
    HistoryCapacityTooSmall,
    /// A quantity left the range of its integer type, or a division had no divisor.
    ArithmeticOverflow,
}

} // verus!
