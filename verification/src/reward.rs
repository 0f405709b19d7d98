//! The two ways in which a pool rewards its members, and what each pays for whole reward
//! periods under one configuration.

use vstd::prelude::*;
use vstd::arithmetic::div_mod::lemma_div_multiples_vanish_quotient;
use vstd::arithmetic::div_mod::lemma_fundamental_div_mod;
use vstd::arithmetic::div_mod::lemma_div_is_ordered;
use crate::error::SPError;

verus! {

/// Scale of the fixed-point arithmetic: a share of the pool, and a reward for one period, are
/// counted in ten-thousandths.
pub const PRECISENESS: u128 = 10000;

/// How a pool rewards its members.
#[derive(Clone, Copy, Debug, PartialEq, Eq, Structural)]
pub enum Reward {
    /// A member receives, per reward period, `data` percent of the member's own stake.
    /// E.g. staked tokens: 300, rate: 5 %. Reward: 15 tokens per period (300 * 5 / 100).
    Fixed { data: u128 },
    /// `data` tokens are shared, per reward period, among all members in proportion to
    /// their stakes.
    /// E.g. staked tokens: 300, total staked: 1000, tokens per period: 500.
    /// Reward: 150 tokens per period ((300 / 1000) * 500).
    Unfixed { data: u128 },
}

impl Reward {
    /// The rate, or the tokens to share, whichever the variant carries.
    pub open spec fn metadata(self) -> u128 {
        match self {
            Reward::Fixed { data } => data,
            Reward::Unfixed { data } => data,
        }
    }

    /// A fixed rate lies strictly between 1 and 100; a pool to share is not empty.
    pub open spec fn valid(self) -> bool {
        match self {
            Reward::Fixed { data } => 1 < data < 100,
            Reward::Unfixed { data } => data > 0,
        }
    }

    /// A member's share of the pool in ten-thousandths, rounded down.
    pub open spec fn share(staked: int, total: int) -> int
        recommends
            total > 0,
    {
        staked * 10000 / total
    }

    /// What a stake earns in one reward period, in ten-thousandths of a token.
    pub open spec fn unit_reward(self, staked: int, total: int) -> int {
        match self {
            Reward::Fixed { data } => staked * data * 100,
            Reward::Unfixed { data } => data * Self::share(staked, total),
        }
    }

    /// Whether `unit_reward` has a value: sharing a pool needs somebody to share it with.
    pub open spec fn unit_defined(self, total: int) -> bool {
        self is Fixed || total > 0
    }

    /// What a stake earns over `periods` whole reward periods, rounded down once at the end.
    pub open spec fn reward_for(self, staked: int, total: int, periods: int) -> int {
        self.unit_reward(staked, total) * periods / 10000
    }

    /// The time up to which rewards accrue: now, or the end of the program if that came first.
    pub open spec fn last_reward_time(current_time: u64, program_ends_at: u64) -> u64 {
        if program_ends_at > current_time {
            current_time
        } else {
            program_ends_at
        }
    }

    /// The number of whole reward periods that passed between `staked_at` and `until`.
    pub open spec fn whole_periods(staked_at: u64, until: u64, reward_period: u64) -> int
        recommends
            staked_at <= until,
            reward_period > 0,
    {
        (until - staked_at) / (reward_period as int)
    }

    /// The outcome of `calculate`: the first refusal in the order below, or the reward for
    /// the whole periods that passed together with the time paid through.
    pub open spec fn calculated(
        self,
        current_time: u64,
        program_ends_at: u64,
        staked_at: u64,
        staked_by_user: u64,
        reward_period: u64,
        total_staked: u128,
    ) -> Result<(u64, u64), SPError> {
        let until = Self::last_reward_time(current_time, program_ends_at);
        let periods = Self::whole_periods(staked_at, until, reward_period);
        let reward = self.reward_for(staked_by_user as int, total_staked as int, periods);
        if staked_by_user == 0 {
            Err(SPError::UserStakeZero)
        } else if current_time < staked_at + reward_period {
            Err(SPError::RewardPeriodNotPassed)
        } else if until < staked_at || reward_period == 0 {
            Err(SPError::ArithmeticOverflow)
        } else if self is Fixed && self.metadata() <= 1 {
            Err(SPError::RewardRateTooSmall)
        } else if self is Fixed && self.metadata() >= 100 {
            Err(SPError::RewardRateTooHigh)
        } else if self is Unfixed && self.metadata() == 0 {
            Err(SPError::TokensToShareEmpty)
        } else if !self.unit_defined(total_staked as int) || reward > u64::MAX {
            Err(SPError::ArithmeticOverflow)
        } else {
            Ok((reward as u64, (staked_at + periods * reward_period) as u64))
        }
    }

    /// A reward of `reward_rate` percent of the stake per period. The rate is not
    /// validated here.
    pub fn new_fixed(reward_rate: u8) -> (r: Reward)
        ensures
            r == (Reward::Fixed { data: reward_rate as u128 }),
    {
        Reward::Fixed { data: reward_rate as u128 }
    }

    /// A reward of `reward_tokens_per_period` tokens per period, shared among all stakes.
    /// The amount is not validated here.
    pub fn new_unfixed(reward_tokens_per_period: u128) -> (r: Reward)
        ensures
            r == (Reward::Unfixed { data: reward_tokens_per_period }),
    {
        Reward::Unfixed { data: reward_tokens_per_period }
    }

    /// Whether the reward is a fixed rate.
    pub fn is_fixed(&self) -> (r: bool)
        ensures
            r == (self is Fixed),
    {
        match self {
            Reward::Fixed { .. } => true,
            Reward::Unfixed { .. } => false,
        }
    }

    /// Validates the range of the variant's parameter.
    pub fn validate(&self) -> (r: Result<(), SPError>)
        ensures
            r is Ok <==> self.valid(),
            r == Err::<(), SPError>(SPError::RewardRateTooSmall) <==> self is Fixed
                && self.metadata() <= 1,
            r == Err::<(), SPError>(SPError::RewardRateTooHigh) <==> self is Fixed
                && self.metadata() >= 100,
            r == Err::<(), SPError>(SPError::TokensToShareEmpty) <==> self is Unfixed
                && self.metadata() == 0,
    {
        match self {
            Reward::Fixed { data } => {
                if *data <= 1 {
                    Err(SPError::RewardRateTooSmall)
                } else if *data >= 100 {
                    Err(SPError::RewardRateTooHigh)
                } else {
                    Ok(())
                }
            },
            Reward::Unfixed { data } => {
                if *data == 0 {
                    Err(SPError::TokensToShareEmpty)
                } else {
                    Ok(())
                }
            },
        }
    }

    /// What a stake earns in one reward period, in ten-thousandths of a token: `None` where
    /// that has no value or does not fit.
    pub fn unit(&self, staked: u64, total: u128) -> (r: Option<u128>)
        ensures
            r is Some <==> self.unit_defined(total as int) && self.unit_reward(
                staked as int,
                total as int,
            ) <= u128::MAX,
            r matches Some(u) ==> u == self.unit_reward(staked as int, total as int),
    {
        match self {
            Reward::Fixed { data } => {
                let rate: u128 = *data;
                match (staked as u128).checked_mul(rate) {
                    None => {
                        assert(staked * rate * 100 >= staked * rate) by (nonlinear_arith);
                        None
                    },
                    Some(weighted) => weighted.checked_mul(100),
                }
            },
            Reward::Unfixed { data } => {
                if total == 0 {
                    None
                } else {
                    let share: u128 = (staked as u128) * PRECISENESS / total;
                    (*data).checked_mul(share)
                }
            },
        }
    }

    /// The reward for the whole reward periods that passed since `staked_at`, and the time up
    /// to which it pays.
    ///
    /// Rewards stop accruing at `program_ends_at`. A stake of zero earns nothing and is
    /// refused; so is a claim before one full period has passed. Then the parameter of the
    /// variant is validated. A result that does not fit, a period of zero and a pool shared
    /// by nobody are arithmetic failures.
    pub fn calculate(
        &self,
        current_time: u64,
        program_ends_at: u64,
        staked_at: u64,
        staked_by_user: u64,
        reward_period: u64,
        total_staked: u128,
    ) -> (r: Result<(u64, u64), SPError>)
        ensures
            r == self.calculated(
                current_time,
                program_ends_at,
                staked_at,
                staked_by_user,
                reward_period,
                total_staked,
            ),
            r matches Ok((reward, paid_for)) ==> {
                let periods = Self::whole_periods(
                    staked_at,
                    Self::last_reward_time(current_time, program_ends_at),
                    reward_period,
                );
                &&& paid_for == staked_at + periods * reward_period
                &&& staked_at <= paid_for <= current_time
                &&& self is Fixed ==> reward == staked_by_user * self.metadata() * periods / 100
            },
    {
        if staked_by_user == 0 {
            return Err(SPError::UserStakeZero);
        }
        if reward_period > current_time || staked_at > current_time - reward_period {
            return Err(SPError::RewardPeriodNotPassed);
        }
        let until: u64 = if program_ends_at > current_time {
            current_time
        } else {
            program_ends_at
        };
        if until < staked_at || reward_period == 0 {
            return Err(SPError::ArithmeticOverflow);
        }
        let periods: u64 = (until - staked_at) / reward_period;
        proof {
            lemma_fundamental_div_mod((until - staked_at) as int, reward_period as int);
            assert(reward_period * periods == periods * reward_period) by (nonlinear_arith);
        }
        let paid_for: u64 = staked_at + periods * reward_period;
        proof {
            Self::law_fixed_reward_is_rate_times_periods(
                self.metadata(),
                staked_by_user as nat,
                total_staked as int,
                periods as nat,
            );
        }
        match self.validate() {
            Err(e) => {
                return Err(e);
            },
            Ok(()) => {},
        }
        let ghost unit_int = self.unit_reward(staked_by_user as int, total_staked as int);
        let shared_by_nobody: bool = match self {
            Reward::Fixed { .. } => false,
            Reward::Unfixed { .. } => total_staked == 0,
        };
        if shared_by_nobody {
            return Err(SPError::ArithmeticOverflow);
        }
        if periods == 0 {
            assert(unit_int * 0 == 0) by (nonlinear_arith);
            return Ok((0, paid_for));
        }
        let unit: u128 = match self.unit(staked_by_user, total_staked) {
            Some(u) => u,
            None => {
                proof {
                    assert(unit_int * periods >= unit_int) by (nonlinear_arith)
                        requires
                            unit_int >= 0,
                            periods >= 1,
                    ;
                    lemma_div_is_ordered(
                        0x1_0000_0000_0000_0000_0000_0000_0000_0000int,
                        unit_int * periods,
                        10000,
                    );
                }
                return Err(SPError::ArithmeticOverflow);
            },
        };
        let scaled: u128 = match unit.checked_mul(periods as u128) {
            Some(n) => n,
            None => {
                proof {
                    lemma_div_is_ordered(
                        0x1_0000_0000_0000_0000_0000_0000_0000_0000int,
                        unit_int * periods,
                        10000,
                    );
                }
                return Err(SPError::ArithmeticOverflow);
            },
        };
        let reward: u128 = scaled / PRECISENESS;
        if reward > u64::MAX as u128 {
            return Err(SPError::ArithmeticOverflow);
        }
        Ok((reward as u64, paid_for))
    }

    /// Under a fixed rate a stake earns, over any number of whole periods, that percentage of
    /// itself once per period, rounded down once: `staked * rate / 100 * periods`.
    pub proof fn law_fixed_reward_is_rate_times_periods(rate: u128, staked: nat, total: int, periods: nat)
        ensures
            (Reward::Fixed { data: rate }).reward_for(staked as int, total, periods as int)
                == staked * rate * periods / 100,
    {
        let weighted = staked * rate * periods;
        assert(staked * rate * 100 * periods == 100 * weighted && weighted >= 0)
            by (nonlinear_arith)
            requires
                weighted == staked * rate * periods,
        ;
        lemma_div_multiples_vanish_quotient(100, weighted, 100);
    }
}

} // verus!
