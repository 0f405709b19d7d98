//! The records that each operation works on, as the host ledger hands them over, and the
//! orders that the operation gives back to the host.

pub mod initialize;
pub mod new_stake_pool;
pub mod change_config;
pub mod create_member;
pub mod deposit;
pub mod deposit_reward;
pub mod stake;
pub mod claim_reward;
pub mod start_unstake_all;
pub mod finish_unstake_all;
pub mod withdraw_all;
