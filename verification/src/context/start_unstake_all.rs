use vstd::prelude::*;
use crate::account::Address;
use crate::account::MemberStake;
use crate::account::StakePool;
use crate::account::Transfer;
use crate::account::Vault;

verus! {

/// What the start of an unstake works on.
#[derive(Clone, Debug, PartialEq, Eq)]
pub struct StartUnstakeAll {
    /// Where the pool record is kept.
    pub stake_pool_key: Address,
    pub stake_pool: StakePool,
    pub beneficiary: Address,
    /// Where the stake record is kept; the staked vault answers to it.
    pub member_stake_key: Address,
    pub member_stake: MemberStake,
    /// The member's staked tokens.
    pub vault_staked: Vault,
    /// The new holding for the tokens on their way out.
    pub vault_pending_unstake: Address,
    /// The time of the operation.
    pub now: u64,
}

impl StartUnstakeAll {
    /// The order that moves tokens from the staked vault into the pending vault, in the
    /// stake's name.
    pub fn transfer_staked_tokens_to_pu_vault(&self, amount: u64) -> (r: Transfer)
        ensures
            r == (Transfer {
                from: self.vault_staked.address,
                to: self.vault_pending_unstake,
                authority: self.member_stake_key,
                amount,
            }),
    {
        Transfer {
            from: self.vault_staked.address,
            to: self.vault_pending_unstake,
            authority: self.member_stake_key,
            amount,
        }
    }
}

} // verus!
