use vstd::prelude::*;
use crate::account::Address;
use crate::account::Member;
use crate::account::StakePool;
use crate::account::Transfer;
use crate::account::Vault;

verus! {

/// What staking works on.
#[derive(Clone, Debug, PartialEq, Eq)]
pub struct Stake {
    /// Where the pool record is kept.
    pub stake_pool_key: Address,
    pub stake_pool: StakePool,
    pub beneficiary: Address,
    /// Where the member record is kept; the free vault answers to it.
    pub member_key: Address,
    pub member: Member,
    /// The member's free tokens.
    pub vault_free: Vault,
    /// The new holding for the staked tokens.
    pub vault_staked: Address,
    /// The time of the operation.
    pub now: u64,
}

impl Stake {
    /// The order that moves tokens from the free vault into the staked vault, in the
    /// member's name.
    pub fn transfer_tokens_to_staked_vault(&self, amount_to_stake: u64) -> (r: Transfer)
        ensures
            r == (Transfer {
                from: self.vault_free.address,
                to: self.vault_staked,
                authority: self.member_key,
                amount: amount_to_stake,
            }),
    {
        Transfer {
            from: self.vault_free.address,
            to: self.vault_staked,
            authority: self.member_key,
            amount: amount_to_stake,
        }
    }
}

} // verus!
