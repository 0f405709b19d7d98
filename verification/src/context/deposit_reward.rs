use vstd::prelude::*;
use crate::account::Address;
use crate::account::Transfer;
use crate::account::Vault;

verus! {

/// What a deposit of reward tokens works on.
#[derive(Clone, Copy, Debug, PartialEq, Eq, Structural)]
pub struct DepositReward {
    /// The owner of the factory.
    pub owner: Address,
    /// The owner's own holding of reward tokens.
    pub vault_owner: Vault,
    /// The tokens that rewards are paid from.
    pub vault_reward: Vault,
}

impl DepositReward {
    /// The order that moves tokens from the owner's holding into the reward vault, in the
    /// owner's name.
    pub fn transfer_tokens_to_reward_vault(&self, amount: u64) -> (r: Transfer)
        ensures
            r == (Transfer {
                from: self.vault_owner.address,
                to: self.vault_reward.address,
                authority: self.owner,
                amount,
            }),
    {
        Transfer {
            from: self.vault_owner.address,
            to: self.vault_reward.address,
            authority: self.owner,
            amount,
        }
    }
}

} // verus!
