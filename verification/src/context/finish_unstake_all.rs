use vstd::prelude::*;
use crate::account::Address;
use crate::account::CloseAccount;
use crate::account::Member;
use crate::account::MemberPendingUnstake;
use crate::account::MemberStake;
use crate::account::StakePool;
use crate::account::Transfer;
use crate::account::Vault;

verus! {

/// What the end of an unstake works on.
#[derive(Clone, Debug, PartialEq, Eq)]
pub struct FinishUnstakeAll {
    /// Where the pool record is kept; the pending vault answers to it.
    pub stake_pool_key: Address,
    pub stake_pool: StakePool,
    pub beneficiary: Address,
    pub member: Member,
    /// The member's holding of free tokens.
    pub vault_free: Address,
    /// Where the stake record is kept; the staked vault answers to it.
    pub member_stake_key: Address,
    pub member_stake: MemberStake,
    /// The holding that the staked tokens were in, now empty.
    pub vault_staked: Address,
    pub member_pending_unstake: MemberPendingUnstake,
    /// The tokens on their way out.
    pub vault_pending_unstake: Vault,
    /// The time of the operation.
    pub now: u64,
}

impl FinishUnstakeAll {
    /// The order that moves tokens from the pending vault into the free vault, in the
    /// pool's name.
    pub fn transfer_pu_tokens_to_free_vault(&self, amount: u64) -> (r: Transfer)
        ensures
            r == (Transfer {
                from: self.vault_pending_unstake.address,
                to: self.vault_free,
                authority: self.stake_pool_key,
                amount,
            }),
    {
        Transfer {
            from: self.vault_pending_unstake.address,
            to: self.vault_free,
            authority: self.stake_pool_key,
            amount,
        }
    }

    /// The order that closes the pending vault, in the pool's name, in favour of the
    /// beneficiary.
    pub fn close_pending_unstake_vault(&self) -> (r: CloseAccount)
        ensures
            r == (CloseAccount {
                account: self.vault_pending_unstake.address,
                destination: self.beneficiary,
                authority: self.stake_pool_key,
            }),
    {
        CloseAccount {
            account: self.vault_pending_unstake.address,
            destination: self.beneficiary,
            authority: self.stake_pool_key,
        }
    }

    /// The order that closes the staked vault, in the stake's name, in favour of the
    /// beneficiary.
    pub fn close_stake_vault(&self) -> (r: CloseAccount)
        ensures
            r == (CloseAccount {
                account: self.vault_staked,
                destination: self.beneficiary,
                authority: self.member_stake_key,
            }),
    {
        CloseAccount {
            account: self.vault_staked,
            destination: self.beneficiary,
            authority: self.member_stake_key,
        }
    }
}

} // verus!
