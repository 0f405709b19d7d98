use vstd::prelude::*;
use crate::account::Address;
use crate::account::Member;
use crate::account::Transfer;
use crate::account::Vault;

verus! {

/// What a withdrawal works on.
#[derive(Clone, Copy, Debug, PartialEq, Eq, Structural)]
pub struct WithdrawAll {
    /// Where the member record is kept; the free vault answers to it.
    pub member_key: Address,
    pub member: Member,
    /// The member's free tokens.
    pub vault_free: Vault,
    pub beneficiary: Address,
    /// The beneficiary's own holding, outside the program.
    pub beneficiary_token_account: Address,
}

impl WithdrawAll {
    /// The order that moves all the tokens of the free vault into the beneficiary's own
    /// holding, in the member's name.
    pub fn transfer_free_vault_tokens_to_beneficiary(&self) -> (r: Transfer)
        ensures
            r == (Transfer {
                from: self.vault_free.address,
                to: self.beneficiary_token_account,
                authority: self.member_key,
                amount: self.vault_free.amount,
            }),
    {
        let amount = self.vault_free.amount;
        Transfer {
            from: self.vault_free.address,
            to: self.beneficiary_token_account,
            authority: self.member_key,
            amount,
        }
    }
}

} // verus!
