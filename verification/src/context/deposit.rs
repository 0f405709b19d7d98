use vstd::prelude::*;
use crate::account::Address;
use crate::account::Member;
use crate::account::Transfer;
use crate::account::Vault;

verus! {

/// What a deposit works on.
#[derive(Clone, Copy, Debug, PartialEq, Eq, Structural)]
pub struct Deposit {
    pub member: Member,
    /// The member's free tokens, kept by the program.
    pub vault_free: Vault,
    pub beneficiary: Address,
    /// The beneficiary's own holding, outside the program.
    pub beneficiary_token_account: Vault,
}

impl Deposit {
    /// The order that moves tokens from the beneficiary's own holding into the free vault,
    /// in the beneficiary's name.
    pub fn transfer_user_tokens_to_program(&self, amount_to_deposit: u64) -> (r: Transfer)
        ensures
            r == (Transfer {
                from: self.beneficiary_token_account.address,
                to: self.vault_free.address,
                authority: self.beneficiary,
                amount: amount_to_deposit,
            }),
    {
        Transfer {
            from: self.beneficiary_token_account.address,
            to: self.vault_free.address,
            authority: self.beneficiary,
            amount: amount_to_deposit,
        }
    }
}

} // verus!
