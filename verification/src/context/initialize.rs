use vstd::prelude::*;
use crate::account::Address;
use crate::account::Factory;

verus! {

/// What the creation of the factory works on.
#[derive(Clone, Copy, Debug, PartialEq, Eq, Structural)]
pub struct Initialize {
    /// The factory record, still blank.
    pub factory: Factory,
    pub bump: u8,
    pub reward_token_mint: Address,
    pub stake_token_mint: Address,
    pub vault_reward: Address,
}

} // verus!
