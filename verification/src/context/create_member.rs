use vstd::prelude::*;
use crate::account::Address;

verus! {

/// What the creation of a member works on.
#[derive(Clone, Copy, Debug, PartialEq, Eq, Structural)]
pub struct CreateMember {
    pub beneficiary: Address,
    /// The member's new holding of free tokens.
    pub vault_free: Address,
}

} // verus!
