//! The conditions under which an operation may run at all.

use vstd::prelude::*;
use crate::context::finish_unstake_all::FinishUnstakeAll;
use crate::error::SPError;

verus! {

/// Whether the delay that the pool now asks for has passed since the unstake started.
pub open spec fn unstake_delay_passed(ctx: FinishUnstakeAll) -> bool {
    ctx.now >= ctx.member_pending_unstake.unstaked_at + ctx.stake_pool.active().unstake_delay
}

/// An unstake may finish once the pool's delay has passed since it started.
pub fn allow_finish_unstake(ctx: &FinishUnstakeAll) -> (r: Result<(), SPError>)
    requires
        ctx.stake_pool.wf(),
    ensures
        r is Ok <==> unstake_delay_passed(*ctx),
        r matches Err(e) ==> e == SPError::NotAllowedFinishUnstakeYet,
{
    let unstaked_at: u64 = ctx.member_pending_unstake.unstaked_at;
    let unstake_delay: u64 = ctx.stake_pool.active_config().unstake_delay;
    let current_time: u64 = ctx.now;
    if unstake_delay > current_time || unstaked_at > current_time - unstake_delay {
        return Err(SPError::NotAllowedFinishUnstakeYet);
    }
    Ok(())
}

} // verus!
