//! The records that the host ledger keeps for the program, and the orders that the
//! program gives to the host.

use vstd::prelude::*;
use crate::history::ConfigHistory;
use crate::history::HistoryModel;
use crate::history::StakePoolConfig;

verus! {

/// The identity of a record, of a holding or of a beneficiary on the host ledger: 256 bits,
/// held as two words.
#[derive(Clone, Copy, Debug, PartialEq, Eq, Structural)]
pub struct Address {
    pub high: u128,
    pub low: u128,
}

/// A holding of tokens as the host ledger shows it when an operation starts.
#[derive(Clone, Copy, Debug, PartialEq, Eq, Structural)]
pub struct Vault {
    pub address: Address,
    /// The tokens in the holding.
    pub amount: u64,
}

/// An order to the host ledger to move tokens between two holdings. The host carries it
/// out in the same commit as the operation that gave it, or the operation does not happen.
#[derive(Clone, Copy, Debug, PartialEq, Eq, Structural)]
pub struct Transfer {
    pub from: Address,
    pub to: Address,
    /// The record in whose name the tokens move.
    pub authority: Address,
    pub amount: u64,
}

/// An order to the host ledger to close an emptied holding.
#[derive(Clone, Copy, Debug, PartialEq, Eq, Structural)]
pub struct CloseAccount {
    pub account: Address,
    /// Who receives what the host still keeps for the holding.
    pub destination: Address,
    pub authority: Address,
}

/// The program's main state. These parameters cannot be changed after the initialization.
#[derive(Clone, Copy, Debug, PartialEq, Eq, Structural)]
pub struct Factory {
    /// The bump seed of the record's address.
    pub bump: u8,
    /// The owner of the stake pool factory.
    pub owner: Address,
    /// The type of the reward tokens.
    pub reward_token_mint: Address,
    /// The type of the tokens that are allowed to be staked.
    pub stake_token_mint: Address,
    /// The vault with the reward tokens that are transferred to the members on demand.
    pub vault_reward: Address,
}

/// One reward program with its own history of configurations and its aggregate stake.
#[derive(Clone, Debug, PartialEq, Eq)]
pub struct StakePool {
    /// When the pool was created.
    pub started_at: u64,
    /// When the pool stops giving rewards, if it ever does.
    pub ends_at: Option<u64>,
    /// The tokens staked by all members of the pool.
    pub total_staked_tokens: u128,
    /// The bump seed of the record's address.
    pub bump: u8,
    /// The percentage of each member's reward that goes to the owner.
    pub owner_interest_percent: u8,
    /// The least that the owner receives from each member's reward.
    pub min_owner_reward: u32,
    /// The time in seconds that a member waits for the next reward.
    pub reward_period: u64,
    /// The configurations of the pool, the one in force last.
    pub config_history: ConfigHistory,
}

impl StakePool {
    /// The owner's interest is a percentage strictly between 0 and 100; the history is
    /// sound, can hold a configuration, and holds one chain of configurations, each within
    /// its ranges, all of one kind of reward, the last of them in force.
    pub open spec fn wf(self) -> bool {
        &&& 0 < self.owner_interest_percent < 100
        &&& self.config_history.wf()
        &&& self.config_history@.capacity >= 2
        &&& self.config_history@.chained()
        &&& self.config_history@.validated()
        &&& Self::one_kind(self.config_history@)
    }

    /// All the configurations held reward in the same way.
    pub open spec fn one_kind(m: HistoryModel) -> bool {
        forall|i: int, j: int|
            0 <= i < m.entries.len() && 0 <= j < m.entries.len() ==> ((
            #[trigger] m.entries[i]).reward_type is Fixed <==> (
            #[trigger] m.entries[j]).reward_type is Fixed)
    }

    /// The configuration in force.
    pub open spec fn active(self) -> StakePoolConfig {
        self.config_history@.entries.last()
    }

    /// Tests `wf`, for a pool that was not made by the operations of this library.
    pub fn is_wf(&self) -> (r: bool)
        ensures
            r == self.wf(),
    {
        if self.owner_interest_percent == 0 || self.owner_interest_percent >= 100 {
            return false;
        }
        if !self.config_history.is_wf() {
            return false;
        }
        proof {
            self.config_history.lemma_view();
        }
        if self.config_history.capacity() < 2 {
            return false;
        }
        let newest: StakePoolConfig = match self.config_history.last() {
            Some(config) => config,
            None => {
                return false;
            },
        };
        if newest.ended_at.is_some() || !newest.is_wf() {
            return false;
        }
        let ghost m = self.config_history@;
        let fixed: bool = newest.reward_type.is_fixed();
        let head: u32 = self.config_history.head();
        let mut cursor: u32 = self.config_history.tail();
        while cursor < head - 1
            invariant
                self.config_history.wf(),
                m == self.config_history@,
                m.entries.len() > 0,
                m.tail <= cursor < head,
                head == m.head(),
                fixed == (m.entries.last().reward_type is Fixed),
                forall|i: int| 0 <= i < cursor - m.tail ==> #[trigger] m.linked(i),
                forall|i: int|
                    0 <= i < cursor - m.tail ==> ((#[trigger] m.entries[i]).reward_type is Fixed
                        <==> fixed),
                forall|i: int| 0 <= i < cursor - m.tail ==> (#[trigger] m.entries[i]).wf(),
                m.entries.last().wf(),
            decreases head - cursor,
        {
            let config: StakePoolConfig = self.config_history.get(cursor).unwrap();
            let next: StakePoolConfig = self.config_history.get(cursor + 1).unwrap();
            let linked: bool = match config.ended_at {
                Some(ended_at) => ended_at == next.started_at,
                None => false,
            };
            if !linked || config.reward_type.is_fixed() != fixed || !config.is_wf() {
                proof {
                    let i = cursor - m.tail;
                    assert(m.entries[i] == config);
                    assert(m.entries[i + 1] == next);
                    assert(m.entries[m.entries.len() - 1] == m.entries.last());
                    assert(linked == m.linked(i));
                }
                return false;
            }
            proof {
                assert(m.entries[cursor - m.tail] == config);
                assert(m.entries[cursor - m.tail + 1] == next);
                assert(m.linked(cursor - m.tail));
            }
            cursor = cursor + 1;
        }
        proof {
            assert forall|i: int, j: int|
                0 <= i < m.entries.len() && 0 <= j < m.entries.len() implies ((
            #[trigger] m.entries[i]).reward_type is Fixed <==> (
            #[trigger] m.entries[j]).reward_type is Fixed) by {
                assert(m.entries[i].reward_type is Fixed <==> fixed);
                assert(m.entries[j].reward_type is Fixed <==> fixed);
            }
        }
        true
    }

    /// The configuration in force.
    pub fn active_config(&self) -> (r: StakePoolConfig)
        requires
            self.wf(),
        ensures
            r == self.active(),
            r.wf(),
            r.ended_at is None,
            self.config_history@.get((self.config_history.head - 1) as nat) == Some(r),
    {
        proof {
            self.config_history.lemma_view();
        }
        self.config_history.last().unwrap()
    }
}

/// A user of the stake pool factory.
#[derive(Clone, Copy, Debug, PartialEq, Eq, Structural)]
pub struct Member {
    /// The owner and beneficiary of the member record.
    pub beneficiary: Address,
    /// The holding that the member freely deposits to and withdraws from. Tokens in it
    /// earn nothing.
    pub vault_free: Address,
    /// The bump seed of the record's address.
    pub bump: u8,
}

/// A member's stake in one pool.
#[derive(Clone, Copy, Debug, PartialEq, Eq, Structural)]
pub struct MemberStake {
    /// The pool that the stake is in.
    pub stake_pool: Address,
    /// The owner and beneficiary of the stake.
    pub beneficiary: Address,
    /// The holding of the staked tokens. Tokens in it earn rewards.
    pub vault_staked: Address,
    /// When the staking started.
    pub staked_at: u64,
    /// The time up to which rewards have been paid.
    pub reward_payed_for: u64,
    /// The configuration at which the next claim resumes.
    pub config_cursor: u32,
    /// The bump seed of the record's address.
    pub bump: u8,
}

impl MemberStake {
    /// Rewards are never paid through a time before the staking started: a stake is paid
    /// through its own start when it is made, and every claim moves that time forward.
    pub open spec fn wf(self) -> bool {
        self.staked_at <= self.reward_payed_for
    }

    /// Tests `wf`, for a stake that was not made by the operations of this library.
    pub fn is_wf(&self) -> (r: bool)
        ensures
            r == self.wf(),
    {
        self.staked_at <= self.reward_payed_for
    }
}

/// An unstake that has started and not finished.
#[derive(Clone, Copy, Debug, PartialEq, Eq, Structural)]
pub struct MemberPendingUnstake {
    /// The pool that the stake was in.
    pub stake_pool: Address,
    /// The owner and beneficiary of the tokens.
    pub beneficiary: Address,
    /// The holding of the tokens on their way out. Tokens in it earn nothing.
    pub vault_pending_unstake: Address,
    /// When the unstaking started.
    pub unstaked_at: u64,
    /// The bump seed of the record's address.
    pub bump: u8,
}

/// A change to a configuration of the same kind of reward leaves a history of one kind.
pub proof fn lemma_supersede_keeps_kind(m: HistoryModel, now: u64, config: StakePoolConfig)
    requires
        m.entries.len() > 0,
        StakePool::one_kind(m),
        config.reward_type is Fixed <==> m.entries.last().reward_type is Fixed,
    ensures
        StakePool::one_kind(m.supersede(now, config)),
{
    let closed = m.close_last(now);
    let pushed = closed.entries.push(config);
    let after = m.supersede(now, config);
    let last = m.entries.len() - 1;
    assert forall|i: int| 0 <= i < pushed.len() implies ((#[trigger] pushed[i]).reward_type is Fixed
        <==> config.reward_type is Fixed) by {
        if i <= last {
            assert(m.entries[i].reward_type is Fixed <==> m.entries[last].reward_type is Fixed);
        }
    }
    assert forall|i: int, j: int| 0 <= i < after.entries.len() && 0 <= j < after.entries.len() implies ((
    #[trigger] after.entries[i]).reward_type is Fixed <==> (
    #[trigger] after.entries[j]).reward_type is Fixed) by {
        if closed.is_full() {
            assert(after.entries[i] == pushed[i + 1]);
            assert(after.entries[j] == pushed[j + 1]);
        } else {
            assert(after.entries[i] == pushed[i]);
            assert(after.entries[j] == pushed[j]);
        }
    }
}

} // verus!
