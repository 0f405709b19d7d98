//! The configurations of a pool: the rules in force between two changes, and the ring that
//! keeps the most recent of them under cursors that never repeat.

use vstd::prelude::*;
use vstd::arithmetic::div_mod::lemma_fundamental_div_mod;
use vstd::arithmetic::div_mod::lemma_mod_multiples_vanish;
use crate::error::SPError;
use crate::reward::Reward;

verus! {

/// The rules of a pool between two changes of its configuration.
#[derive(Clone, Copy, Debug, PartialEq, Eq)]
pub struct StakePoolConfig {
    /// When these rules came into force.
    pub started_at: u64,
    /// When they were superseded; `None` while they are in force.
    pub ended_at: Option<u64>,
    /// The time in seconds between the start of an unstake and its completion.
    pub unstake_delay: u64,
    /// The percentage withheld from a stake that is withdrawn before the delay has passed.
    pub unstake_forced_fee_percent: u8,
    /// The reward rule together with its rate or its tokens to share.
    pub reward_type: Reward,
}

impl StakePoolConfig {
    /// The reward parameter is in its legal range and the forced fee is a percentage.
    pub open spec fn wf(self) -> bool {
        &&& self.reward_type.valid()
        &&& self.unstake_forced_fee_percent <= 100
    }

    /// Rules that come into force at `started_at`. Their ranges are validated here, once:
    /// first that of the reward, then that of the forced fee.
    pub fn new(
        started_at: u64,
        unstake_delay: u64,
        unstake_forced_fee_percent: u8,
        reward_type: Reward,
    ) -> (r: Result<StakePoolConfig, SPError>)
        ensures
            r is Ok <==> reward_type.valid() && unstake_forced_fee_percent <= 100,
            r matches Ok(config) ==> config == (StakePoolConfig {
                started_at,
                ended_at: None,
                unstake_delay,
                unstake_forced_fee_percent,
                reward_type,
            }),
            r matches Err(e) ==> {
                &&& e == SPError::RewardRateTooSmall <==> reward_type is Fixed
                    && reward_type.metadata() <= 1
                &&& e == SPError::RewardRateTooHigh <==> reward_type is Fixed
                    && reward_type.metadata() >= 100
                &&& e == SPError::TokensToShareEmpty <==> reward_type is Unfixed
                    && reward_type.metadata() == 0
                &&& e == SPError::UnstakeForcedFeeWrong <==> reward_type.valid()
            },
    {
        match reward_type.validate() {
            Err(e) => {
                return Err(e);
            },
            Ok(()) => {},
        }
        if unstake_forced_fee_percent > 100 {
            return Err(SPError::UnstakeForcedFeeWrong);
        }
        Ok(
            StakePoolConfig {
                started_at,
                ended_at: None,
                unstake_delay,
                unstake_forced_fee_percent,
                reward_type,
            },
        )
    }

    /// Whether the rules are in force: they have not been superseded.
    pub fn is_active(&self) -> (r: bool)
        ensures
            r == (self.ended_at is None),
    {
        self.ended_at.is_none()
    }

    /// The rate, or the tokens to share, of the reward rule.
    pub fn reward_metadata(&self) -> (r: u128)
        ensures
            r == self.reward_type.metadata(),
    {
        match self.reward_type {
            Reward::Fixed { data } => data,
            Reward::Unfixed { data } => data,
        }
    }

    /// Tests `wf`.
    pub fn is_wf(&self) -> (r: bool)
        ensures
            r == self.wf(),
    {
        match self.reward_type.validate() {
            Ok(()) => self.unstake_forced_fee_percent <= 100,
            Err(_) => false,
        }
    }
}

/// A bounded log of configurations: what a `ConfigHistory` holds, without its layout.
///
/// Entries are numbered by cursors that never repeat; `entries[0]` has the cursor `tail`.
pub struct HistoryModel {
    /// The number of slots of the ring; one of them always stays free.
    pub capacity: nat,
    /// The cursor of the oldest entry that is still held.
    pub tail: nat,
    /// The entries held, oldest first.
    pub entries: Seq<StakePoolConfig>,
}

impl HistoryModel {
    /// The cursor that the next appended entry will get.
    pub open spec fn head(self) -> nat {
        self.tail + self.entries.len()
    }

    /// One slot at least stays free.
    pub open spec fn wf(self) -> bool {
        self.entries.len() < self.capacity
    }

    /// Every entry held is within its ranges.
    pub open spec fn validated(self) -> bool {
        forall|i: int| 0 <= i < self.entries.len() ==> (#[trigger] self.entries[i]).wf()
    }

    /// The log of `capacity` slots that holds nothing yet.
    pub open spec fn empty(capacity: nat) -> HistoryModel {
        HistoryModel { capacity, tail: 0, entries: Seq::empty() }
    }

    /// No entry is held.
    pub open spec fn is_empty(self) -> bool {
        self.entries.len() == 0
    }

    /// No further entry fits without giving up the oldest.
    pub open spec fn is_full(self) -> bool {
        self.entries.len() + 1 == self.capacity
    }

    /// Whether the entry with this cursor is still held.
    pub open spec fn resident(self, cursor: nat) -> bool {
        self.tail <= cursor < self.head()
    }

    /// The entry with this cursor, if it is still held.
    pub open spec fn get(self, cursor: nat) -> Option<StakePoolConfig> {
        if self.resident(cursor) {
            Some(self.entries[cursor - self.tail])
        } else {
            None
        }
    }

    /// The log after one more entry; a full log gives up its oldest entry for it.
    pub open spec fn append(self, config: StakePoolConfig) -> HistoryModel {
        if self.is_full() {
            HistoryModel {
                capacity: self.capacity,
                tail: self.tail + 1,
                entries: self.entries.push(config).drop_first(),
            }
        } else {
            HistoryModel {
                capacity: self.capacity,
                tail: self.tail,
                entries: self.entries.push(config),
            }
        }
    }

    /// The most recent entry, if any is held.
    pub open spec fn last(self) -> Option<StakePoolConfig> {
        if self.entries.len() == 0 {
            None
        } else {
            Some(self.entries.last())
        }
    }

    /// The log with its most recent entry ended at `now`, if that entry was in force.
    /// An entry that has ended is never touched again.
    pub open spec fn close_last(self, now: u64) -> HistoryModel {
        if self.entries.len() > 0 && self.entries.last().ended_at is None {
            HistoryModel {
                capacity: self.capacity,
                tail: self.tail,
                entries: self.entries.update(
                    self.entries.len() - 1,
                    StakePoolConfig { ended_at: Some(now), ..self.entries.last() },
                ),
            }
        } else {
            self
        }
    }

    /// The log after a change of configuration at `now`: the entry in force ends, and
    /// `config` follows it.
    pub open spec fn supersede(self, now: u64, config: StakePoolConfig) -> HistoryModel {
        self.close_last(now).append(config)
    }

    /// The entries form one chain in time: each one but the last ended when its successor
    /// started, and the last one, and only it, is in force.
    pub open spec fn chained(self) -> bool {
        &&& self.entries.len() > 0
        &&& self.entries.last().ended_at is None
        &&& forall|i: int| 0 <= i < self.entries.len() - 1 ==> #[trigger] self.linked(i)
    }

    /// Whether the `i`-th entry held ended when the next one started.
    pub open spec fn linked(self, i: int) -> bool {
        self.entries[i].ended_at == Some(self.entries[i + 1].started_at)
    }

    /// The log after the entries of `configs`, appended in order.
    pub open spec fn append_all(self, configs: Seq<StakePoolConfig>) -> HistoryModel
        decreases configs.len(),
    {
        if configs.len() == 0 {
            self
        } else {
            self.append_all(configs.drop_last()).append(configs.last())
        }
    }
}

/// A ring of `history.len()` slots that holds the most recent configurations of a pool.
///
/// `head` and `tail` count appended and given-up entries and never wrap; the slot of a
/// cursor is the cursor modulo the number of slots.
#[derive(Clone, Debug, PartialEq, Eq)]
pub struct ConfigHistory {
    /// The cursor of the next free slot.
    pub head: u32,
    /// The cursor of the oldest entry that is still held.
    pub tail: u32,
    /// The slots.
    pub history: Vec<Option<StakePoolConfig>>,
}

/// Two cursors less than a ring's length apart fall into different slots.
pub proof fn lemma_slots_differ(a: int, b: int, n: int)
    requires
        0 < n,
        a < b < a + n,
    ensures
        a % n != b % n,
{
    lemma_fundamental_div_mod(a, n);
    lemma_fundamental_div_mod(b, n);
    if a % n == b % n {
        let k = b / n - a / n;
        assert(b - a == n * k) by (nonlinear_arith)
            requires
                a == n * (a / n) + a % n,
                b == n * (b / n) + b % n,
                a % n == b % n,
                k == b / n - a / n,
        ;
        assert(false) by (nonlinear_arith)
            requires
                0 < n * k < n,
        ;
    }
}

impl View for ConfigHistory {
    type V = HistoryModel;

    open spec fn view(&self) -> HistoryModel {
        HistoryModel {
            capacity: self.history.len() as nat,
            tail: self.tail as nat,
            entries: Seq::new(
                (self.head - self.tail) as nat,
                |i: int| self.history[(self.tail + i) % (self.history.len() as int)].unwrap(),
            ),
        }
    }
}

impl ConfigHistory {
    /// The counters are in order, at least one slot is free, and every cursor from `tail`
    /// up to `head` finds a configuration in its slot.
    pub open spec fn wf(self) -> bool {
        &&& 0 < self.history.len() <= u32::MAX
        &&& self.tail <= self.head
        &&& self.head - self.tail < self.history.len()
        &&& forall|c: int|
            self.tail <= c < self.head ==> (#[trigger] self.history[c % (
            self.history.len() as int)]) is Some
    }

    /// What a well-formed ring says of its model.
    pub proof fn lemma_view(self)
        requires
            self.wf(),
        ensures
            self@.wf(),
            self@.capacity == self.history.len(),
            0 < self@.capacity <= u32::MAX,
            self@.tail == self.tail,
            self@.head() == self.head,
            forall|c: int|
                self.tail <= c < self.head ==> self.history[c % (self.history.len() as int)]
                    == Some(#[trigger] self@.entries[c - self.tail]),
    {
        assert forall|c: int| self.tail <= c < self.head implies self.history[c % (
        self.history.len() as int)] == Some(#[trigger] self@.entries[c - self.tail]) by {
            assert(self.history[c % (self.history.len() as int)] is Some);
            assert(self.tail + (c - self.tail) == c);
        }
    }

    /// Tests `wf`, for a ring that was not made by the operations below.
    pub fn is_wf(&self) -> (r: bool)
        ensures
            r == self.wf(),
    {
        let slots: usize = self.history.len();
        if slots == 0 || slots > u32::MAX as usize {
            return false;
        }
        if self.tail > self.head || (self.head - self.tail) as usize >= slots {
            return false;
        }
        let mut cursor: u32 = self.tail;
        while cursor < self.head
            invariant
                slots == self.history.len(),
                0 < slots <= u32::MAX,
                self.tail <= cursor <= self.head,
                forall|c: int|
                    self.tail <= c < cursor ==> (#[trigger] self.history[c % (
                    self.history.len() as int)]) is Some,
            decreases self.head - cursor,
        {
            if self.history[(cursor as usize) % slots].is_none() {
                return false;
            }
            cursor = cursor + 1;
        }
        true
    }

    /// An empty ring of `capacity` slots.
    pub fn new(capacity: u32) -> (r: ConfigHistory)
        requires
            capacity > 0,
        ensures
            r.wf(),
            r@ == HistoryModel::empty(capacity as nat),
    {
        let mut history: Vec<Option<StakePoolConfig>> = Vec::new();
        let mut filled: u32 = 0;
        while filled < capacity
            invariant
                filled <= capacity,
                history.len() == filled,
            decreases capacity - filled,
        {
            history.push(None);
            filled = filled + 1;
        }
        let r = ConfigHistory { head: 0, tail: 0, history };
        assert(r@.entries =~= Seq::<StakePoolConfig>::empty());
        r
    }

    /// The number of slots.
    pub fn capacity(&self) -> (r: u32)
        requires
            self.wf(),
        ensures
            r == self@.capacity,
    {
        self.history.len() as u32
    }

    /// The cursor that the next appended entry will get.
    pub fn head(&self) -> (r: u32)
        ensures
            r == self.head,
            self.wf() ==> r == self@.head(),
    {
        self.head
    }

    /// The cursor of the oldest entry that is still held.
    pub fn tail(&self) -> (r: u32)
        ensures
            r == self.tail,
            r == self@.tail,
    {
        self.tail
    }

    /// The slot of a cursor: the cursor modulo the number of slots.
    pub fn index_of(&self, counter: u32) -> (r: usize)
        requires
            self.wf(),
        ensures
            r == counter as int % self.history.len() as int,
            r < self.history.len(),
    {
        (counter as usize) % self.history.len()
    }

    /// Whether no entry is held: `head` has not moved beyond `tail`.
    pub fn is_empty(&self) -> (r: bool)
        requires
            self.wf(),
        ensures
            r == self@.is_empty(),
            r == (self.head == self.tail),
    {
        self.head == self.tail
    }

    /// Whether the slot after `head`'s is `tail`'s, so that the next entry costs the oldest.
    pub fn is_full(&self) -> (r: bool)
        requires
            self.wf(),
        ensures
            r == self@.is_full(),
            r == ((self.head + 1) % self.history.len() as int == self.tail as int
                % self.history.len() as int),
    {
        let slots: u64 = self.history.len() as u64;
        let next: u64 = (self.head as u64 + 1) % slots;
        let oldest: u64 = (self.tail as u64) % slots;
        proof {
            let n = self.history.len() as int;
            if self.head - self.tail + 1 == n {
                lemma_mod_multiples_vanish(1, self.tail as int, n);
            } else {
                lemma_slots_differ(self.tail as int, self.head + 1, n);
            }
        }
        next == oldest
    }

    /// The entry with this cursor, if it is still held.
    pub fn get(&self, cursor: u32) -> (r: Option<StakePoolConfig>)
        requires
            self.wf(),
        ensures
            r == self@.get(cursor as nat),
            r is Some <==> self.tail <= cursor < self.head,
    {
        proof {
            self.lemma_view();
        }
        if self.tail <= cursor && cursor < self.head {
            let slot = self.index_of(cursor);
            self.history[slot]
        } else {
            None
        }
    }

    /// The most recent entry, if any is held.
    pub fn last(&self) -> (r: Option<StakePoolConfig>)
        requires
            self.wf(),
        ensures
            r == self@.last(),
            r is Some <==> self.tail < self.head,
    {
        if self.head == self.tail {
            None
        } else {
            self.get(self.head - 1)
        }
    }

    /// Ends the most recent entry at `now` if it is in force. Entries that have ended stay
    /// as they are.
    pub fn close_last(&mut self, now: u64)
        requires
            old(self).wf(),
        ensures
            final(self).wf(),
            final(self)@ == old(self)@.close_last(now),
            final(self).head == old(self).head,
            final(self).tail == old(self).tail,
    {
        let ghost n = self.history.len() as int;
        let ghost before = *self;
        proof {
            before.lemma_view();
        }
        if self.head > self.tail {
            let newest = self.head - 1;
            let slot = self.index_of(newest);
            let entry = self.history[slot];
            match entry {
                Some(last) => {
                    if last.ended_at.is_none() {
                        let closed = StakePoolConfig {
                            started_at: last.started_at,
                            ended_at: Some(now),
                            unstake_delay: last.unstake_delay,
                            unstake_forced_fee_percent: last.unstake_forced_fee_percent,
                            reward_type: last.reward_type,
                        };
                        self.history.set(slot, Some(closed));
                        proof {
                            assert forall|c: int| self.tail <= c < self.head implies (
                            #[trigger] self.history[c % n]) is Some by {
                                if c < newest {
                                    lemma_slots_differ(c, newest as int, n);
                                    assert(before.history[c % n] is Some);
                                }
                            }
                            let expected = before@.close_last(now);
                            assert forall|i: int| 0 <= i < self@.entries.len() implies self@.entries[i]
                                == expected.entries[i] by {
                                let c = self.tail + i;
                                if c < newest {
                                    lemma_slots_differ(c, newest as int, n);
                                    assert(before.history[c % n] == Some(
                                        before@.entries[c - before.tail],
                                    ));
                                }
                            }
                            assert(self@.entries =~= expected.entries);
                        }
                    }
                },
                None => {},
            }
        }
    }

    /// A change of configuration at `now`: the entry in force ends, and `config` is
    /// appended after it. Returns the cursor of `config`.
    pub fn supersede(&mut self, now: u64, config: StakePoolConfig) -> (cursor: u32)
        requires
            old(self).wf(),
            old(self).head < u32::MAX,
        ensures
            final(self).wf(),
            final(self)@ == old(self)@.supersede(now, config),
            cursor == old(self).head,
            final(self).head == old(self).head + 1,
    {
        self.close_last(now);
        self.append(config)
    }

    /// Writes `config` into `head`'s slot and returns the cursor it got. A full ring gives
    /// up its oldest entry: `tail` advances and cursors below it find nothing any more.
    pub fn append(&mut self, config: StakePoolConfig) -> (cursor: u32)
        requires
            old(self).wf(),
            old(self).head < u32::MAX,
        ensures
            final(self).wf(),
            final(self)@ == old(self)@.append(config),
            cursor == old(self).head,
            final(self).head == old(self).head + 1,
            final(self).tail == old(self).tail + if old(self)@.is_full() {
                1int
            } else {
                0int
            },
            final(self).history.len() == old(self).history.len(),
            final(self).head - final(self).tail <= final(self).history.len(),
            final(self)@.get(cursor as nat) == if old(self)@.capacity == 1 {
                None
            } else {
                Some(config)
            },
    {
        let cursor = self.head;
        let full = self.is_full();
        let slot = self.index_of(cursor);
        let ghost n = self.history.len() as int;
        let ghost before = *self;
        proof {
            before.lemma_view();
        }
        self.history.set(slot, Some(config));
        self.head = cursor + 1;
        if full {
            self.tail = self.tail + 1;
        }
        proof {
            assert forall|c: int| self.tail <= c < self.head implies (
            #[trigger] self.history[c % n]) is Some by {
                if c < cursor {
                    lemma_slots_differ(c, cursor as int, n);
                    assert(before.history[c % n] is Some);
                }
            }
            let expected = before@.append(config);
            assert(self@.entries.len() == expected.entries.len());
            assert forall|i: int| 0 <= i < self@.entries.len() implies self@.entries[i]
                == expected.entries[i] by {
                let c = self.tail + i;
                if c < cursor {
                    lemma_slots_differ(c, cursor as int, n);
                    assert(before.history[c % n] == Some(before@.entries[c - before.tail]));
                }
            }
            assert(self@.entries =~= expected.entries);
        }
        cursor
    }
}


/// The number of appends, among those of `configs` made in order to `m`, that found the
/// log full.
pub open spec fn appends_into_full(m: HistoryModel, configs: Seq<StakePoolConfig>) -> nat
    decreases configs.len(),
{
    if configs.len() == 0 {
        0
    } else {
        appends_into_full(m, configs.drop_last()) + if m.append_all(
            configs.drop_last(),
        ).is_full() {
            1nat
        } else {
            0nat
        }
    }
}

/// One append advances `head` by one, advances `tail` by one exactly if the log was full,
/// keeps the log within its bound and never makes it shorter; the entries that stay keep
/// their cursors.
pub proof fn law_append_advances(m: HistoryModel, config: StakePoolConfig)
    requires
        m.wf(),
    ensures
        m.append(config).wf(),
        m.append(config).capacity == m.capacity,
        m.append(config).head() == m.head() + 1,
        m.append(config).tail == m.tail + if m.is_full() {
            1int
        } else {
            0int
        },
        m.append(config).head() - m.append(config).tail <= m.capacity,
        m.append(config).entries.len() >= m.entries.len(),
        forall|c: nat|
            m.append(config).tail <= c < m.head() ==> m.append(config).get(c) == m.get(c),
{
}

/// After any run of appends `head` has advanced once per append, and `tail` once per
/// append that found the log full: those are the appends beyond the free slots, all but
/// one, that the log had. The two counters are never more than the capacity apart.
pub proof fn law_tail_advances_once_per_excess_append(
    m: HistoryModel,
    configs: Seq<StakePoolConfig>,
)
    requires
        m.wf(),
    ensures
        m.append_all(configs).wf(),
        m.append_all(configs).capacity == m.capacity,
        m.append_all(configs).head() == m.head() + configs.len(),
        m.append_all(configs).tail == m.tail + appends_into_full(m, configs),
        appends_into_full(m, configs) == if m.entries.len() + configs.len() + 1 > m.capacity {
            m.entries.len() + configs.len() + 1 - m.capacity
        } else {
            0
        },
        m.append_all(configs).head() - m.append_all(configs).tail <= m.capacity,
    decreases configs.len(),
{
    if configs.len() > 0 {
        let earlier = configs.drop_last();
        law_tail_advances_once_per_excess_append(m, earlier);
        law_append_advances(m.append_all(earlier), configs.last());
    }
}

/// A change of configuration keeps the chain of a log that can hold an entry at all, and
/// keeps the entries within their ranges if the new one is.
pub proof fn law_supersede_keeps_chain(m: HistoryModel, now: u64, config: StakePoolConfig)
    requires
        m.wf(),
        m.capacity >= 2,
        m.is_empty() || m.chained(),
        config.started_at == now,
        config.ended_at is None,
    ensures
        m.supersede(now, config).wf(),
        m.supersede(now, config).chained(),
        m.supersede(now, config).head() == m.head() + 1,
        m.supersede(now, config).last() == Some(config),
        m.validated() && config.wf() ==> m.supersede(now, config).validated(),
{
    let closed = m.close_last(now);
    law_append_advances(closed, config);
    let after = closed.append(config);
    let pushed = closed.entries.push(config);
    assert forall|i: int| 0 <= i < pushed.len() - 1 implies (#[trigger] pushed[i]).ended_at
        == Some(pushed[i + 1].started_at) by {
        if i < m.entries.len() - 1 {
            assert(m.linked(i));
        }
    }
    assert forall|i: int| 0 <= i < after.entries.len() - 1 implies #[trigger] after.linked(
        i,
    ) by {
        if closed.is_full() {
            assert(pushed[i + 1].ended_at == Some(pushed[i + 2].started_at));
        } else {
            assert(pushed[i].ended_at == Some(pushed[i + 1].started_at));
        }
    }
    if m.validated() && config.wf() {
        assert forall|i: int| 0 <= i < pushed.len() implies (#[trigger] pushed[i]).wf() by {
            if i < m.entries.len() {
                assert(m.entries[i].wf());
            }
        }
        assert forall|i: int| 0 <= i < after.entries.len() implies (
        #[trigger] after.entries[i]).wf() by {
            if closed.is_full() {
                assert(pushed[i + 1].wf());
            } else {
                assert(pushed[i].wf());
            }
        }
    }
}

/// What `get` finds depends on the counters and the slots alone: two rings that agree in
/// them hold the same entry, or none, under every cursor.
pub proof fn law_get_reads_snapshot(a: ConfigHistory, b: ConfigHistory, cursor: nat)
    requires
        a.head == b.head,
        a.tail == b.tail,
        a.history@ == b.history@,
    ensures
        a@ == b@,
        a@.get(cursor) == b@.get(cursor),
{
    assert(a@.entries =~= b@.entries);
}

} // verus!
