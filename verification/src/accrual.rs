//! What a stake has earned: the walk through the configurations that were in force while
//! the tokens were staked, each weighted by the time it was in force.

use vstd::prelude::*;
use vstd::arithmetic::div_mod::lemma_div_multiples_vanish;
use vstd::arithmetic::div_mod::lemma_div_multiples_vanish_quotient;
use vstd::arithmetic::div_mod::lemma_fundamental_div_mod;
use vstd::arithmetic::div_mod::lemma_mod_decreases;
use vstd::arithmetic::div_mod::lemma_mod_multiples_basic;
use vstd::arithmetic::div_mod::lemma_mod_multiples_vanish;
use crate::error::SPError;
use crate::history::ConfigHistory;
use crate::history::HistoryModel;
use crate::history::StakePoolConfig;
use crate::reward::Reward;
use crate::reward::PRECISENESS;

verus! {

/// What a claim yields.
#[derive(Clone, Copy, Debug, PartialEq, Eq, Structural)]
pub struct Accrual {
    /// The reward owed, in tokens.
    pub reward: u64,
    /// The cursor of the configuration at which the next claim resumes.
    pub config_cursor: u32,
    /// The end of the last whole reward period that the reward pays for.
    pub reward_payed_for: u64,
}

/// The result of walking a log of configurations over a stretch of time.
pub struct Walk {
    /// The sum, over the configurations walked, of what the stake earns per period under
    /// each (in ten-thousandths of a token) times the seconds it was in force.
    pub weighted: int,
    /// The cursor of the configuration at which the walk stopped.
    pub cursor: nat,
}

/// Whether a configuration ended before `until`, so that its successor takes over.
pub open spec fn superseded_before(config: StakePoolConfig, until: int) -> bool {
    config.ended_at matches Some(ended) && ended < until
}

/// The time up to which a configuration is credited when it is reached at `from`: its own
/// end if that comes before `until`, but never a time before `from`.
pub open spec fn credited_until(config: StakePoolConfig, from: int, until: int) -> int {
    match config.ended_at {
        Some(ended) if ended < until => if ended < from {
            from
        } else {
            ended as int
        },
        _ => until,
    }
}

/// A walk seen from its middle: what was earned before, and what the rest of the walk adds.
pub open spec fn resumed(earned: int, rest: Option<Walk>) -> Option<Walk> {
    match rest {
        None => None,
        Some(w) => Some(Walk { weighted: earned + w.weighted, cursor: w.cursor }),
    }
}

/// The time-weighted earnings of a stake over `[from, until)`, starting with the
/// configuration under `cursor`: each configuration counts for the time between the end of
/// its predecessor and its own end. The walk stops at the first configuration that was not
/// superseded before `until`, or where the log ends. `None` where a pool is to be shared
/// and nobody holds a stake in it.
pub open spec fn walk(
    m: HistoryModel,
    cursor: nat,
    from: int,
    until: int,
    staked: int,
    total: int,
) -> Option<Walk>
    decreases m.head() - cursor,
{
    if !m.resident(cursor) || from >= until {
        Some(Walk { weighted: 0, cursor })
    } else {
        let config = m.entries[cursor - m.tail];
        let stop = credited_until(config, from, until);
        let earned = config.reward_type.unit_reward(staked, total) * (stop - from);
        if !config.reward_type.unit_defined(total) {
            None
        } else if superseded_before(config, until) {
            resumed(earned, walk(m, cursor + 1, stop, until, staked, total))
        } else {
            Some(Walk { weighted: earned, cursor })
        }
    }
}

/// The cursor at which a claim starts: the one it was given, or the oldest entry still
/// held if that one has been given up.
pub open spec fn clamped(m: HistoryModel, cursor: u32) -> nat {
    if cursor < m.tail {
        m.tail
    } else {
        cursor as nat
    }
}

/// The time up to which rewards accrue: now, or the end of the program if that came first.
pub open spec fn accrual_limit(current_time: u64, program_ends_at: Option<u64>) -> u64 {
    match program_ends_at {
        Some(ends_at) if ends_at < current_time => ends_at,
        _ => current_time,
    }
}

/// The most recent boundary between reward periods, counted from `staked_at`, at or
/// before `limit`.
pub open spec fn last_full_period_end(staked_at: u64, limit: u64, reward_period: u64) -> int
    recommends
        staked_at <= limit,
        reward_period > 0,
{
    limit - (limit - staked_at) % (reward_period as int)
}

/// The outcome of a claim: the first refusal in the order below, or the reward for
/// the whole periods since `staked_at`, rounded down once at the end.
pub open spec fn accrued(
    m: HistoryModel,
    config_cursor: u32,
    staked_at: u64,
    current_time: u64,
    program_ends_at: Option<u64>,
    reward_period: u64,
    staked_by_user: u64,
    total_staked: u128,
) -> Result<Accrual, SPError> {
    let limit = accrual_limit(current_time, program_ends_at);
    let until = last_full_period_end(staked_at, limit, reward_period);
    let walked = walk(
        m,
        clamped(m, config_cursor),
        staked_at as int,
        until,
        staked_by_user as int,
        total_staked as int,
    );
    if staked_by_user == 0 {
        Err(SPError::UserStakeZero)
    } else if current_time < staked_at + reward_period {
        Err(SPError::RewardPeriodNotPassed)
    } else if limit < staked_at || reward_period == 0 {
        Err(SPError::ArithmeticOverflow)
    } else {
        match walked {
            None => Err(SPError::ArithmeticOverflow),
            Some(w) => if w.weighted > u128::MAX || w.weighted / (10000 * reward_period)
                > u64::MAX {
                Err(SPError::ArithmeticOverflow)
            } else {
                Ok(
                    Accrual {
                        reward: (w.weighted / (10000 * reward_period)) as u64,
                        config_cursor: w.cursor as u32,
                        reward_payed_for: until as u64,
                    },
                )
            },
        }
    }
}

/// A walk never earns less than nothing, and stops between where it started and `head`.
pub proof fn lemma_walk_bounds(
    m: HistoryModel,
    cursor: nat,
    from: int,
    until: int,
    staked: int,
    total: int,
)
    requires
        0 <= staked,
        0 <= total,
        m.tail <= cursor,
    ensures
        walk(m, cursor, from, until, staked, total) matches Some(w) ==> 0 <= w.weighted && cursor
            <= w.cursor && (w.cursor <= m.head() || w.cursor == cursor),
    decreases m.head() - cursor,
{
    if m.resident(cursor) && from < until {
        let config = m.entries[cursor - m.tail];
        let stop = credited_until(config, from, until);
        let unit = config.reward_type.unit_reward(staked, total);
        if config.reward_type.unit_defined(total) {
            lemma_unit_nonnegative(config.reward_type, staked, total);
            assert(unit * (stop - from) >= 0) by (nonlinear_arith)
                requires
                    unit >= 0,
                    stop - from >= 0,
            ;
            if superseded_before(config, until) {
                lemma_walk_bounds(m, cursor + 1, stop, until, staked, total);
            }
        }
    }
}

/// What a stake earns per period is never negative.
pub proof fn lemma_unit_nonnegative(reward: Reward, staked: int, total: int)
    requires
        0 <= staked,
        0 <= total,
        reward.unit_defined(total),
    ensures
        0 <= reward.unit_reward(staked, total),
{
    match reward {
        Reward::Fixed { data } => {
            assert(staked * data * 100 >= 0) by (nonlinear_arith)
                requires
                    staked >= 0,
                    data >= 0,
            ;
        },
        Reward::Unfixed { data } => {
            let share = Reward::share(staked, total);
            assert(share >= 0) by (nonlinear_arith)
                requires
                    share == staked * 10000 / total,
                    staked >= 0,
                    total > 0,
            ;
            assert(data * share >= 0) by (nonlinear_arith)
                requires
                    share >= 0,
                    data >= 0,
            ;
        },
    }
}

/// Computes what a stake has earned since `staked_at` (the time of staking, or the time
/// that the last claim paid through), and where the next claim resumes.
///
/// A cursor that the history has given up is replaced by the oldest one it still holds.
/// From there each configuration is credited for the time it was in force, up to the last
/// boundary between reward periods at or before now, or before the end of the program;
/// the stake earns, for each second, the per-period reward of the configuration then in
/// force divided by the length of the period. The sum is rounded down once.
pub fn accrue(
    history: &ConfigHistory,
    config_cursor: u32,
    staked_at: u64,
    current_time: u64,
    program_ends_at: Option<u64>,
    reward_period: u64,
    staked_by_user: u64,
    total_staked: u128,
) -> (r: Result<Accrual, SPError>)
    requires
        history.wf(),
    ensures
        r == accrued(
            history@,
            config_cursor,
            staked_at,
            current_time,
            program_ends_at,
            reward_period,
            staked_by_user,
            total_staked,
        ),
        r matches Ok(a) ==> {
            &&& staked_at <= a.reward_payed_for <= current_time
            &&& (a.reward_payed_for - staked_at) % (reward_period as int) == 0
            &&& config_cursor <= a.config_cursor
            &&& history.tail <= a.config_cursor
            &&& a.config_cursor <= history.head || a.config_cursor == config_cursor
        },
        r matches Ok(a) ==> {
            let start = clamped(history@, config_cursor);
            let rule = history@.entries[start - history.tail].reward_type;
            let periods = (a.reward_payed_for - staked_at) / (reward_period as int);
            history@.resident(start) && !superseded_before(
                history@.entries[start - history.tail],
                a.reward_payed_for as int,
            ) ==> {
                &&& a.config_cursor == start
                &&& a.reward == rule.reward_for(
                    staked_by_user as int,
                    total_staked as int,
                    periods,
                )
                &&& rule is Fixed ==> a.reward == staked_by_user * rule.metadata() * periods / 100
            }
        },
{
    if staked_by_user == 0 {
        return Err(SPError::UserStakeZero);
    }
    if reward_period > current_time || staked_at > current_time - reward_period {
        return Err(SPError::RewardPeriodNotPassed);
    }
    let limit: u64 = match program_ends_at {
        Some(ends_at) => if ends_at < current_time {
            ends_at
        } else {
            current_time
        },
        None => current_time,
    };
    if limit < staked_at || reward_period == 0 {
        return Err(SPError::ArithmeticOverflow);
    }
    proof {
        lemma_mod_decreases((limit - staked_at) as nat, reward_period as nat);
        lemma_whole_periods(staked_at, limit, reward_period);
    }
    let until: u64 = limit - (limit - staked_at) % reward_period;
    let tail: u32 = history.tail();
    let head: u32 = history.head();
    let start: u32 = if config_cursor < tail {
        tail
    } else {
        config_cursor
    };
    let ghost m = history@;
    let ghost staked = staked_by_user as int;
    let ghost total = total_staked as int;
    let ghost whole = walk(m, start as nat, staked_at as int, until as int, staked, total);
    proof {
        history.lemma_view();
        lemma_walk_bounds(m, start as nat, staked_at as int, until as int, staked, total);
    }
    let mut cursor: u32 = start;
    let mut processing: u64 = staked_at;
    let mut weighted: u128 = 0;
    while cursor < head && processing < until
        invariant
            history.wf(),
            m == history@,
            m.tail == tail,
            m.head() == head,
            tail <= cursor,
            staked_at <= processing <= until,
            staked == staked_by_user,
            total == total_staked,
            whole == resumed(
                weighted as int,
                walk(m, cursor as nat, processing as int, until as int, staked, total),
            ),
            accrued(
                m,
                config_cursor,
                staked_at,
                current_time,
                program_ends_at,
                reward_period,
                staked_by_user,
                total_staked,
            ) == match whole {
                None => Err::<Accrual, SPError>(SPError::ArithmeticOverflow),
                Some(w) => if w.weighted > u128::MAX || w.weighted / (10000 * reward_period)
                    > u64::MAX {
                    Err::<Accrual, SPError>(SPError::ArithmeticOverflow)
                } else {
                    Ok::<Accrual, SPError>(
                        Accrual {
                            reward: (w.weighted / (10000 * reward_period)) as u64,
                            config_cursor: w.cursor as u32,
                            reward_payed_for: until,
                        },
                    )
                },
            },
        decreases head - cursor, until - processing,
    {
        let config: StakePoolConfig = history.get(cursor).unwrap();
        let ghost unit_int = config.reward_type.unit_reward(staked, total);
        let shared_by_nobody: bool = match config.reward_type {
            Reward::Fixed { .. } => false,
            Reward::Unfixed { .. } => total_staked == 0,
        };
        if shared_by_nobody {
            return Err(SPError::ArithmeticOverflow);
        }
        let mut superseded: bool = false;
        let mut stop: u64 = until;
        match config.ended_at {
            Some(ended) => {
                if ended < until {
                    superseded = true;
                    stop = if ended < processing {
                        processing
                    } else {
                        ended
                    };
                }
            },
            None => {},
        }
        let span: u64 = stop - processing;
        let ghost earned = unit_int * span;
        let ghost rest = if superseded {
            walk(m, (cursor + 1) as nat, stop as int, until as int, staked, total)
        } else {
            Some(Walk { weighted: 0, cursor: cursor as nat })
        };
        proof {
            lemma_unit_nonnegative(config.reward_type, staked, total);
            if superseded {
                lemma_walk_bounds(m, (cursor + 1) as nat, stop as int, until as int, staked, total);
            }
            assert(earned >= 0) by (nonlinear_arith)
                requires
                    earned == unit_int * span,
                    unit_int >= 0,
                    span >= 0,
            ;
            assert(span >= 1 ==> earned >= unit_int) by (nonlinear_arith)
                requires
                    earned == unit_int * span,
                    unit_int >= 0,
            ;
            assert(whole == resumed(weighted + earned, rest));
        }
        if span > 0 {
            let unit: u128 = match config.reward_type.unit(staked_by_user, total_staked) {
                Some(u) => u,
                None => {
                    return Err(SPError::ArithmeticOverflow);
                },
            };
            let term: u128 = match unit.checked_mul(span as u128) {
                Some(t) => t,
                None => {
                    return Err(SPError::ArithmeticOverflow);
                },
            };
            weighted = match weighted.checked_add(term) {
                Some(sum) => sum,
                None => {
                    return Err(SPError::ArithmeticOverflow);
                },
            };
        } else {
            assert(earned == 0) by (nonlinear_arith)
                requires
                    earned == unit_int * span,
                    span == 0,
            ;
        }
        processing = stop;
        if superseded {
            cursor = cursor + 1;
        }
    }
    let divisor: u128 = PRECISENESS * (reward_period as u128);
    let reward: u128 = weighted / divisor;
    if reward > u64::MAX as u128 {
        return Err(SPError::ArithmeticOverflow);
    }
    proof {
        if m.resident(clamped(m, config_cursor)) && !superseded_before(
            m.entries[clamped(m, config_cursor) - m.tail],
            until as int,
        ) {
            law_steady_configuration_pays_per_period(
                m,
                config_cursor,
                staked_at,
                current_time,
                program_ends_at,
                reward_period,
                staked_by_user,
                total_staked,
            );
            assert((until - staked_at) / (reward_period as int) == Reward::whole_periods(
                staked_at,
                limit,
                reward_period,
            )) by {
                let periods = Reward::whole_periods(staked_at, limit, reward_period);
                lemma_div_multiples_vanish(periods, reward_period as int);
                assert(periods * reward_period == reward_period * periods) by (nonlinear_arith);
            }
        }
    }
    Ok(Accrual { reward: reward as u64, config_cursor: cursor, reward_payed_for: until })
}

/// The stretch from `staked_at` to the last boundary at or before `limit` is a whole
/// number of reward periods: as many as fit between `staked_at` and `limit`.
pub proof fn lemma_whole_periods(staked_at: u64, limit: u64, reward_period: u64)
    requires
        staked_at <= limit,
        reward_period > 0,
    ensures
        staked_at <= last_full_period_end(staked_at, limit, reward_period) <= limit,
        last_full_period_end(staked_at, limit, reward_period) - staked_at
            == Reward::whole_periods(staked_at, limit, reward_period) * reward_period,
        (last_full_period_end(staked_at, limit, reward_period) - staked_at) % (
        reward_period as int) == 0,
        0 <= Reward::whole_periods(staked_at, limit, reward_period),
{
    let elapsed = (limit - staked_at) as int;
    let period = reward_period as int;
    lemma_fundamental_div_mod(elapsed, period);
    lemma_mod_decreases(elapsed as nat, period as nat);
    let periods = elapsed / period;
    assert(period * periods == periods * period) by (nonlinear_arith);
    assert(periods >= 0) by (nonlinear_arith)
        requires
            period * periods >= 0,
            period > 0,
    ;
    lemma_mod_multiples_basic(periods, period);
}

/// While the configuration that a claim starts with stays in force, the claim pays what
/// that configuration's rule gives for the whole periods that passed, and the cursor
/// stays where it is. Under a fixed rate that is `staked * rate / 100 * periods`, rounded
/// down.
pub proof fn law_steady_configuration_pays_per_period(
    m: HistoryModel,
    config_cursor: u32,
    staked_at: u64,
    current_time: u64,
    program_ends_at: Option<u64>,
    reward_period: u64,
    staked_by_user: u64,
    total_staked: u128,
)
    requires
        m.head() <= u32::MAX,
        m.resident(clamped(m, config_cursor)),
        !superseded_before(
            m.entries[clamped(m, config_cursor) - m.tail],
            last_full_period_end(
                staked_at,
                accrual_limit(current_time, program_ends_at),
                reward_period,
            ),
        ),
        accrued(
            m,
            config_cursor,
            staked_at,
            current_time,
            program_ends_at,
            reward_period,
            staked_by_user,
            total_staked,
        ) is Ok,
    ensures
        ({
            let a = accrued(
                m,
                config_cursor,
                staked_at,
                current_time,
                program_ends_at,
                reward_period,
                staked_by_user,
                total_staked,
            ).unwrap();
            let rule = m.entries[clamped(m, config_cursor) - m.tail].reward_type;
            let periods = Reward::whole_periods(
                staked_at,
                accrual_limit(current_time, program_ends_at),
                reward_period,
            );
            &&& a.config_cursor == clamped(m, config_cursor)
            &&& a.reward_payed_for == staked_at + periods * reward_period
            &&& a.reward == rule.reward_for(staked_by_user as int, total_staked as int, periods)
            &&& rule is Fixed ==> a.reward == staked_by_user * rule.metadata() * periods / 100
        }),
{
    let limit = accrual_limit(current_time, program_ends_at);
    let until = last_full_period_end(staked_at, limit, reward_period);
    let periods = Reward::whole_periods(staked_at, limit, reward_period);
    let rule = m.entries[clamped(m, config_cursor) - m.tail].reward_type;
    let unit = rule.unit_reward(staked_by_user as int, total_staked as int);
    lemma_whole_periods(staked_at, limit, reward_period);
    let walked = walk(
        m,
        clamped(m, config_cursor),
        staked_at as int,
        until,
        staked_by_user as int,
        total_staked as int,
    );
    if until > staked_at {
        lemma_unit_nonnegative(rule, staked_by_user as int, total_staked as int);
        assert(walked == Some(
            Walk { weighted: unit * (until - staked_at), cursor: clamped(m, config_cursor) },
        ));
        assert(unit * (until - staked_at) == reward_period * (unit * periods) && unit * periods
            >= 0) by (nonlinear_arith)
            requires
                until - staked_at == periods * reward_period,
                unit >= 0,
                periods >= 0,
        ;
        lemma_div_multiples_vanish_quotient(reward_period as int, unit * periods, 10000);
        assert(reward_period * 10000 == 10000 * reward_period);
        assert(walked.unwrap().weighted / (10000 * reward_period) == unit * periods / 10000);
    } else {
        assert(walked == Some(Walk { weighted: 0, cursor: clamped(m, config_cursor) }));
        assert(periods == 0) by (nonlinear_arith)
            requires
                periods * reward_period == 0,
                reward_period > 0,
        ;
        assert(unit * periods == 0) by (nonlinear_arith)
            requires
                periods == 0,
        ;
        assert(0int / (10000 * reward_period) == 0) by (nonlinear_arith)
            requires
                reward_period > 0,
        ;
    }
    Reward::law_fixed_reward_is_rate_times_periods(
        rule.metadata(),
        staked_by_user as nat,
        total_staked as int,
        periods as nat,
    );
}

/// A claim whose cursor the history has given up is the claim that starts at the oldest
/// entry still held.
pub proof fn law_evicted_cursor_claims_from_tail(
    m: HistoryModel,
    config_cursor: u32,
    staked_at: u64,
    current_time: u64,
    program_ends_at: Option<u64>,
    reward_period: u64,
    staked_by_user: u64,
    total_staked: u128,
)
    requires
        config_cursor < m.tail <= u32::MAX,
    ensures
        accrued(
            m,
            config_cursor,
            staked_at,
            current_time,
            program_ends_at,
            reward_period,
            staked_by_user,
            total_staked,
        ) == accrued(
            m,
            m.tail as u32,
            staked_at,
            current_time,
            program_ends_at,
            reward_period,
            staked_by_user,
            total_staked,
        ),
{
}

/// A claim never moves a stake backwards: it pays through a boundary between reward
/// periods that lies between the time paid through before and now, and it resumes at a
/// cursor at or after the one it was given, among those the history holds or will hold
/// next.
pub proof fn law_claim_moves_forward(
    m: HistoryModel,
    config_cursor: u32,
    staked_at: u64,
    current_time: u64,
    program_ends_at: Option<u64>,
    reward_period: u64,
    staked_by_user: u64,
    total_staked: u128,
)
    requires
        m.head() <= u32::MAX,
    ensures
        accrued(
            m,
            config_cursor,
            staked_at,
            current_time,
            program_ends_at,
            reward_period,
            staked_by_user,
            total_staked,
        ) matches Ok(a) ==> {
            &&& staked_at <= a.reward_payed_for <= current_time
            &&& (a.reward_payed_for - staked_at) % (reward_period as int) == 0
            &&& config_cursor <= a.config_cursor
            &&& m.tail <= a.config_cursor
            &&& a.config_cursor <= m.head() || a.config_cursor == config_cursor
            &&& m.chained() && config_cursor < m.head() ==> a.config_cursor < m.head()
        },
{
    let limit = accrual_limit(current_time, program_ends_at);
    if staked_at <= limit && reward_period > 0 {
        lemma_whole_periods(staked_at, limit, reward_period);
        if m.chained() && config_cursor < m.head() {
            law_chained_walk_stays_resident(
                m,
                clamped(m, config_cursor),
                staked_at as int,
                last_full_period_end(staked_at, limit, reward_period),
                staked_by_user as int,
                total_staked as int,
            );
        }
        lemma_walk_bounds(
            m,
            clamped(m, config_cursor),
            staked_at as int,
            last_full_period_end(staked_at, limit, reward_period),
            staked_by_user as int,
            total_staked as int,
        );
    }
}

/// In a history that is one chain, a walk that starts at an entry held stops at an entry
/// held: at the first one that was not superseded before the end of the stretch.
pub proof fn law_chained_walk_stays_resident(
    m: HistoryModel,
    cursor: nat,
    from: int,
    until: int,
    staked: int,
    total: int,
)
    requires
        m.chained(),
        m.resident(cursor),
    ensures
        walk(m, cursor, from, until, staked, total) matches Some(w) ==> {
            &&& m.resident(w.cursor)
            &&& from < until ==> !superseded_before(m.entries[w.cursor - m.tail], until)
            &&& forall|c: nat|
                cursor <= c < w.cursor ==> superseded_before(
                    #[trigger] m.entries[c - m.tail],
                    until,
                )
        },
    decreases m.head() - cursor,
{
    if from < until {
        let config = m.entries[cursor - m.tail];
        if config.reward_type.unit_defined(total) && superseded_before(config, until) {
            let stop = credited_until(config, from, until);
            law_chained_walk_stays_resident(m, cursor + 1, stop, until, staked, total);
        }
    }
}

/// Two walks in a row earn what one walk earns: a walk up to `mid`, resumed at `mid` from
/// the cursor where it stopped, adds up to the walk from `from` to `until`, and stops at
/// the same cursor.
pub proof fn law_walks_add_up(
    m: HistoryModel,
    cursor: nat,
    from: int,
    mid: int,
    until: int,
    staked: int,
    total: int,
)
    requires
        from <= mid <= until,
        walk(m, cursor, from, mid, staked, total) is Some,
    ensures
        walk(m, cursor, from, until, staked, total) == resumed(
            walk(m, cursor, from, mid, staked, total).unwrap().weighted,
            walk(
                m,
                walk(m, cursor, from, mid, staked, total).unwrap().cursor,
                mid,
                until,
                staked,
                total,
            ),
        ),
    decreases m.head() - cursor,
{
    if m.resident(cursor) && from < mid {
        let config = m.entries[cursor - m.tail];
        let unit = config.reward_type.unit_reward(staked, total);
        if superseded_before(config, mid) {
            let stop = credited_until(config, from, mid);
            law_walks_add_up(m, cursor + 1, stop, mid, until, staked, total);
        } else if mid < until {
            let stop = credited_until(config, mid, until);
            assert(unit * (mid - from) + unit * (stop - mid) == unit * (stop - from))
                by (nonlinear_arith);
            assert(credited_until(config, from, until) == stop);
        }
    }
}

/// Rounding two parts down separately loses less than one against rounding their sum.
pub proof fn lemma_floor_of_sum(a: int, b: int, d: int)
    requires
        0 <= a,
        0 <= b,
        0 < d,
    ensures
        a / d + b / d <= (a + b) / d <= a / d + b / d + 1,
{
    lemma_fundamental_div_mod(a, d);
    lemma_fundamental_div_mod(b, d);
    lemma_fundamental_div_mod(a + b, d);
    let q = (a + b) / d - a / d - b / d;
    let r = a % d + b % d - (a + b) % d;
    assert(d * q == r) by (nonlinear_arith)
        requires
            a == d * (a / d) + a % d,
            b == d * (b / d) + b % d,
            a + b == d * ((a + b) / d) + (a + b) % d,
            q == (a + b) / d - a / d - b / d,
            r == a % d + b % d - (a + b) % d,
    ;
    assert(0 <= q <= 1) by (nonlinear_arith)
        requires
            d * q == r,
            -d < r < 2 * d,
            0 < d,
    ;
}

/// A claim made in two steps leaves the stake where the claim made in one step leaves it,
/// and pays the same but for the rounding: at most one token less.
pub proof fn law_split_claim_loses_less_than_one(
    m: HistoryModel,
    config_cursor: u32,
    staked_at: u64,
    first_time: u64,
    second_time: u64,
    program_ends_at: Option<u64>,
    reward_period: u64,
    staked_by_user: u64,
    total_staked: u128,
)
    requires
        m.head() <= u32::MAX,
        first_time <= second_time,
        accrued(
            m,
            config_cursor,
            staked_at,
            first_time,
            program_ends_at,
            reward_period,
            staked_by_user,
            total_staked,
        ) is Ok,
        accrued(
            m,
            config_cursor,
            staked_at,
            second_time,
            program_ends_at,
            reward_period,
            staked_by_user,
            total_staked,
        ) is Ok,
        ({
            let first = accrued(
                m,
                config_cursor,
                staked_at,
                first_time,
                program_ends_at,
                reward_period,
                staked_by_user,
                total_staked,
            ).unwrap();
            accrued(
                m,
                first.config_cursor,
                first.reward_payed_for,
                second_time,
                program_ends_at,
                reward_period,
                staked_by_user,
                total_staked,
            ) is Ok
        }),
    ensures
        ({
            let first = accrued(
                m,
                config_cursor,
                staked_at,
                first_time,
                program_ends_at,
                reward_period,
                staked_by_user,
                total_staked,
            ).unwrap();
            let second = accrued(
                m,
                first.config_cursor,
                first.reward_payed_for,
                second_time,
                program_ends_at,
                reward_period,
                staked_by_user,
                total_staked,
            ).unwrap();
            let whole = accrued(
                m,
                config_cursor,
                staked_at,
                second_time,
                program_ends_at,
                reward_period,
                staked_by_user,
                total_staked,
            ).unwrap();
            &&& whole.config_cursor == second.config_cursor
            &&& whole.reward_payed_for == second.reward_payed_for
            &&& first.reward + second.reward <= whole.reward <= first.reward + second.reward + 1
        }),
{
    let staked = staked_by_user as int;
    let total = total_staked as int;
    let period = reward_period as int;
    let first_limit = accrual_limit(first_time, program_ends_at);
    let second_limit = accrual_limit(second_time, program_ends_at);
    let mid = last_full_period_end(staked_at, first_limit, reward_period);
    let until = last_full_period_end(staked_at, second_limit, reward_period);
    let start = clamped(m, config_cursor);
    lemma_whole_periods(staked_at, first_limit, reward_period);
    lemma_whole_periods(staked_at, second_limit, reward_period);
    lemma_walk_bounds(m, start, staked_at as int, mid, staked, total);
    let first_walk = walk(m, start, staked_at as int, mid, staked, total).unwrap();
    // the second claim counts its periods from `mid`, which lies on the first claim's grid
    let periods = Reward::whole_periods(staked_at, first_limit, reward_period);
    assert(last_full_period_end(mid as u64, second_limit, reward_period) == until) by {
        lemma_mod_multiples_vanish(-periods, (second_limit - staked_at) as int, period);
        assert((second_limit - staked_at) + period * (-periods) == second_limit - mid)
            by (nonlinear_arith)
            requires
                mid - staked_at == periods * period,
        ;
    }
    assert(mid <= until) by {
        lemma_fundamental_div_mod((second_limit - mid) as int, period);
        lemma_mod_decreases((second_limit - mid) as nat, period as nat);
    }
    law_walks_add_up(m, start, staked_at as int, mid, until, staked, total);
    lemma_walk_bounds(m, first_walk.cursor, mid, until, staked, total);
    let second_walk = walk(m, first_walk.cursor, mid, until, staked, total).unwrap();
    lemma_floor_of_sum(first_walk.weighted, second_walk.weighted, 10000 * period);
}

/// Whether every entry from `cursor` on rewards by the same rule.
pub open spec fn one_rule_from(m: HistoryModel, cursor: nat, rule: Reward) -> bool {
    forall|c: nat| cursor <= c < m.head() ==> (#[trigger] m.entries[c - m.tail]).reward_type == rule
}

/// In a history that is one chain, changes of configuration that keep the reward rule do
/// not change what a stake earns: the walk credits every second of the stretch once.
pub proof fn law_walk_under_one_rule(
    m: HistoryModel,
    cursor: nat,
    from: int,
    until: int,
    staked: int,
    total: int,
    rule: Reward,
)
    requires
        m.chained(),
        m.resident(cursor),
        one_rule_from(m, cursor, rule),
        rule.unit_defined(total),
        from <= until,
    ensures
        walk(m, cursor, from, until, staked, total) matches Some(w) && w.weighted
            == rule.unit_reward(staked, total) * (until - from),
    decreases m.head() - cursor,
{
    let unit = rule.unit_reward(staked, total);
    if from < until {
        let config = m.entries[cursor - m.tail];
        assert(config.reward_type == rule);
        if superseded_before(config, until) {
            let stop = credited_until(config, from, until);
            assert(one_rule_from(m, cursor + 1, rule));
            law_walk_under_one_rule(m, cursor + 1, stop, until, staked, total, rule);
            assert(unit * (stop - from) + unit * (until - stop) == unit * (until - from))
                by (nonlinear_arith);
        }
    } else {
        assert(unit * (until - from) == 0) by (nonlinear_arith)
            requires
                until - from == 0,
        ;
    }
}

/// While the reward rule of a pool stays what it is, whatever else changes, a claim pays
/// what the rule gives for the whole periods that passed. Under a fixed rate that is
/// `staked * rate / 100 * periods`, rounded down.
pub proof fn law_unchanged_rule_pays_per_period(
    m: HistoryModel,
    config_cursor: u32,
    staked_at: u64,
    current_time: u64,
    program_ends_at: Option<u64>,
    reward_period: u64,
    staked_by_user: u64,
    total_staked: u128,
    rule: Reward,
)
    requires
        m.chained(),
        m.resident(clamped(m, config_cursor)),
        one_rule_from(m, clamped(m, config_cursor), rule),
        accrued(
            m,
            config_cursor,
            staked_at,
            current_time,
            program_ends_at,
            reward_period,
            staked_by_user,
            total_staked,
        ) is Ok,
    ensures
        ({
            let a = accrued(
                m,
                config_cursor,
                staked_at,
                current_time,
                program_ends_at,
                reward_period,
                staked_by_user,
                total_staked,
            ).unwrap();
            let periods = Reward::whole_periods(
                staked_at,
                accrual_limit(current_time, program_ends_at),
                reward_period,
            );
            &&& a.reward_payed_for == staked_at + periods * reward_period
            &&& a.reward == rule.reward_for(staked_by_user as int, total_staked as int, periods)
            &&& rule is Fixed ==> a.reward == staked_by_user * rule.metadata() * periods / 100
        }),
{
    let limit = accrual_limit(current_time, program_ends_at);
    let until = last_full_period_end(staked_at, limit, reward_period);
    let periods = Reward::whole_periods(staked_at, limit, reward_period);
    let staked = staked_by_user as int;
    let total = total_staked as int;
    let start = clamped(m, config_cursor);
    let unit = rule.unit_reward(staked, total);
    lemma_whole_periods(staked_at, limit, reward_period);
    if until > staked_at {
        assert(m.entries[start - m.tail].reward_type == rule);
        law_walk_under_one_rule(m, start, staked_at as int, until, staked, total, rule);
        lemma_unit_nonnegative(rule, staked, total);
        assert(unit * (until - staked_at) == reward_period * (unit * periods) && unit * periods
            >= 0) by (nonlinear_arith)
            requires
                until - staked_at == periods * reward_period,
                unit >= 0,
                periods >= 0,
        ;
        lemma_div_multiples_vanish_quotient(reward_period as int, unit * periods, 10000);
        assert(reward_period * 10000 == 10000 * reward_period);
    } else {
        assert(periods == 0) by (nonlinear_arith)
            requires
                periods * reward_period == 0,
                reward_period > 0,
        ;
        assert(unit * periods == 0) by (nonlinear_arith)
            requires
                periods == 0,
        ;
        assert(0int / (10000 * reward_period) == 0) by (nonlinear_arith)
            requires
                reward_period > 0,
        ;
    }
    Reward::law_fixed_reward_is_rate_times_periods(
        rule.metadata(),
        staked_by_user as nat,
        total,
        periods as nat,
    );
}

/// The same walk taken one reward period at a time, each configuration counting for the
/// part of the period that it was in force. Within the window from `processing_time` to
/// `period_end`, a configuration that ended before the end of the window is credited up to
/// its own end, and its successor takes over within the same window; any other
/// configuration is credited up to the end of the window, and stays for the next one. The
/// cursor moves on only where the end of a configuration is crossed.
pub open spec fn walk_by_periods(
    m: HistoryModel,
    cursor: nat,
    processing_time: int,
    period_end: int,
    until: int,
    reward_period: int,
    staked: int,
    total: int,
) -> Option<Walk>
    decreases m.head() - cursor, until - processing_time,
{
    if !m.resident(cursor) || reward_period <= 0 || !(processing_time < period_end <= until) {
        Some(Walk { weighted: 0, cursor })
    } else {
        let config = m.entries[cursor - m.tail];
        let unit = config.reward_type.unit_reward(staked, total);
        if !config.reward_type.unit_defined(total) {
            None
        } else if superseded_before(config, period_end) {
            let stop = credited_until(config, processing_time, period_end);
            resumed(
                unit * (stop - processing_time),
                walk_by_periods(
                    m,
                    cursor + 1,
                    stop,
                    period_end,
                    until,
                    reward_period,
                    staked,
                    total,
                ),
            )
        } else {
            resumed(
                unit * (period_end - processing_time),
                walk_by_periods(
                    m,
                    cursor,
                    period_end,
                    period_end + reward_period,
                    until,
                    reward_period,
                    staked,
                    total,
                ),
            )
        }
    }
}

/// Walking one reward period at a time earns what the walk over the whole stretch earns,
/// and stops at the same cursor.
pub proof fn law_walk_by_periods_is_walk(
    m: HistoryModel,
    cursor: nat,
    processing_time: int,
    period_end: int,
    until: int,
    reward_period: int,
    staked: int,
    total: int,
)
    requires
        0 < reward_period,
        processing_time < period_end <= until,
        (until - period_end) % reward_period == 0,
    ensures
        walk_by_periods(
            m,
            cursor,
            processing_time,
            period_end,
            until,
            reward_period,
            staked,
            total,
        ) == walk(m, cursor, processing_time, until, staked, total),
    decreases m.head() - cursor, until - processing_time,
{
    let by_periods = walk_by_periods(
        m,
        cursor,
        processing_time,
        period_end,
        until,
        reward_period,
        staked,
        total,
    );
    let whole = walk(m, cursor, processing_time, until, staked, total);
    if m.resident(cursor) {
        let config = m.entries[cursor - m.tail];
        let unit = config.reward_type.unit_reward(staked, total);
        if !config.reward_type.unit_defined(total) {
            assert(by_periods is None);
            assert(whole is None);
        } else if superseded_before(config, period_end) {
            let stop = credited_until(config, processing_time, period_end);
            assert(superseded_before(config, until));
            assert(credited_until(config, processing_time, until) == stop);
            law_walk_by_periods_is_walk(
                m,
                cursor + 1,
                stop,
                period_end,
                until,
                reward_period,
                staked,
                total,
            );
            let rest = walk(m, cursor + 1, stop, until, staked, total);
            assert(by_periods == resumed(unit * (stop - processing_time), rest));
            assert(whole == resumed(unit * (stop - processing_time), rest));
        } else if period_end < until {
            lemma_fundamental_div_mod(until - period_end, reward_period);
            assert(until - period_end >= reward_period) by (nonlinear_arith)
                requires
                    until - period_end == reward_period * ((until - period_end) / reward_period),
                    until - period_end > 0,
                    reward_period > 0,
            ;
            lemma_mod_multiples_vanish(-1, until - period_end, reward_period);
            assert((until - (period_end + reward_period)) % reward_period == 0) by {
                assert(reward_period * (-1) + (until - period_end) == until - (period_end
                    + reward_period));
            }
            law_walk_by_periods_is_walk(
                m,
                cursor,
                period_end,
                period_end + reward_period,
                until,
                reward_period,
                staked,
                total,
            );
            let rest = walk(m, cursor, period_end, until, staked, total);
            let window = walk(m, cursor, processing_time, period_end, staked, total);
            assert(by_periods == resumed(unit * (period_end - processing_time), rest));
            assert(credited_until(config, processing_time, period_end) == period_end);
            assert(window == Some(
                Walk { weighted: unit * (period_end - processing_time), cursor },
            ));
            law_walks_add_up(m, cursor, processing_time, period_end, until, staked, total);
            assert(whole == resumed(unit * (period_end - processing_time), rest));
        } else {
            assert(period_end == until);
            let after = walk_by_periods(
                m,
                cursor,
                period_end,
                period_end + reward_period,
                until,
                reward_period,
                staked,
                total,
            );
            assert(after == Some(Walk { weighted: 0, cursor }));
            assert(by_periods == resumed(unit * (period_end - processing_time), after));
            assert(credited_until(config, processing_time, until) == until);
            assert(whole == Some(Walk { weighted: unit * (until - processing_time), cursor }));
        }
    } else {
        assert(by_periods == Some(Walk { weighted: 0, cursor }));
        assert(whole == Some(Walk { weighted: 0, cursor }));
    }
}

/// The end of a program as a time: one that has no end ends after every time there is.
pub open spec fn ends_or_never(program_ends_at: Option<u64>) -> u64 {
    match program_ends_at {
        Some(ends_at) => ends_at,
        None => u64::MAX,
    }
}

/// While the configuration that a claim starts with stays in force, the claim is the one
/// calculation that the reward rule of that configuration makes for the same times and
/// amounts: the same reward, paid through the same time.
pub proof fn law_steady_claim_is_one_calculation(
    m: HistoryModel,
    config_cursor: u32,
    staked_at: u64,
    current_time: u64,
    program_ends_at: Option<u64>,
    reward_period: u64,
    staked_by_user: u64,
    total_staked: u128,
)
    requires
        m.head() <= u32::MAX,
        m.resident(clamped(m, config_cursor)),
        !superseded_before(
            m.entries[clamped(m, config_cursor) - m.tail],
            last_full_period_end(
                staked_at,
                accrual_limit(current_time, program_ends_at),
                reward_period,
            ),
        ),
        m.entries[clamped(m, config_cursor) - m.tail].reward_type.valid(),
        m.entries[clamped(m, config_cursor) - m.tail].reward_type.unit_defined(total_staked as int),
        accrued(
            m,
            config_cursor,
            staked_at,
            current_time,
            program_ends_at,
            reward_period,
            staked_by_user,
            total_staked,
        ) is Ok,
    ensures
        ({
            let a = accrued(
                m,
                config_cursor,
                staked_at,
                current_time,
                program_ends_at,
                reward_period,
                staked_by_user,
                total_staked,
            ).unwrap();
            m.entries[clamped(m, config_cursor) - m.tail].reward_type.calculated(
                current_time,
                ends_or_never(program_ends_at),
                staked_at,
                staked_by_user,
                reward_period,
                total_staked,
            ) == Ok::<(u64, u64), SPError>((a.reward, a.reward_payed_for))
        }),
{
    law_steady_configuration_pays_per_period(
        m,
        config_cursor,
        staked_at,
        current_time,
        program_ends_at,
        reward_period,
        staked_by_user,
        total_staked,
    );
    let limit = accrual_limit(current_time, program_ends_at);
    assert(Reward::last_reward_time(current_time, ends_or_never(program_ends_at)) == limit);
    lemma_whole_periods(staked_at, limit, reward_period);
}

} // verus!
