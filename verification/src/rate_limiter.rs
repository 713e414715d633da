//! Per-provider request pacing that backs off when a service pushes back.
//!
//! Times are nanoseconds on one monotonic clock, passed in by the caller;
//! durations are nanoseconds too. Waiting is the caller's: [`AdaptiveRateLimiter::poll`]
//! either grants a request or says how long to sleep before asking again.
use vstd::prelude::*;

verus! {

pub const MINUTE_NS: u64 = 60_000_000_000;

pub const DAY_NS: u64 = 86_400_000_000_000;

pub const SECOND_NS: u64 = 1_000_000_000;

/// Limits for one provider. A daily limit of 0 means no daily limit.
#[derive(Debug, Clone, Copy)]
pub struct RateLimitConfig {
    pub requests_per_minute: u32,
    pub requests_per_day: u32,
    pub base_interval_ns: u64,
    pub max_backoff_ns: u64,
}

impl RateLimitConfig {
    /// 60 requests a minute, no daily limit, half a second between requests,
    /// backing off to at most a minute.
    pub fn default_limits() -> (r: Self)
        ensures
            r.requests_per_minute == 60,
            r.requests_per_day == 0,
            r.base_interval_ns == 500_000_000,
            r.max_backoff_ns == MINUTE_NS,
    {
        RateLimitConfig {
            requests_per_minute: 60,
            requests_per_day: 0,
            base_interval_ns: 500_000_000,
            max_backoff_ns: MINUTE_NS,
        }
    }
}

impl Default for RateLimitConfig {
    /// The default limits, as `default_limits` gives them.
    fn default() -> (r: Self)
        ensures
            r.requests_per_minute == 60,
            r.requests_per_day == 0,
            r.base_interval_ns == 500_000_000,
            r.max_backoff_ns == MINUTE_NS,
    {
        RateLimitConfig::default_limits()
    }
}

/// The answer to a request for a slot.
#[derive(Debug, Clone, Copy, PartialEq, Eq, Structural)]
pub enum WaitDecision {
    /// Go ahead: the request has been counted.
    Granted,
    /// Sleep this many nanoseconds, then ask again.
    SleepFor(u64),
}

/// Paces one provider's requests: a per-minute window, an optional daily
/// budget, and a spacing between requests that doubles on push-back and
/// shrinks by a tenth on success.
pub struct AdaptiveRateLimiter {
    config: RateLimitConfig,
    minute_timestamps: Vec<u64>,
    daily_count: u32,
    daily_reset: u64,
    current_interval: u64,
    next_slot: u64,
}

/// The grants of `ts` less than a minute old at `now`.
pub open spec fn recent(ts: Seq<u64>, now: u64) -> Seq<u64>
    decreases ts.len(),
{
    if ts.len() == 0 {
        Seq::empty()
    } else {
        let rest = recent(ts.drop_last(), now);
        if now - ts.last() < MINUTE_NS {
            rest.push(ts.last())
        } else {
            rest
        }
    }
}

pub open spec fn sat_add(a: u64, b: u64) -> u64 {
    if a + b > u64::MAX {
        u64::MAX
    } else {
        (a + b) as u64
    }
}

pub open spec fn min_u64(a: u64, b: u64) -> u64 {
    if a <= b {
        a
    } else {
        b
    }
}

/// The spacing after a success: nine tenths of `interval`, rounded to the
/// nearest nanosecond (halves up), but not below `base`.
pub open spec fn relaxed(interval: u64, base: u64) -> u64 {
    if (interval * 9 + 5) / 10 < base {
        base
    } else {
        ((interval * 9 + 5) / 10) as u64
    }
}

/// The spacing after a push-back that names no delay: twice `interval`
/// (saturating), but not above `max_backoff`.
pub open spec fn backed_off(interval: u64, max_backoff: u64) -> u64 {
    min_u64(
        if 2 * interval > u64::MAX {
            u64::MAX
        } else {
            (2 * interval) as u64
        },
        max_backoff,
    )
}

/// What `poll` at `now_ns` does: from `before` to `after`, answering `r`.
pub open spec fn polled(before: AdaptiveRateLimiter, after: AdaptiveRateLimiter, now_ns: u64, r: WaitDecision) -> bool {
    let cfg = before.spec_config();
    let ts = recent(before.spec_timestamps(), now_ns);
    let renew = cfg.requests_per_day > 0 && now_ns >= before.spec_daily_reset();
    let count = if renew {
        0
    } else {
        before.spec_daily_count()
    };
    let reset = if renew {
        sat_add(now_ns, DAY_NS)
    } else {
        before.spec_daily_reset()
    };
    &&& after.spec_config() == cfg
    &&& after.spec_daily_reset() == reset
    &&& if cfg.requests_per_day > 0 && count >= cfg.requests_per_day {
        &&& r == WaitDecision::SleepFor(SECOND_NS)
        &&& after.spec_timestamps() == ts
        &&& after.spec_daily_count() == count
        &&& after.spec_next_slot() == before.spec_next_slot()
    } else if ts.len() >= cfg.requests_per_minute && ts.len() > 0 && now_ns
        < sat_add(ts[0], MINUTE_NS) {
        &&& r == WaitDecision::SleepFor((sat_add(ts[0], MINUTE_NS) - now_ns) as u64)
        &&& after.spec_timestamps() == ts
        &&& after.spec_daily_count() == count
        &&& after.spec_next_slot() == before.spec_next_slot()
    } else if now_ns < before.spec_next_slot() {
        &&& r == WaitDecision::SleepFor((before.spec_next_slot() - now_ns) as u64)
        &&& after.spec_timestamps() == ts
        &&& after.spec_daily_count() == count
        &&& after.spec_next_slot() == before.spec_next_slot()
    } else {
        &&& r == WaitDecision::Granted
        &&& after.spec_timestamps() == ts.push(now_ns)
        &&& after.spec_daily_count() == (if count == u32::MAX {
            count
        } else {
            (count + 1) as u32
        })
        &&& after.spec_next_slot() == sat_add(now_ns, before.spec_interval())
    }
}

/// What `is_available` at `now_ns` does to the daily budget: from `before`
/// to `after`, answering `r`.
pub open spec fn checked_budget(before: AdaptiveRateLimiter, after: AdaptiveRateLimiter, now_ns: u64, r: bool) -> bool {
    let cfg = before.spec_config();
    let renew = now_ns >= before.spec_daily_reset();
    let count = if renew {
        0
    } else {
        before.spec_daily_count()
    };
    if cfg.requests_per_day == 0 {
        &&& r
        &&& after.spec_daily_count() == before.spec_daily_count()
        &&& after.spec_daily_reset() == before.spec_daily_reset()
    } else {
        &&& after.spec_daily_count() == count
        &&& after.spec_daily_reset() == if renew {
            sat_add(now_ns, DAY_NS)
        } else {
            before.spec_daily_reset()
        }
        &&& r == (count < cfg.requests_per_day)
    }
}

impl AdaptiveRateLimiter {
    pub closed spec fn spec_config(&self) -> RateLimitConfig {
        self.config
    }

    pub closed spec fn spec_timestamps(&self) -> Seq<u64> {
        self.minute_timestamps@
    }

    pub closed spec fn spec_daily_count(&self) -> u32 {
        self.daily_count
    }

    pub closed spec fn spec_daily_reset(&self) -> u64 {
        self.daily_reset
    }

    pub closed spec fn spec_interval(&self) -> u64 {
        self.current_interval
    }

    pub closed spec fn spec_next_slot(&self) -> u64 {
        self.next_slot
    }

    /// A limiter for `config`, created at `now_ns`: nothing sent yet, the
    /// daily budget renewing a day from now, spacing at the base interval.
    pub fn new(config: RateLimitConfig, now_ns: u64) -> (r: Self)
        ensures
            r.spec_config() == config,
            r.spec_timestamps().len() == 0,
            r.spec_daily_count() == 0,
            r.spec_daily_reset() == sat_add(now_ns, DAY_NS),
            r.spec_interval() == config.base_interval_ns,
            r.spec_next_slot() == now_ns,
    {
        AdaptiveRateLimiter {
            config,
            minute_timestamps: Vec::new(),
            daily_count: 0,
            daily_reset: now_ns.saturating_add(DAY_NS),
            current_interval: config.base_interval_ns,
            next_slot: now_ns,
        }
    }

    /// The current spacing between requests, in nanoseconds.
    pub fn current_interval_ns(&self) -> (r: u64)
        ensures
            r == self.spec_interval(),
    {
        self.current_interval
    }

    /// How many requests the daily budget has counted.
    pub fn daily_count(&self) -> (r: u32)
        ensures
            r == self.spec_daily_count(),
    {
        self.daily_count
    }

    /// Asks for a slot at `now_ns`. Grants older than a minute are forgotten
    /// and a day-old budget starts over; then the request waits for the daily
    /// budget (a second at a time), for the minute window's oldest grant to
    /// age out, and for the spacing after the previous grant. A grant is
    /// counted and sets the next slot one spacing later.
    pub fn poll(&mut self, now_ns: u64) -> (r: WaitDecision)
        ensures
            final(self).spec_config() == old(self).spec_config(),
            final(self).spec_interval() == old(self).spec_interval(),
            polled(*old(self), *final(self), now_ns, r),
    {
        let mut kept: Vec<u64> = Vec::new();
        let mut i: usize = 0;
        while i < self.minute_timestamps.len()
            invariant
                i <= self.minute_timestamps@.len(),
                self.minute_timestamps@ == old(self).minute_timestamps@,
                kept@ == recent(self.minute_timestamps@.take(i as int), now_ns),
            decreases self.minute_timestamps.len() - i,
        {
            let t = self.minute_timestamps[i];
            proof {
                let s = self.minute_timestamps@.take(i + 1);
                assert(s.drop_last() =~= self.minute_timestamps@.take(i as int));
            }
            if now_ns.saturating_sub(t) < MINUTE_NS {
                kept.push(t);
            }
            i += 1;
        }
        assert(self.minute_timestamps@.take(i as int) =~= old(self).minute_timestamps@);
        self.minute_timestamps = kept;

        if self.config.requests_per_day > 0 {
            if now_ns >= self.daily_reset {
                self.daily_count = 0;
                self.daily_reset = now_ns.saturating_add(DAY_NS);
            }
            if self.daily_count >= self.config.requests_per_day {
                return WaitDecision::SleepFor(SECOND_NS);
            }
        }
        let n = self.minute_timestamps.len();
        if n >= self.config.requests_per_minute as usize && n > 0 {
            let expiry = self.minute_timestamps[0].saturating_add(MINUTE_NS);
            if now_ns < expiry {
                return WaitDecision::SleepFor(expiry - now_ns);
            }
        }
        if now_ns < self.next_slot {
            return WaitDecision::SleepFor(self.next_slot - now_ns);
        }
        self.minute_timestamps.push(now_ns);
        self.daily_count = self.daily_count.saturating_add(1);
        self.next_slot = now_ns.saturating_add(self.current_interval);
        WaitDecision::Granted
    }

    /// The provider pushed back at `now_ns`. With a retry-after, the next slot
    /// is that far away and the spacing becomes it, capped at the maximum
    /// backoff; without one, the spacing doubles, capped, and the next slot
    /// is one spacing away.
    pub fn penalize(&mut self, retry_after_ns: Option<u64>, now_ns: u64)
        ensures
            final(self).spec_config() == old(self).spec_config(),
            final(self).spec_timestamps() == old(self).spec_timestamps(),
            final(self).spec_daily_count() == old(self).spec_daily_count(),
            final(self).spec_daily_reset() == old(self).spec_daily_reset(),
            match retry_after_ns {
                Some(d) => {
                    &&& final(self).spec_next_slot() == sat_add(now_ns, d)
                    &&& final(self).spec_interval() == min_u64(d, old(self).spec_config().max_backoff_ns)
                },
                None => {
                    &&& final(self).spec_interval() == backed_off(old(self).spec_interval(), old(self).spec_config().max_backoff_ns)
                    &&& final(self).spec_next_slot() == sat_add(now_ns, final(self).spec_interval())
                },
            },
    {
        match retry_after_ns {
            Some(d) => {
                self.next_slot = now_ns.saturating_add(d);
                self.current_interval = if d <= self.config.max_backoff_ns {
                    d
                } else {
                    self.config.max_backoff_ns
                };
            },
            None => {
                let doubled = if self.current_interval > u64::MAX / 2 {
                    u64::MAX
                } else {
                    self.current_interval * 2
                };
                self.current_interval = if doubled <= self.config.max_backoff_ns {
                    doubled
                } else {
                    self.config.max_backoff_ns
                };
                self.next_slot = now_ns.saturating_add(self.current_interval);
            },
        }
    }

    /// A request succeeded: the spacing shrinks to nine tenths (rounded to
    /// the nearest nanosecond), but never below the base interval.
    pub fn relax(&mut self)
        ensures
            final(self).spec_config() == old(self).spec_config(),
            final(self).spec_timestamps() == old(self).spec_timestamps(),
            final(self).spec_daily_count() == old(self).spec_daily_count(),
            final(self).spec_daily_reset() == old(self).spec_daily_reset(),
            final(self).spec_next_slot() == old(self).spec_next_slot(),
            final(self).spec_interval() == relaxed(old(self).spec_interval(), old(self).spec_config().base_interval_ns),
    {
        let shrunk: u128 = ((self.current_interval as u128) * 9 + 5) / 10;
        assert(shrunk <= self.current_interval) by (nonlinear_arith)
            requires
                shrunk == (self.current_interval as u128 * 9 + 5) / 10,
                self.current_interval >= 1 || shrunk == 0,
        ;
        self.current_interval = if shrunk < self.config.base_interval_ns as u128 {
            self.config.base_interval_ns
        } else {
            shrunk as u64
        };
    }

    /// Whether the daily budget has room at `now_ns` (always, without a daily
    /// limit); a day-old budget starts over first.
    pub fn is_available(&mut self, now_ns: u64) -> (r: bool)
        ensures
            final(self).spec_config() == old(self).spec_config(),
            final(self).spec_timestamps() == old(self).spec_timestamps(),
            final(self).spec_interval() == old(self).spec_interval(),
            final(self).spec_next_slot() == old(self).spec_next_slot(),
            checked_budget(*old(self), *final(self), now_ns, r),
    {
        if self.config.requests_per_day == 0 {
            return true;
        }
        if now_ns >= self.daily_reset {
            self.daily_count = 0;
            self.daily_reset = now_ns.saturating_add(DAY_NS);
        }
        self.daily_count < self.config.requests_per_day
    }
}

/// A granted request never makes the minute window hold more requests than
/// the per-minute limit (or one, when the limit is zero), and never takes the
/// daily count past a daily limit.
pub proof fn grants_respect_the_limits(
    before: AdaptiveRateLimiter,
    after: AdaptiveRateLimiter,
    now_ns: u64,
)
    requires
        poll_granted(before, after, now_ns),
        now_ns <= u64::MAX - MINUTE_NS,
    ensures
        after.spec_timestamps().len() <= if before.spec_config().requests_per_minute == 0 {
            1
        } else {
            before.spec_config().requests_per_minute as int
        },
        before.spec_config().requests_per_day > 0 ==> after.spec_daily_count()
            <= before.spec_config().requests_per_day,
{
    let ts = recent(before.spec_timestamps(), now_ns);
    lemma_recent_fresh(before.spec_timestamps(), now_ns);
    if ts.len() > 0 {
        assert(now_ns - ts[0] < MINUTE_NS);
    }
}

/// Every grant `recent` keeps is less than a minute old.
pub proof fn lemma_recent_fresh(ts: Seq<u64>, now: u64)
    ensures
        forall|i: int| 0 <= i < recent(ts, now).len() ==> now - #[trigger] recent(ts, now)[i]
            < MINUTE_NS,
    decreases ts.len(),
{
    if ts.len() > 0 {
        lemma_recent_fresh(ts.drop_last(), now);
        let rest = recent(ts.drop_last(), now);
        assert forall|i: int| 0 <= i < recent(ts, now).len() implies now - #[trigger] recent(
            ts,
            now,
        )[i] < MINUTE_NS by {
            if i < rest.len() {
                assert(recent(ts, now)[i] == rest[i]);
            }
        }
    }
}

/// `poll` at `now_ns` took `before` to `after` and granted the request.
pub open spec fn poll_granted(before: AdaptiveRateLimiter, after: AdaptiveRateLimiter, now_ns: u64) -> bool {
    let cfg = before.spec_config();
    let ts = recent(before.spec_timestamps(), now_ns);
    let renew = cfg.requests_per_day > 0 && now_ns >= before.spec_daily_reset();
    let count = if renew {
        0
    } else {
        before.spec_daily_count()
    };
    &&& !(cfg.requests_per_day > 0 && count >= cfg.requests_per_day)
    &&& !(ts.len() >= cfg.requests_per_minute && ts.len() > 0 && now_ns < sat_add(
        ts[0],
        MINUTE_NS,
    ))
    &&& now_ns >= before.spec_next_slot()
    &&& after.spec_timestamps() == ts.push(now_ns)
    &&& after.spec_daily_count() == (if count == u32::MAX {
        count
    } else {
        (count + 1) as u32
    })
}

/// The times of the granted polls among the first `k` of a run, less than
/// a minute before `now`, in order.
pub open spec fn granted_within(times: Seq<u64>, answers: Seq<WaitDecision>, k: int, now: u64) -> Seq<u64>
    decreases k,
{
    if k <= 0 {
        Seq::empty()
    } else {
        let rest = granted_within(times, answers, k - 1, now);
        if answers[k - 1] == WaitDecision::Granted && now - times[k - 1] < MINUTE_NS {
            rest.push(times[k - 1])
        } else {
            rest
        }
    }
}

/// Forgetting, at a later time, the grants that have aged out of the minute.
proof fn lemma_recent_of_granted(times: Seq<u64>, answers: Seq<WaitDecision>, k: int, earlier: u64, later: u64)
    requires
        0 <= k <= times.len(),
        k <= answers.len(),
        earlier <= later,
        forall|i: int| 0 <= i < k ==> times[i] <= earlier,
    ensures
        recent(granted_within(times, answers, k, earlier), later) == granted_within(times, answers, k, later),
    decreases k,
{
    if k > 0 {
        lemma_recent_of_granted(times, answers, k - 1, earlier, later);
        let inner = granted_within(times, answers, k - 1, earlier);
        if answers[k - 1] == WaitDecision::Granted && earlier - times[k - 1] < MINUTE_NS {
            assert(inner.push(times[k - 1]).drop_last() =~= inner);
        }
    }
}

/// The grants of a run of polls, minute by minute: however the polls are
/// timed, when a poll is granted, the grants of the minute up to it (itself
/// included) are no more than the per-minute limit (one, when the limit is
/// zero); and it leaves the daily count within a daily limit. The run starts
/// from a limiter that has granted nothing, polls at times that never go
/// back, and ends a minute before the clock runs out.
pub proof fn grants_in_any_minute_stay_within_the_limit(
    states: Seq<AdaptiveRateLimiter>,
    times: Seq<u64>,
    answers: Seq<WaitDecision>,
    j: int,
)
    requires
        states.len() == times.len() + 1,
        answers.len() == times.len(),
        states[0].spec_timestamps().len() == 0,
        forall|k: int| 0 <= k < times.len() ==> #[trigger] polled(states[k], states[k + 1], times[k], answers[k]),
        forall|a: int, b: int| 0 <= a <= b < times.len() ==> times[a] <= times[b],
        forall|k: int| 0 <= k < times.len() ==> #[trigger] times[k] <= u64::MAX - MINUTE_NS,
        0 <= j < times.len(),
        answers[j] == WaitDecision::Granted,
    ensures
        granted_within(times, answers, j + 1, times[j]).len() <= if states[0].spec_config().requests_per_minute == 0 {
            1
        } else {
            states[0].spec_config().requests_per_minute as int
        },
        states[0].spec_config().requests_per_day > 0 ==> states[j + 1].spec_daily_count()
            <= states[0].spec_config().requests_per_day,
{
    lemma_run_windows(states, times, answers, j);
    assert(polled(states[j], states[j + 1], times[j], answers[j]));
    let cfg = states[j].spec_config();
    let ts = recent(states[j].spec_timestamps(), times[j]);
    lemma_recent_fresh(states[j].spec_timestamps(), times[j]);
    if ts.len() > 0 {
        assert(times[j] - ts[0] < MINUTE_NS);
    }
    if j > 0 {
        lemma_recent_of_granted(times, answers, j, times[j - 1], times[j]);
    }
    assert(granted_within(times, answers, j, times[j]) == ts);
    assert(granted_within(times, answers, j + 1, times[j]) == ts.push(times[j]));
}

/// Along a run, each limiter's minute window holds exactly the grants less
/// than a minute before the latest poll, and the limits never change.
proof fn lemma_run_windows(states: Seq<AdaptiveRateLimiter>, times: Seq<u64>, answers: Seq<WaitDecision>, k: int)
    requires
        states.len() == times.len() + 1,
        answers.len() == times.len(),
        states[0].spec_timestamps().len() == 0,
        forall|i: int| 0 <= i < times.len() ==> #[trigger] polled(states[i], states[i + 1], times[i], answers[i]),
        forall|a: int, b: int| 0 <= a <= b < times.len() ==> times[a] <= times[b],
        0 <= k <= times.len(),
    ensures
        states[k].spec_config() == states[0].spec_config(),
        k > 0 ==> states[k].spec_timestamps() == granted_within(times, answers, k, times[k - 1]),
        k == 0 ==> states[k].spec_timestamps().len() == 0,
    decreases k,
{
    if k > 0 {
        lemma_run_windows(states, times, answers, k - 1);
        let i = k - 1;
        assert(polled(states[i], states[i + 1], times[i], answers[i]));
        assert(i + 1 == k);
        let now = times[k - 1];
        let ts = recent(states[k - 1].spec_timestamps(), now);
        if k - 1 > 0 {
            lemma_recent_of_granted(times, answers, k - 1, times[k - 2], now);
        } else {
            assert(states[0].spec_timestamps() =~= Seq::<u64>::empty());
            assert(ts =~= Seq::<u64>::empty());
        }
        assert(ts == granted_within(times, answers, k - 1, now));
    }
}

/// How many of the polls `from` up to (not including) `to` were granted.
pub open spec fn grants_between(answers: Seq<WaitDecision>, from: int, to: int) -> nat
    decreases to - from,
{
    if to <= from {
        0
    } else {
        grants_between(answers, from, to - 1) + if answers[to - 1] == WaitDecision::Granted {
            1nat
        } else {
            0nat
        }
    }
}

/// Along a stretch of a run in which the daily budget does not renew, the
/// daily count goes up by one for each grant and never passes the limit.
proof fn lemma_day_count(
    states: Seq<AdaptiveRateLimiter>,
    times: Seq<u64>,
    answers: Seq<WaitDecision>,
    from: int,
    k: int,
)
    requires
        states.len() == times.len() + 1,
        answers.len() == times.len(),
        forall|i: int| 0 <= i < times.len() ==> #[trigger] polled(states[i], states[i + 1], times[i], answers[i]),
        0 <= from <= k <= times.len(),
        states[from].spec_config().requests_per_day > 0,
        states[from].spec_daily_count() <= states[from].spec_config().requests_per_day,
        forall|i: int| from <= i < k ==> #[trigger] times[i] < states[i].spec_daily_reset(),
    ensures
        states[k].spec_config() == states[from].spec_config(),
        states[k].spec_daily_reset() == states[from].spec_daily_reset(),
        states[k].spec_daily_count() == states[from].spec_daily_count() + grants_between(answers, from, k),
        states[k].spec_daily_count() <= states[from].spec_config().requests_per_day,
    decreases k - from,
{
    if k > from {
        lemma_day_count(states, times, answers, from, k - 1);
        let i = k - 1;
        assert(polled(states[i], states[i + 1], times[i], answers[i]));
        assert(times[i] < states[i].spec_daily_reset());
        assert(i + 1 == k);
    }
}

/// Between two renewals of the daily budget no more polls are granted than
/// the daily limit allows, and what `is_available` then answers is whether
/// the grants since the budget was last full are still below the limit: a
/// run of polls from a limiter whose budget is untouched (count 0) and that
/// does not reach the renewal, followed by a check still before it.
pub proof fn a_day_grants_no_more_than_its_budget(
    states: Seq<AdaptiveRateLimiter>,
    times: Seq<u64>,
    answers: Seq<WaitDecision>,
    checked: AdaptiveRateLimiter,
    now_ns: u64,
    answer: bool,
)
    requires
        states.len() == times.len() + 1,
        answers.len() == times.len(),
        forall|i: int| 0 <= i < times.len() ==> #[trigger] polled(states[i], states[i + 1], times[i], answers[i]),
        states[0].spec_config().requests_per_day > 0,
        states[0].spec_daily_count() == 0,
        forall|i: int| 0 <= i < times.len() ==> #[trigger] times[i] < states[i].spec_daily_reset(),
        checked_budget(states[times.len() as int], checked, now_ns, answer),
        now_ns < states[0].spec_daily_reset(),
    ensures
        grants_between(answers, 0, times.len() as int) <= states[0].spec_config().requests_per_day,
        answer == (grants_between(answers, 0, times.len() as int) < states[0].spec_config().requests_per_day),
{
    lemma_day_count(states, times, answers, 0, times.len() as int);
}

/// Asking whether the daily budget has room spends none of it: asked again
/// before the budget renews, the answer and the count are the same.
pub proof fn asking_spends_no_budget(
    first: AdaptiveRateLimiter,
    second: AdaptiveRateLimiter,
    third: AdaptiveRateLimiter,
    t1: u64,
    t2: u64,
    r1: bool,
    r2: bool,
)
    requires
        checked_budget(first, second, t1, r1),
        second.spec_config() == first.spec_config(),
        checked_budget(second, third, t2, r2),
        t2 < second.spec_daily_reset(),
    ensures
        r1 == r2,
        third.spec_daily_count() == second.spec_daily_count(),
        first.spec_config().requests_per_day > 0 && t1 < first.spec_daily_reset() ==> second.spec_daily_count()
            == first.spec_daily_count(),
{
}

/// While the spacing lies between the base interval and the maximum
/// backoff, successes and push-backs without a named delay keep it there: a
/// success never takes it below the base nor raises it, and a push-back
/// doubles it until the maximum, never lowering it.
pub proof fn spacing_stays_in_bounds(interval: u64, base: u64, max_backoff: u64)
    requires
        base <= interval <= max_backoff,
    ensures
        base <= relaxed(interval, base) <= interval,
        interval <= backed_off(interval, max_backoff) <= max_backoff,
        backed_off(interval, max_backoff) == max_backoff || backed_off(interval, max_backoff) == 2 * interval,
{
}

} // verus!
