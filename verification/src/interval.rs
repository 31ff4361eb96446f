//! A drift-correcting periodic tick generator.
//!
//! The timer tracks an absolute deadline, in nanoseconds of a monotonic
//! clock supplied by the caller.  Polling before the deadline reports
//! nothing; polling at or after it fires a single tick and advances the
//! deadline by the smallest positive multiple of the period that moves it
//! past the current time, so a busy loop never accumulates a backlog of
//! ticks.

use vstd::prelude::*;
use vstd::arithmetic::div_mod::lemma_fundamental_div_mod;

verus! {

/// A span of time: whole seconds plus a sub-second nanosecond part.
#[derive(Clone, Copy, Debug, PartialEq, Eq, Structural)]
pub struct Dur {
    pub secs: u64,
    pub nanos: u32,
}

impl Dur {
    /// The sub-second part stays below one second.
    pub open spec fn wf(self) -> bool {
        self.nanos < 1_000_000_000
    }

    /// The whole span in nanoseconds, as a mathematical integer.
    pub open spec fn as_nanos(self) -> int {
        self.secs * 1_000_000_000 + self.nanos
    }

    pub fn new(secs: u64, nanos: u32) -> (r: Dur)
        requires
            nanos < 1_000_000_000,
        ensures
            r.wf(),
            r == (Dur { secs, nanos }),
    {
        Dur { secs, nanos }
    }
}

/// Converts a span to raw nanoseconds where the count fits in a `u64`;
/// spans of roughly 584 years and more do not fit and yield nothing.
pub fn duration_to_nanos(dur: Dur) -> (r: Option<u64>)
    ensures
        r is Some <==> dur.as_nanos() <= u64::MAX,
        r is Some ==> r->0 == dur.as_nanos(),
{
    match dur.secs.checked_mul(1_000_000_000) {
        Some(v) => v.checked_add(dur.nanos as u64),
        None => {
            proof {
                assert(dur.secs * 1_000_000_000 + dur.nanos > u64::MAX) by (nonlinear_arith)
                    requires
                        dur.secs * 1_000_000_000 > u64::MAX,
                ;
            }
            None
        },
    }
}

/// How many whole periods the deadline advances by: one when the previous
/// deadline plus one period already lies past `now`, and otherwise just
/// enough whole periods to move past `now`.
pub open spec fn skip_count(prev: int, now: int, period: int) -> int
    recommends
        period > 0,
{
    if prev + period > now {
        1
    } else {
        (now - prev) / period + 1
    }
}

/// The deadline that follows `prev`: the smallest deadline of the form
/// `prev + k * period`, `k` a positive integer, that lies past `now`.
pub open spec fn deadline_after(prev: int, now: int, period: int) -> int
    recommends
        period > 0,
{
    prev + period * skip_count(prev, now, period)
}

/// The deadline that follows an expired one lies past `now`, past `prev`
/// by at least one period, and no further past `now` than one period: a
/// timer can never fire twice at one instant, and consecutive deadlines
/// are always at least one period apart.
pub proof fn lemma_deadline_spacing(prev: int, now: int, period: int)
    requires
        period > 0,
        prev <= now,
    ensures
        deadline_after(prev, now, period) > now,
        deadline_after(prev, now, period) >= prev + period,
        deadline_after(prev, now, period) - period <= now,
        (deadline_after(prev, now, period) - prev) % period == 0,
{
    let k: int = skip_count(prev, now, period);
    if prev + period > now {
        assert(period * 1 == period);
        assert(period * k % period == 0) by (nonlinear_arith)
            requires
                period > 0,
        ;
    } else {
        let spent: int = now - prev;
        let q: int = spent / period;
        lemma_fundamental_div_mod(spent, period);
        assert(spent == period * q + spent % period);
        assert(0 <= spent % period < period) by (nonlinear_arith)
            requires
                period > 0,
                spent >= 0,
        ;
        assert(period * (q + 1) == period * q + period) by (nonlinear_arith);
        assert(period * (q + 1) > spent);
        assert(period * q <= spent);
        assert(k == q + 1);
        assert(period * k % period == 0) by (nonlinear_arith)
            requires
                period > 0,
        ;
    }
}

/// Computes the deadline that follows `prev` once `now` has been reached,
/// skipping whole periods as needed.  Yields nothing when the skip
/// multiplier would exceed the four-billion bound or the deadline would
/// not fit the clock's range: both signal a pathological clock jump or a
/// misconfigured period, which callers treat as fatal.
pub fn next_interval(prev: u64, now: u64, interval: u64) -> (r: Option<u64>)
    requires
        interval > 0,
        prev <= now,
    ensures
        r is Some <==> (skip_count(prev as int, now as int, interval as int) <= u32::MAX
            && deadline_after(prev as int, now as int, interval as int) <= u64::MAX),
        r is Some ==> r->0 == deadline_after(prev as int, now as int, interval as int),
{
    proof {
        lemma_deadline_spacing(prev as int, now as int, interval as int);
    }
    match prev.checked_add(interval) {
        None => {
            proof {
                assert(skip_count(prev as int, now as int, interval as int) == 1);
            }
            None
        },
        Some(new) => {
            if new > now {
                Some(new)
            } else {
                let spent: u64 = now - prev;
                let q: u64 = spent / interval;
                proof {
                    lemma_fundamental_div_mod(spent as int, interval as int);
                }
                if q >= u32::MAX as u64 {
                    proof {
                        assert(skip_count(prev as int, now as int, interval as int) > u32::MAX);
                    }
                    None
                } else {
                    let mult: u64 = q + 1;
                    match interval.checked_mul(mult) {
                        Some(step) => prev.checked_add(step),
                        None => None,
                    }
                }
            }
        },
    }
}

/// Why a timer could not be built or advanced.
#[derive(Clone, Copy, Debug, PartialEq, Eq, Structural)]
pub enum IntervalError {
    /// The period is zero: the timer would fire continuously.
    ZeroPeriod,
    /// A deadline or the period does not fit the clock's range.
    Overflow,
    /// Advancing past `now` would skip more whole periods than the
    /// four-billion bound allows: a pathological clock jump.
    SkipExceeded,
}

/// A fired tick, carrying the deadline at which the next one is due.
#[derive(Clone, Copy, Debug, PartialEq, Eq, Structural)]
pub struct Tick {
    pub next_deadline: u64,
}

/// A periodic timer over a caller-supplied monotonic clock, in
/// nanoseconds.
#[derive(Clone, Copy, Debug, PartialEq, Eq, Structural)]
pub struct Interval {
    /// The absolute deadline at which the next tick is due.
    pub next: u64,
    /// The period between deadlines, always positive.
    pub interval: u64,
}

impl Interval {
    pub open spec fn wf(self) -> bool {
        self.interval > 0
    }

    /// Builds a timer whose first deadline lies one period past `now`.
    pub fn new(dur: Dur, now: u64) -> (r: Result<Interval, IntervalError>)
        ensures
            match r {
                Ok(iv) => iv.wf() && 0 < dur.as_nanos() <= u64::MAX
                    && now + dur.as_nanos() <= u64::MAX
                    && iv.interval == dur.as_nanos()
                    && iv.next == now + dur.as_nanos(),
                Err(IntervalError::ZeroPeriod) => dur.as_nanos() == 0,
                Err(IntervalError::Overflow) => dur.as_nanos() > u64::MAX
                    || now + dur.as_nanos() > u64::MAX,
                Err(_) => false,
            },
    {
        match duration_to_nanos(dur) {
            None => Err(IntervalError::Overflow),
            Some(ns) => {
                if ns == 0 {
                    Err(IntervalError::ZeroPeriod)
                } else {
                    match now.checked_add(ns) {
                        None => Err(IntervalError::Overflow),
                        Some(at) => Ok(Interval { next: at, interval: ns }),
                    }
                }
            },
        }
    }

    /// Builds a timer whose first deadline is `at`.
    pub fn new_at(at: u64, dur: Dur) -> (r: Result<Interval, IntervalError>)
        ensures
            match r {
                Ok(iv) => iv.wf() && 0 < dur.as_nanos() <= u64::MAX
                    && iv.interval == dur.as_nanos()
                    && iv.next == at,
                Err(IntervalError::ZeroPeriod) => dur.as_nanos() == 0,
                Err(IntervalError::Overflow) => dur.as_nanos() > u64::MAX,
                Err(_) => false,
            },
    {
        match duration_to_nanos(dur) {
            None => Err(IntervalError::Overflow),
            Some(ns) => {
                if ns == 0 {
                    Err(IntervalError::ZeroPeriod)
                } else {
                    Ok(Interval { next: at, interval: ns })
                }
            },
        }
    }

    /// Polls the timer against the clock reading `now`.  Before the
    /// deadline nothing fires and the timer is unchanged.  At or past the
    /// deadline exactly one tick fires, whatever the delay, and the
    /// deadline advances past `now` by whole periods.  The error signals
    /// a pathological clock jump and is fatal to the service.
    pub fn poll(&mut self, now: u64) -> (r: Result<Option<Tick>, IntervalError>)
        requires
            old(self).wf(),
        ensures
            final(self).wf(),
            final(self).interval == old(self).interval,
            now < old(self).next ==> r == Ok::<Option<Tick>, IntervalError>(None)
                && *final(self) == *old(self),
            now >= old(self).next ==> {
                let d = deadline_after(old(self).next as int, now as int, old(self).interval as int);
                let k = skip_count(old(self).next as int, now as int, old(self).interval as int);
                if k <= u32::MAX && d <= u64::MAX {
                    r == Ok::<Option<Tick>, IntervalError>(Some(Tick { next_deadline: d as u64 }))
                        && final(self).next == d
                        && final(self).next > now
                        && final(self).next >= old(self).next + old(self).interval
                } else {
                    r == Err::<Option<Tick>, IntervalError>(IntervalError::SkipExceeded)
                        && *final(self) == *old(self)
                }
            },
    {
        if now < self.next {
            Ok(None)
        } else {
            proof {
                lemma_deadline_spacing(self.next as int, now as int, self.interval as int);
            }
            match next_interval(self.next, now, self.interval) {
                None => Err(IntervalError::SkipExceeded),
                Some(d) => {
                    self.next = d;
                    Ok(Some(Tick { next_deadline: d }))
                },
            }
        }
    }
}

} // verus!
