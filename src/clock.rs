use vstd::prelude::*;
use std::time::{Duration, Instant};

verus! {

#[verifier::external_type_specification]
#[verifier::external_body]
pub struct ExInstant(Instant);

/// Relies on std::time::Instant::now: a reading of the monotonic clock.
#[verifier::external_body]
pub(crate) fn instant_now() -> Instant {
    Instant::now()
}

/// Relies on std::time::Instant::elapsed: the time since `origin`. Nothing
/// is promised of the value, which depends on when the call is made.
#[verifier::external_body]
fn elapsed_since(origin: &Instant) -> Duration {
    origin.elapsed()
}

/// Relies on std::time::Duration::as_nanos: the whole nanoseconds of `d`.
#[verifier::external_body]
fn whole_nanos(d: &Duration) -> u128 {
    d.as_nanos()
}

/// The time since `origin` in nanoseconds, saturated at u64::MAX.
pub(crate) fn nanos_since(origin: &Instant) -> u64 {
    let n = whole_nanos(&elapsed_since(origin));
    if n > u64::MAX as u128 {
        u64::MAX
    } else {
        n as u64
    }
}

/// One `run` at time `now`: the new reference and whether it fired.
/// It fires when more than one interval has passed since the reference,
/// and then moves the reference forward by exactly one interval.
pub open spec fn trigger_step(interval: int, prev: int, now: int) -> (int, bool) {
    if now - prev > interval {
        (prev + interval, true)
    } else {
        (prev, false)
    }
}

/// The reference and the number of firings after `run` at each of `times`.
pub open spec fn trigger_trace(interval: int, prev: int, times: Seq<u64>) -> (int, nat)
    decreases times.len(),
{
    if times.len() == 0 {
        (prev, 0)
    } else {
        let (p, fired) = trigger_step(interval, prev, times[0] as int);
        let (pf, k) = trigger_trace(interval, p, times.drop_first());
        (pf, if fired { k + 1 } else { k })
    }
}

pub open spec fn nondecreasing(times: Seq<u64>) -> bool {
    forall|a: int, b: int| 0 <= a <= b < times.len() ==> times[a] <= times[b]
}

/// A periodic trigger with drift-free bookkeeping. Times are nanoseconds
/// since `origin`; `prevtime` only ever moves by whole intervals.
pub struct EveryNSync {
    pub interval: u64,
    pub prevtime: u64,
    pub origin: Instant,
}

impl EveryNSync {
    /// A trigger with the given interval in nanoseconds, whose reference is now.
    pub fn new(interval: u64) -> (r: EveryNSync)
        ensures
            r.interval == interval,
            r.prevtime == 0,
    {
        EveryNSync { interval, prevtime: 0, origin: instant_now() }
    }

    /// `run` at a given time since the origin.
    pub fn run_at(&mut self, now: u64) -> (r: bool)
        ensures
            (final(self).prevtime as int, r) == trigger_step(
                old(self).interval as int,
                old(self).prevtime as int,
                now as int,
            ),
            final(self).interval == old(self).interval,
            final(self).origin == old(self).origin,
    {
        if now > self.prevtime && now - self.prevtime > self.interval {
            self.prevtime = self.prevtime + self.interval;
            true
        } else {
            false
        }
    }

    /// Whether more than one interval has passed since the reference; if so
    /// the reference moves forward by exactly one interval.
    pub fn run(&mut self) -> (r: bool)
        ensures
            final(self).interval == old(self).interval,
            final(self).origin == old(self).origin,
            r ==> final(self).prevtime == old(self).prevtime + old(self).interval,
            !r ==> final(self).prevtime == old(self).prevtime,
    {
        let now = nanos_since(&self.origin);
        self.run_at(now)
    }
}

/// Over any run of calls at nondecreasing times, the reference has moved by
/// exactly one interval per firing, and the firings never outrun the clock:
/// `k` firings over a span `T` from the first reference to the last call
/// satisfy `k * interval <= T`, that is `k <= floor(T / interval)`.
pub proof fn lemma_trigger_count_upper(interval: u64, prev: u64, times: Seq<u64>)
    requires
        nondecreasing(times),
        times.len() > 0,
    ensures
        trigger_trace(interval as int, prev as int, times).0
            == prev + trigger_trace(interval as int, prev as int, times).1 * interval,
        trigger_trace(interval as int, prev as int, times).1 * interval
            <= if times.last() >= prev { times.last() - prev } else { 0 },
{
    lemma_trace_bounds(interval as int, prev as int, times);
}

proof fn lemma_trace_bounds(interval: int, prev: int, times: Seq<u64>)
    requires
        interval >= 0,
        nondecreasing(times),
    ensures
        trigger_trace(interval, prev, times).0 == prev + trigger_trace(interval, prev, times).1 * interval,
        times.len() > 0 ==> trigger_trace(interval, prev, times).0 <= if times.last() >= prev {
            times.last() as int
        } else {
            prev
        },
    decreases times.len(),
{
    lemma_trace_bounds_any(interval, prev, times);
    if times.len() > 0 {
        let (p, fired) = trigger_step(interval, prev, times[0] as int);
        let rest = times.drop_first();
        assert forall|a: int, b: int| 0 <= a <= b < rest.len() implies rest[a] <= rest[b] by {
            assert(rest[a] == times[a + 1] && rest[b] == times[b + 1]);
        }
        lemma_trace_bounds(interval, p, rest);
        if rest.len() > 0 {
            assert(rest.last() == times.last());
            assert(times[0] <= times.last());
        }
    }
}

/// Where calls come at most one interval apart, the first within two
/// intervals of the reference, the firings keep up with the clock too:
/// `T <= (k + 1) * interval`, so `k` is at least `floor(T / interval) - 1`.
pub proof fn lemma_trigger_count_lower(interval: u64, prev: u64, times: Seq<u64>)
    requires
        times.len() > 0,
        times[0] - prev <= 2 * interval,
        forall|j: int| 0 < j < times.len() ==> #[trigger] times[j] - times[j - 1] <= interval,
    ensures
        times.last() - prev <= (trigger_trace(interval as int, prev as int, times).1 + 1) * interval,
{
    lemma_trace_keeps_up(interval as int, prev as int, times);
    lemma_trace_bounds_any(interval as int, prev as int, times);
    let (pf, k) = trigger_trace(interval as int, prev as int, times);
    assert((k + 1) * interval == k * interval + interval) by (nonlinear_arith);
}

proof fn lemma_trace_bounds_any(interval: int, prev: int, times: Seq<u64>)
    requires
        interval >= 0,
    ensures
        trigger_trace(interval, prev, times).0 == prev + trigger_trace(interval, prev, times).1 * interval,
    decreases times.len(),
{
    if times.len() > 0 {
        let (p, fired) = trigger_step(interval, prev, times[0] as int);
        lemma_trace_bounds_any(interval, p, times.drop_first());
        let (pf, k) = trigger_trace(interval, p, times.drop_first());
        if fired {
            assert(pf == prev + (k + 1) * interval) by (nonlinear_arith)
                requires pf == p + k * interval, p == prev + interval;
        }
    }
}

proof fn lemma_trace_keeps_up(interval: int, prev: int, times: Seq<u64>)
    requires
        interval >= 0,
        times.len() > 0,
        times[0] - prev <= 2 * interval,
        forall|j: int| 0 < j < times.len() ==> #[trigger] times[j] - times[j - 1] <= interval,
    ensures
        times.last() - trigger_trace(interval, prev, times).0 <= interval,
    decreases times.len(),
{
    let (p, fired) = trigger_step(interval, prev, times[0] as int);
    let rest = times.drop_first();
    if rest.len() > 0 {
        assert forall|j: int| 0 < j < rest.len() implies #[trigger] rest[j] - rest[j - 1] <= interval by {
            assert(rest[j] == times[j + 1] && rest[j - 1] == times[j]);
        }
        assert(rest[0] == times[1]);
        assert(times[1] - times[0] <= interval);
        assert(times[0] - p <= interval);
        lemma_trace_keeps_up(interval, p, rest);
        assert(rest.last() == times.last());
        assert(trigger_trace(interval, prev, times).0 == trigger_trace(interval, p, rest).0);
    } else {
        assert(times.last() == times[0]);
        assert(trigger_trace(interval, p, rest).0 == p);
    }
}

/// Two calls less than one interval apart both fire only when, at the
/// second, the reference lagged by more than two intervals.
pub proof fn lemma_no_double_fire(interval: u64, prev: u64, t1: u64, t2: u64)
    requires
        t1 <= t2,
        t2 - t1 < interval,
        t2 - prev <= 2 * interval,
    ensures
        !(trigger_step(interval as int, prev as int, t1 as int).1
            && trigger_step(interval as int, trigger_step(interval as int, prev as int, t1 as int).0, t2 as int).1),
{
}

} // verus!
