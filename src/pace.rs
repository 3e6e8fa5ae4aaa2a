use vstd::prelude::*;
use std::time::Instant;
use crate::clock::{instant_now, nanos_since};

verus! {

/// Nanoseconds in one second.
pub const NANOS_PER_SEC: u64 = 1_000_000_000;

/// The time since the reference, counted as zero when the reference lies ahead.
pub open spec fn elapsed(prev: int, now: int) -> int {
    if now > prev { now - prev } else { 0 }
}

/// One `sync` at time `now`: the new reference and the time to sleep.
/// It sleeps for whatever is left of the interval, and moves the reference
/// forward by exactly one interval whether or not the frame overran.
pub open spec fn pace_step(interval: int, prev: int, now: int) -> (int, int) {
    let left = interval - elapsed(prev, now);
    (prev + interval, if left > 0 { left } else { 0 })
}

/// Holds a fixed cadence. Times are nanoseconds since `origin`.
pub struct Syncer {
    pub interval: u64,
    pub prevtime: u64,
    pub origin: Instant,
}

impl Syncer {
    /// A pacer with the given interval in nanoseconds, whose reference is now.
    pub fn new(interval: u64) -> (r: Syncer)
        ensures
            r.interval == interval,
            r.prevtime == 0,
    {
        Syncer { interval, prevtime: 0, origin: instant_now() }
    }

    /// A pacer for a number of frames per second: the interval is one
    /// second divided by `fps`, in whole nanoseconds.
    pub fn from_fps(fps: u64) -> (r: Syncer)
        requires
            fps > 0,
        ensures
            r.interval == NANOS_PER_SEC / fps,
            r.prevtime == 0,
    {
        Syncer::new(NANOS_PER_SEC / fps)
    }

    /// `sync` at a given time since the origin: returns how long to sleep.
    pub fn sync_at(&mut self, now: u64) -> (sleep: u64)
        requires
            old(self).prevtime + old(self).interval <= u64::MAX,
        ensures
            (final(self).prevtime as int, sleep as int) == pace_step(
                old(self).interval as int,
                old(self).prevtime as int,
                now as int,
            ),
            final(self).interval == old(self).interval,
            final(self).origin == old(self).origin,
    {
        let dt: u64 = if now > self.prevtime { now - self.prevtime } else { 0 };
        let sleep: u64 = if self.interval > dt { self.interval - dt } else { 0 };
        self.prevtime = self.prevtime + self.interval;
        sleep
    }

    /// Reads the clock and returns how long the caller should sleep to hold
    /// the cadence. Where the reference cannot move one more interval within
    /// the clock's range, it stays put and no sleep is asked for.
    pub fn sync(&mut self) -> (sleep: u64)
        ensures
            final(self).interval == old(self).interval,
            final(self).origin == old(self).origin,
            sleep <= old(self).interval,
            old(self).prevtime + old(self).interval <= u64::MAX
                ==> final(self).prevtime == old(self).prevtime + old(self).interval,
            old(self).prevtime + old(self).interval > u64::MAX ==> final(self).prevtime
                == old(self).prevtime && sleep == 0,
    {
        if self.interval > u64::MAX - self.prevtime {
            return 0;
        }
        let now = nanos_since(&self.origin);
        self.sync_at(now)
    }
}

/// When frame bodies take no time and a sync comes within one interval of
/// the reference, the next wake-up comes exactly one interval after this one.
pub proof fn lemma_pace_cadence(interval: u64, prev: u64, now1: u64)
    requires
        prev <= now1 <= prev + interval,
    ensures
        ({
            let (p1, s1) = pace_step(interval as int, prev as int, now1 as int);
            let wake1 = now1 + s1;
            let (p2, s2) = pace_step(interval as int, p1, wake1);
            (wake1 + s2) - wake1 == interval as int && wake1 == prev + interval
        }),
{
}

/// A frame that overruns the interval gets no sleep, and the reference still
/// moves by exactly one interval, so the next frame is owed the rest of the
/// following interval and no more.
pub proof fn lemma_pace_overrun(interval: u64, prev: u64, now: u64, later: u64)
    requires
        now - prev >= interval,
        now <= later,
    ensures
        pace_step(interval as int, prev as int, now as int).1 == 0,
        pace_step(interval as int, prev as int, now as int).0 == prev + interval,
        pace_step(interval as int, prev + interval, later as int).1 <= interval,
        pace_step(interval as int, prev + interval, later as int).1 == if prev + 2 * interval > later {
            prev + 2 * interval - later
        } else {
            0
        },
{
}

} // verus!
