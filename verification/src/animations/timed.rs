//! One time-based animation: a start, a duration and a curve. It is a value,
//! not a running object: nothing ticks it, it answers questions about any
//! instant handed to it.

use vstd::prelude::*;
use super::curve::Curve;

verus! {

/// Nanoseconds from an arbitrary fixed origin.
pub type Nanos = u64;

/// Nanoseconds per millisecond.
pub const NANOS_PER_MS: u64 = 1_000_000;

/// One time-based animation.
#[derive(Debug, Clone, Copy, PartialEq, Eq, Structural)]
pub struct Timed {
    start: Nanos,
    duration_ms: u32,
    curve: Curve,
}

/// Time elapsed from `start` to `now`, zero when `now` is earlier.
pub open spec fn elapsed(start: Nanos, now: Nanos) -> nat {
    if now >= start {
        (now - start) as nat
    } else {
        0
    }
}

impl Timed {
    pub closed spec fn spec_start(&self) -> Nanos {
        self.start
    }

    pub closed spec fn spec_duration_ms(&self) -> u32 {
        self.duration_ms
    }

    pub closed spec fn spec_curve(&self) -> Curve {
        self.curve
    }

    /// Whether the animation has run its course at `now`: a zero duration is
    /// finished from the start, otherwise once the full duration has elapsed.
    pub open spec fn spec_is_done(&self, now: Nanos) -> bool {
        self.spec_duration_ms() == 0 || elapsed(self.spec_start(), now) >= self.spec_duration_ms()
            * NANOS_PER_MS
    }

    /// An animation starting at `start`. A `duration_ms` of 0 (animations
    /// turned off) yields an animation that is born finished.
    pub fn new(start: Nanos, duration_ms: u32, curve: Curve) -> (t: Self)
        ensures
            t.spec_start() == start,
            t.spec_duration_ms() == duration_ms,
            t.spec_curve() == curve,
    {
        Timed { start, duration_ms, curve }
    }

    /// When the animation started.
    pub fn start(&self) -> (s: Nanos)
        ensures
            s == self.spec_start(),
    {
        self.start
    }

    /// How long it lasts, in milliseconds.
    pub fn duration_ms(&self) -> (d: u32)
        ensures
            d == self.spec_duration_ms(),
    {
        self.duration_ms
    }

    /// The curve that shapes it.
    pub fn curve(&self) -> (c: Curve)
        ensures
            c == self.spec_curve(),
    {
        self.curve
    }

    /// Elapsed time at `now`, in nanoseconds (zero before the start).
    pub fn elapsed_nanos(&self, now: Nanos) -> (e: u64)
        ensures
            e == elapsed(self.spec_start(), now),
    {
        if now >= self.start {
            now - self.start
        } else {
            0
        }
    }

    /// Whether the animation has reached its end and needs no more frames.
    pub fn is_done(&self, now: Nanos) -> (b: bool)
        ensures
            b == self.spec_is_done(now),
    {
        if self.duration_ms == 0 {
            return true;
        }
        let total: u64 = self.duration_ms as u64 * NANOS_PER_MS;
        self.elapsed_nanos(now) >= total
    }
}

/// Once finished, an animation stays finished: `is_done` is monotone in time.
pub proof fn lemma_done_stays_done(t: Timed, now: Nanos, later: Nanos)
    requires
        now <= later,
        t.spec_is_done(now),
    ensures
        t.spec_is_done(later),
{
}

} // verus!
