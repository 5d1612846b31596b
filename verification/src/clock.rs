//! Points in time and spans of time, counted in nanoseconds.

use vstd::prelude::*;

verus! {

/// A span of time.
#[derive(Debug, Clone, Copy, PartialEq, Eq, PartialOrd, Ord, Hash, Structural)]
pub struct Duration {
    pub nanos: u128,
}

/// A point on a clock that never runs backwards, counted from some start.
#[derive(Debug, Clone, Copy, PartialEq, Eq, PartialOrd, Ord, Hash, Structural)]
pub struct Instant {
    pub nanos: u128,
}

/// The longest span between two points: as many whole seconds as 64 bits count, and the
/// last nanosecond before the next one.
pub const LONGEST_NANOS: u128 = 18_446_744_073_709_551_615_999_999_999;

/// A count as far as 64 bits hold it.
pub open spec fn capped_u64(n: int) -> int {
    if n > u64::MAX {
        u64::MAX as int
    } else {
        n
    }
}

fn cap_u64(n: u128) -> (r: u64)
    ensures
        r == capped_u64(n as int),
{
    if n > u64::MAX as u128 {
        u64::MAX
    } else {
        n as u64
    }
}

impl Duration {
    /// A span in milliseconds.
    pub fn from_millis(ms: u64) -> (r: Self)
        ensures
            r.nanos == ms * 1_000_000,
    {
        Duration { nanos: ms as u128 * 1_000_000 }
    }

    /// A span in seconds.
    pub fn from_secs(secs: u64) -> (r: Self)
        ensures
            r.nanos == secs * 1_000_000_000,
    {
        Duration { nanos: secs as u128 * 1_000_000_000 }
    }

    /// The whole milliseconds of the span.
    pub fn as_millis(self) -> (ms: u128)
        ensures
            ms == self.nanos as int / 1_000_000,
    {
        self.nanos / 1_000_000
    }

    /// The whole milliseconds of the span, as far as 64 bits count them.
    pub fn whole_millis(self) -> (ms: u64)
        ensures
            ms == capped_u64(self.nanos as int / 1_000_000),
    {
        cap_u64(self.nanos / 1_000_000)
    }

    /// The whole seconds of the span, as far as 64 bits count them.
    pub fn as_secs(self) -> (secs: u64)
        ensures
            secs == capped_u64(self.nanos as int / 1_000_000_000),
    {
        cap_u64(self.nanos / 1_000_000_000)
    }
}

impl Instant {
    /// How many nanoseconds lie between `earlier` and this point, up to the longest span;
    /// none if `earlier` is not earlier.
    pub open spec fn nanos_since(self, earlier: Instant) -> int {
        if self.nanos <= earlier.nanos {
            0
        } else if self.nanos - earlier.nanos > LONGEST_NANOS {
            LONGEST_NANOS as int
        } else {
            self.nanos - earlier.nanos
        }
    }

    /// How many whole milliseconds lie between `earlier` and this point, as far as 64 bits
    /// count them.
    pub open spec fn millis_since(self, earlier: Instant) -> int {
        capped_u64(self.nanos_since(earlier) / 1_000_000)
    }

    /// The point that lies a span later, or the last point of the clock.
    pub open spec fn later(self, span: Duration) -> Instant {
        if self.nanos + span.nanos > u128::MAX {
            Instant { nanos: u128::MAX }
        } else {
            Instant { nanos: (self.nanos + span.nanos) as u128 }
        }
    }

    /// The point at a count of milliseconds from the start.
    pub fn from_millis(ms: u64) -> (r: Self)
        ensures
            r.nanos == ms * 1_000_000,
    {
        Instant { nanos: Duration::from_millis(ms).nanos }
    }

    /// The span between `earlier` and this point, up to the longest one; none if `earlier`
    /// is not earlier.
    pub fn saturating_duration_since(self, earlier: Instant) -> (r: Duration)
        ensures
            r.nanos == self.nanos_since(earlier),
    {
        if self.nanos <= earlier.nanos {
            Duration { nanos: 0 }
        } else if self.nanos - earlier.nanos > LONGEST_NANOS {
            Duration { nanos: LONGEST_NANOS }
        } else {
            Duration { nanos: self.nanos - earlier.nanos }
        }
    }

    /// The point that lies a span later, or the last point of the clock.
    pub fn after(self, span: Duration) -> (r: Instant)
        ensures
            r == self.later(span),
    {
        if span.nanos > u128::MAX - self.nanos {
            Instant { nanos: u128::MAX }
        } else {
            Instant { nanos: self.nanos + span.nanos }
        }
    }

    /// The point that lies a span earlier, or the start of the clock.
    pub fn before(self, span: Duration) -> (r: Instant)
        ensures
            r.nanos == (if self.nanos > span.nanos {
                self.nanos - span.nanos
            } else {
                0
            }),
    {
        if self.nanos > span.nanos {
            Instant { nanos: self.nanos - span.nanos }
        } else {
            Instant { nanos: 0 }
        }
    }
}

/// A point that lies a span later lies exactly that span later, where the clock reaches so
/// far; the time that has passed since a point is never negative and only grows.
pub proof fn time_runs_forward(start: Instant, span: Duration, now: Instant, later: Instant)
    requires
        now.nanos <= later.nanos,
    ensures
        start.nanos + span.nanos <= u128::MAX ==> start.later(span).nanos == start.nanos
            + span.nanos,
        start.later(span).nanos >= start.nanos,
        span.nanos <= LONGEST_NANOS && start.nanos + span.nanos <= u128::MAX ==> start.later(
            span,
        ).nanos_since(start) == span.nanos,
        0 <= now.nanos_since(start) <= later.nanos_since(start),
        now.millis_since(start) <= later.millis_since(start),
        start.nanos_since(start) == 0,
        now.nanos <= start.nanos ==> now.nanos_since(start) == 0,
        now.nanos_since(start) < 1_000_000 ==> now.millis_since(start) == 0,
        now.nanos_since(start) <= u64::MAX * 1_000_000 ==> now.millis_since(start) * 1_000_000
            <= now.nanos_since(start) < (now.millis_since(start) + 1) * 1_000_000,
{
}

} // verus!
