//! Monotonic clock readings and time spans, in whole nanoseconds.

use vstd::prelude::*;

verus! {

/// Nanoseconds in a second.
pub const NANOS_PER_SEC: u128 = 1_000_000_000;

/// Nanoseconds in a millisecond.
pub const NANOS_PER_MILLI: u128 = 1_000_000;

/// A span of time.
#[derive(Debug, Clone, Copy, PartialEq, Eq, Structural)]
pub struct Duration {
    pub nanos: u128,
}

impl Duration {
    pub fn from_nanos(nanos: u128) -> (d: Duration)
        ensures
            d.nanos == nanos,
    {
        Duration { nanos }
    }

    pub fn from_millis(ms: u64) -> (d: Duration)
        ensures
            d == spec_from_millis(ms),
    {
        Duration { nanos: ms as u128 * NANOS_PER_MILLI }
    }

    pub fn from_secs(secs: u64) -> (d: Duration)
        ensures
            d == spec_from_secs(secs),
    {
        Duration { nanos: secs as u128 * NANOS_PER_SEC }
    }

    /// Whole milliseconds contained in the span.
    pub fn as_millis(self) -> (ms: u128)
        ensures
            ms == self.nanos / NANOS_PER_MILLI,
    {
        self.nanos / NANOS_PER_MILLI
    }

    /// Whole seconds contained in the span.
    pub fn as_secs(self) -> (s: u128)
        ensures
            s == self.nanos / NANOS_PER_SEC,
    {
        self.nanos / NANOS_PER_SEC
    }
}

pub open spec fn spec_from_millis(ms: u64) -> Duration {
    Duration { nanos: (ms * NANOS_PER_MILLI) as u128 }
}

pub open spec fn spec_from_secs(secs: u64) -> Duration {
    Duration { nanos: (secs * NANOS_PER_SEC) as u128 }
}

/// A reading of the monotonic clock: nanoseconds since an arbitrary origin.
#[derive(Debug, Clone, Copy, PartialEq, Eq, Structural)]
pub struct Instant {
    pub nanos: u64,
}

/// Time from `from` to `to`, zero when `to` is not later.
pub open spec fn elapsed(from: Instant, to: Instant) -> Duration {
    Duration { nanos: if to.nanos >= from.nanos { (to.nanos - from.nanos) as u128 } else { 0 } }
}

/// At least `limit_ms` milliseconds have passed from `from` to `to`.
pub open spec fn reached(from: Instant, to: Instant, limit_ms: u64) -> bool {
    elapsed(from, to).nanos >= limit_ms * NANOS_PER_MILLI
}

impl Instant {
    pub fn from_nanos(nanos: u64) -> (t: Instant)
        ensures
            t.nanos == nanos,
    {
        Instant { nanos }
    }

    /// Time since `earlier`, zero when `earlier` lies in the future.
    pub fn saturating_duration_since(self, earlier: Instant) -> (d: Duration)
        ensures
            d == elapsed(earlier, self),
    {
        if self.nanos >= earlier.nanos {
            Duration { nanos: (self.nanos - earlier.nanos) as u128 }
        } else {
            Duration { nanos: 0 }
        }
    }

    /// The instant `d` before this one, if the clock can express it.
    pub fn checked_sub(self, d: Duration) -> (r: Option<Instant>)
        ensures
            r == (if d.nanos <= self.nanos {
                Some(Instant { nanos: (self.nanos - d.nanos) as u64 })
            } else {
                None
            }),
    {
        if d.nanos <= self.nanos as u128 {
            Some(Instant { nanos: self.nanos - d.nanos as u64 })
        } else {
            None
        }
    }

    /// The instant `d` after this one.
    pub fn plus(self, d: Duration) -> (r: Instant)
        requires
            self.nanos + d.nanos <= u64::MAX,
        ensures
            r.nanos == self.nanos + d.nanos,
    {
        Instant { nanos: self.nanos + d.nanos as u64 }
    }

    /// Whether at least `limit_ms` milliseconds have passed since `earlier`.
    pub fn reached_since(self, earlier: Instant, limit_ms: u64) -> (r: bool)
        ensures
            r == reached(earlier, self, limit_ms),
    {
        self.saturating_duration_since(earlier).nanos >= Duration::from_millis(limit_ms).nanos
    }
}

/// A limit is reached once that many milliseconds lie between the two instants,
/// and a limit of zero at once; a clock that goes back counts as standing still.
pub proof fn limits_are_counted_in_milliseconds(from: Instant, to: Instant, limit_ms: u64)
    ensures
        reached(from, to, limit_ms) <==> limit_ms == 0 || to.nanos - from.nanos >= limit_ms
            * 1_000_000,
        from.nanos <= to.nanos ==> from.nanos + elapsed(from, to).nanos == to.nanos,
        to.nanos <= from.nanos ==> elapsed(from, to).nanos == 0,
        spec_from_millis(limit_ms).nanos == limit_ms * 1_000_000,
        spec_from_secs(limit_ms).nanos == limit_ms * 1_000_000_000,
{
}

} // verus!
