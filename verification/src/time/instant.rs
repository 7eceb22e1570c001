//! Points and spans of the clock that drives a timer service.
//!
//! Both are plain nanosecond counts, so every operation on them is exact: a sum that does not
//! fit is reported as `None`, never wrapped or rounded.

use vstd::prelude::*;

verus! {

/// Nanoseconds in one second.
pub const NANOS_PER_SEC: u128 = 1_000_000_000;

/// Nanoseconds in one millisecond.
pub const NANOS_PER_MILLI: u128 = 1_000_000;

/// Nanoseconds in one microsecond.
pub const NANOS_PER_MICRO: u128 = 1_000;

/// Length of the longest span, in nanoseconds: `u64::MAX` seconds and 999,999,999 nanoseconds.
pub const LONGEST_NANOS: u128 = 18_446_744_073_709_551_615_999_999_999;

/// Distance from the clock's origin to its last instant, in nanoseconds: `i64::MAX` seconds and
/// 999,999,999 nanoseconds. The clock reaches as far back as it reaches ahead.
pub const LAST_NANOS: i128 = 9_223_372_036_854_775_807_999_999_999;

/// A span of time.
#[derive(Clone, Copy, Debug, PartialEq, Eq, Structural)]
pub struct Duration {
    /// Length of the span in nanoseconds.
    pub nanos: u128,
}

impl Duration {
    /// The empty span.
    pub fn zero() -> (duration: Duration)
        ensures
            duration.nanos == 0,
    {
        Duration { nanos: 0 }
    }

    /// The longest span.
    pub fn longest() -> (duration: Duration)
        ensures
            duration.nanos == LONGEST_NANOS,
    {
        Duration { nanos: LONGEST_NANOS }
    }

    /// A span of whole seconds.
    pub fn from_secs(secs: u64) -> (duration: Duration)
        ensures
            duration.nanos == secs * 1_000_000_000,
    {
        Duration { nanos: secs as u128 * NANOS_PER_SEC }
    }

    /// A span of whole milliseconds.
    pub fn from_millis(millis: u64) -> (duration: Duration)
        ensures
            duration.nanos == millis * 1_000_000,
    {
        Duration { nanos: millis as u128 * NANOS_PER_MILLI }
    }

    /// A span of whole microseconds.
    pub fn from_micros(micros: u64) -> (duration: Duration)
        ensures
            duration.nanos == micros * 1_000,
    {
        Duration { nanos: micros as u128 * NANOS_PER_MICRO }
    }

    /// A span of nanoseconds.
    pub fn from_nanos(nanos: u64) -> (duration: Duration)
        ensures
            duration.nanos == nanos,
    {
        Duration { nanos: nanos as u128 }
    }

    /// Whether the span is empty.
    pub fn is_zero(self) -> (zero: bool)
        ensures
            zero == (self.nanos == 0),
    {
        self.nanos == 0
    }

    /// The length of the span in nanoseconds.
    pub fn as_nanos(self) -> (nanos: u128)
        ensures
            nanos == self.nanos,
    {
        self.nanos
    }

    /// The number of whole milliseconds in the span.
    pub fn as_millis(self) -> (millis: u128)
        ensures
            millis == self.nanos / 1_000_000,
    {
        self.nanos / NANOS_PER_MILLI
    }
}

/// A point of a monotonic clock.
///
/// Points are ordered by `nanos`; the origin of the scale is the application's choice. The clock
/// shows points up to [`LAST_NANOS`] from it, and sums that lie beyond are not points of it.
#[derive(Clone, Copy, Debug, PartialEq, Eq, Structural)]
pub struct Instant {
    /// Signed distance from the clock's origin in nanoseconds.
    pub nanos: i128,
}

impl Instant {
    /// The point that lies `nanos` after the clock's origin.
    pub fn from_nanos(nanos: i128) -> (instant: Instant)
        ensures
            instant.nanos == nanos,
    {
        Instant { nanos }
    }

    /// Whether the clock can show this point.
    pub open spec fn in_range(self) -> bool {
        -LAST_NANOS <= self.nanos <= LAST_NANOS
    }

    /// The point `duration` later, or `None` when the clock cannot represent it.
    pub fn checked_add(self, duration: Duration) -> (sum: Option<Instant>)
        ensures
            match sum {
                Some(instant) => instant.nanos == self.nanos + duration.nanos,
                None => self.nanos + duration.nanos > LAST_NANOS,
            },
            sum matches Some(instant) ==> instant.nanos <= LAST_NANOS,
    {
        if self.nanos > LAST_NANOS {
            return None;
        }
        let beyond: u128 = (i128::MAX - LAST_NANOS) as u128;
        if duration.nanos > self.room() - beyond {
            return None;
        }
        if duration.nanos <= i128::MAX as u128 {
            Some(Instant { nanos: self.nanos + duration.nanos as i128 })
        } else {
            let rest: u128 = duration.nanos - i128::MAX as u128;
            Some(Instant { nanos: (self.nanos + i128::MAX) + rest as i128 })
        }
    }

    /// The distance to the largest count.
    fn room(self) -> (room: u128)
        ensures
            room == i128::MAX - self.nanos,
    {
        if self.nanos >= 0 {
            (i128::MAX - self.nanos) as u128
        } else {
            // `-(nanos + 1)` is representable for every negative `nanos`.
            i128::MAX as u128 + (-(self.nanos + 1)) as u128 + 1
        }
    }

    /// The span from `earlier` to this point, or `None` when `earlier` lies after it.
    pub fn checked_duration_since(self, earlier: Instant) -> (span: Option<Duration>)
        ensures
            match span {
                Some(duration) => duration.nanos == self.nanos - earlier.nanos,
                None => self.nanos < earlier.nanos,
            },
    {
        if self.nanos < earlier.nanos {
            return None;
        }
        Some(Duration { nanos: earlier.room() - self.room() })
    }

    /// The span from `earlier` to this point, empty when `earlier` lies after it.
    pub fn duration_since(self, earlier: Instant) -> (span: Duration)
        ensures
            span.nanos == if self.nanos <= earlier.nanos {
                0
            } else {
                self.nanos - earlier.nanos
            },
    {
        match self.checked_duration_since(earlier) {
            Some(duration) => duration,
            None => Duration::zero(),
        }
    }

    /// The later of two points.
    pub fn max(self, other: Instant) -> (later: Instant)
        ensures
            later == later_of(self, other),
            later == self || later == other,
            self.nanos <= later.nanos,
            other.nanos <= later.nanos,
    {
        if self.nanos >= other.nanos {
            self
        } else {
            other
        }
    }

    /// The earlier of two points.
    pub fn min(self, other: Instant) -> (earlier: Instant)
        ensures
            earlier == earlier_of(self, other),
            earlier == self || earlier == other,
            earlier.nanos <= self.nanos,
            earlier.nanos <= other.nanos,
    {
        if self.nanos <= other.nanos {
            self
        } else {
            other
        }
    }
}

/// The later of two points.
pub open spec fn later_of(a: Instant, b: Instant) -> Instant {
    if a.nanos >= b.nanos {
        a
    } else {
        b
    }
}

/// The earlier of two points.
pub open spec fn earlier_of(a: Instant, b: Instant) -> Instant {
    if a.nanos <= b.nanos {
        a
    } else {
        b
    }
}

/// The later of two points is one of them, and no other one of them lies after it; the earlier one
/// likewise.
pub proof fn law_later_and_earlier(a: Instant, b: Instant)
    ensures
        later_of(a, b).nanos == if a.nanos < b.nanos {
            b.nanos
        } else {
            a.nanos
        },
        earlier_of(a, b).nanos == if a.nanos < b.nanos {
            a.nanos
        } else {
            b.nanos
        },
{
}

/// How far the clock and its spans reach: `i64::MAX` seconds and a rest below one second, and
/// `u64::MAX` seconds and a rest below one second.
pub proof fn law_reach_of_the_clock(instant: Instant)
    ensures
        LAST_NANOS == i64::MAX * 1_000_000_000 + 999_999_999,
        LONGEST_NANOS == u64::MAX * 1_000_000_000 + 999_999_999,
        instant.in_range() <==> -LAST_NANOS <= instant.nanos && instant.nanos <= LAST_NANOS,
{
}

} // verus!
