//! When a timer is due.

use vstd::prelude::*;

use crate::time::instant::{Duration, Instant, LAST_NANOS, LONGEST_NANOS};

verus! {

/// When a timer is due.
#[derive(Clone, Copy, Debug, PartialEq, Eq, Structural)]
pub enum Deadline {
    /// At this instant.
    At(Instant),
    /// At no instant; the timer can only be closed.
    Never,
}

impl Deadline {
    /// The instant `duration` after `base`, or never when the clock cannot represent it.
    pub fn checked_add(base: Instant, duration: Duration) -> (deadline: Deadline)
        ensures
            deadline == deadline_after(base, duration.nanos as int),
            deadline is At <==> base.nanos + duration.nanos <= LAST_NANOS,
            deadline matches Deadline::At(instant) ==> instant.nanos == base.nanos
                + duration.nanos,
    {
        match base.checked_add(duration) {
            Some(instant) => Deadline::At(instant),
            None => Deadline::Never,
        }
    }

    /// The instant of this deadline, or `None` when it never comes.
    pub fn as_instant(self) -> (instant: Option<Instant>)
        ensures
            instant == self.instant(),
            match instant {
                Some(instant) => self == Deadline::At(instant),
                None => self is Never,
            },
    {
        match self {
            Deadline::At(instant) => Some(instant),
            Deadline::Never => None,
        }
    }

    /// The instant of this deadline, or `None` when it never comes.
    pub open spec fn instant(self) -> Option<Instant> {
        match self {
            Deadline::At(instant) => Some(instant),
            Deadline::Never => None,
        }
    }

    /// Whether the deadline has come at `now`.
    pub open spec fn elapsed(self, now: Instant) -> bool {
        self matches Deadline::At(instant) && instant.nanos <= now.nanos
    }
}

/// A wait for the longest span never ends: no point of the clock lies that far ahead of another.
pub proof fn law_longest_span_never_ends(base: Instant)
    requires
        base.in_range(),
    ensures
        deadline_after(base, LONGEST_NANOS as int) is Never,
{
}

/// The deadline `nanos` after `base`; never when the clock cannot represent that instant.
pub open spec fn deadline_after(base: Instant, nanos: int) -> Deadline {
    if base.nanos + nanos <= LAST_NANOS {
        Deadline::At(Instant { nanos: (base.nanos + nanos) as i128 })
    } else {
        Deadline::Never
    }
}

/// A deadline lies exactly as far after its base as was asked for: the two differ by the span, and
/// the deadline never comes only when the clock cannot show their sum.
pub proof fn law_deadline_is_exact(base: Instant, nanos: int)
    requires
        nanos >= 0,
    ensures
        deadline_after(base, nanos) is At <==> base.nanos + nanos <= LAST_NANOS,
        deadline_after(base, nanos) matches Deadline::At(instant) ==> instant.nanos - base.nanos
            == nanos,
{
}

/// Waiting twice is waiting for the sum: a deadline after a deadline lies where one wait for both
/// spans leads to.
pub proof fn law_waits_add_up(base: Instant, first: int, second: int)
    requires
        first >= 0,
        second >= 0,
        base.nanos + first <= LAST_NANOS,
    ensures
        deadline_after(base, first) matches Deadline::At(mid) && deadline_after(mid, second)
            == deadline_after(base, first + second),
{
}

/// A longer wait does not end before a shorter one, and a deadline of the clock that lies at or
/// after the base is reached by the wait for the distance.
pub proof fn law_deadline_is_monotone(base: Instant, shorter: int, longer: int, target: Instant)
    requires
        0 <= shorter <= longer,
        base.nanos <= target.nanos <= LAST_NANOS,
    ensures
        deadline_after(base, longer) matches Deadline::At(late) ==> (deadline_after(
            base,
            shorter,
        ) matches Deadline::At(early) && late.nanos - early.nanos == longer - shorter),
        deadline_after(base, target.nanos - base.nanos) == Deadline::At(target),
{
}

/// A deadline has come from its instant on and not before; one that never comes has come at no
/// instant.
pub proof fn law_deadline_comes_at_its_instant(instant: Instant, now: Instant)
    ensures
        Deadline::At(instant).elapsed(now) <==> instant.nanos <= now.nanos,
        !Deadline::Never.elapsed(now),
        Deadline::At(instant).instant() == Some(instant),
        Deadline::Never.instant() is None,
{
}

} // verus!
