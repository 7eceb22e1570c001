//! Conversion between instants and wheel ticks.
//!
//! A tick is one millisecond, counted from the instant that a wheel was made at. The clock is
//! rounded down to a tick and deadlines are rounded up, so a tick that the clock has reached
//! never lies before the deadlines that were rounded to it.

use vstd::prelude::*;

use crate::time::geometry::HORIZON;
use crate::time::instant::{Duration, Instant, LAST_NANOS, NANOS_PER_MILLI};

verus! {

/// Nanoseconds in one tick.
pub const TICK_NANOS: u128 = NANOS_PER_MILLI;

/// The last tick that `instant` has reached; ticks end at `u64::MAX`.
pub open spec fn floor_tick(genesis: Instant, instant: Instant) -> int {
    let elapsed = (instant.nanos - genesis.nanos) / 1_000_000;
    if instant.nanos <= genesis.nanos {
        0
    } else if elapsed > u64::MAX {
        u64::MAX as int
    } else {
        elapsed
    }
}

/// The first tick that is not before `instant`, if the clock and its ticks reach that far.
pub open spec fn ceil_tick(genesis: Instant, instant: Instant) -> Option<int> {
    let elapsed = (instant.nanos - genesis.nanos + 999_999) / 1_000_000;
    if instant.nanos <= genesis.nanos {
        Some(0)
    } else if elapsed > u64::MAX || instant.nanos > LAST_NANOS {
        None
    } else {
        Some(elapsed)
    }
}

/// The clock reading at which `tick` starts.
pub open spec fn tick_nanos(genesis: Instant, tick: int) -> int {
    genesis.nanos + tick * 1_000_000
}

/// The instant at which `tick` starts, if the clock can represent it.
pub open spec fn instant_for_tick(genesis: Instant, tick: int) -> Option<Instant> {
    if tick_nanos(genesis, tick) <= LAST_NANOS {
        Some(Instant { nanos: tick_nanos(genesis, tick) as i128 })
    } else {
        None
    }
}

/// The instant from which a deadline beyond the horizon fits into the wheel; the deadline itself
/// when it lies beyond the last tick.
pub open spec fn promotion_instant(genesis: Instant, deadline: Instant) -> Instant {
    match ceil_tick(genesis, deadline) {
        None => deadline,
        Some(tick) => if tick < HORIZON - 1 {
            genesis
        } else {
            match instant_for_tick(genesis, tick - (HORIZON - 1)) {
                Some(instant) => instant,
                None => genesis,
            }
        },
    }
}

/// The last tick that `instant` has reached.
pub fn floor_tick_at(genesis: Instant, instant: Instant) -> (tick: u64)
    ensures
        tick == floor_tick(genesis, instant),
{
    if instant.nanos <= genesis.nanos {
        return 0;
    }
    let ticks: u128 = instant.duration_since(genesis).as_millis();
    if ticks > u64::MAX as u128 {
        u64::MAX
    } else {
        ticks as u64
    }
}

/// The first tick that is not before `instant`, or `None` when it lies beyond the last tick.
pub fn ceil_tick_at(genesis: Instant, instant: Instant) -> (tick: Option<u64>)
    ensures
        match tick {
            Some(tick) => ceil_tick(genesis, instant) == Some(tick as int),
            None => ceil_tick(genesis, instant) is None,
        },
{
    if instant.nanos <= genesis.nanos {
        return Some(0);
    }
    if instant.nanos > LAST_NANOS {
        return None;
    }
    let nanos: u128 = instant.duration_since(genesis).as_nanos();
    match nanos.checked_add(TICK_NANOS - 1) {
        None => None,
        Some(rounded) => {
            let ticks: u128 = rounded / TICK_NANOS;
            if ticks > u64::MAX as u128 {
                None
            } else {
                Some(ticks as u64)
            }
        },
    }
}

/// The instant at which `tick` starts, or `None` when the clock cannot represent it.
pub fn instant_at_tick(genesis: Instant, tick: u64) -> (instant: Option<Instant>)
    ensures
        instant == instant_for_tick(genesis, tick as int),
{
    genesis.checked_add(Duration::from_millis(tick))
}

/// The instant from which a deadline beyond the horizon fits into the wheel.
pub fn promotion_at(genesis: Instant, deadline: Instant) -> (instant: Instant)
    ensures
        instant == promotion_instant(genesis, deadline),
{
    match ceil_tick_at(genesis, deadline) {
        // Ticks do not reach this deadline, so it waits for the deadline itself.
        None => deadline,
        Some(tick) => match tick.checked_sub(HORIZON - 1) {
            None => genesis,
            Some(tick) => match instant_at_tick(genesis, tick) {
                Some(instant) => instant,
                None => genesis,
            },
        },
    }
}

/// A deadline has come once the clock has reached the tick that it was rounded up to.
pub proof fn lemma_reached_tick_is_due(genesis: Instant, deadline: Instant, now: Instant)
    requires
        genesis.nanos <= now.nanos,
        ceil_tick(genesis, deadline) matches Some(tick) && tick <= floor_tick(genesis, now),
    ensures
        deadline.nanos <= now.nanos,
{
}

/// A deadline that has not come is rounded up to a tick that the clock has not reached.
pub proof fn lemma_pending_tick_is_ahead(genesis: Instant, deadline: Instant, now: Instant)
    requires
        genesis.nanos <= now.nanos < deadline.nanos,
    ensures
        ceil_tick(genesis, deadline) matches Some(tick) ==> tick > floor_tick(genesis, now),
{
}

/// A deadline is promoted no later than it is due.
pub proof fn lemma_promotion_precedes_deadline(genesis: Instant, deadline: Instant)
    requires
        genesis.nanos <= deadline.nanos,
    ensures
        promotion_instant(genesis, deadline).nanos <= deadline.nanos,
{
}

/// From its promotion on, a pending deadline lies within the horizon of the clock.
pub proof fn lemma_promoted_within_horizon(genesis: Instant, deadline: Instant, now: Instant)
    requires
        genesis.nanos <= now.nanos < deadline.nanos,
        promotion_instant(genesis, deadline).nanos <= now.nanos,
    ensures
        ceil_tick(genesis, deadline) matches Some(tick) && floor_tick(genesis, now) < tick
            < floor_tick(genesis, now) + HORIZON,
{
}

/// The clock reaches later ticks as it advances.
pub proof fn lemma_floor_is_monotone(genesis: Instant, earlier: Instant, later: Instant)
    requires
        earlier.nanos <= later.nanos,
    ensures
        floor_tick(genesis, earlier) <= floor_tick(genesis, later),
{
}

} // verus!
