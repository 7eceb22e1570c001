//! Task-side access to a timer service.

use vstd::prelude::*;

use crate::time::deadline;
use crate::time::deadline::Deadline;
use crate::time::delay::Delay;
use crate::time::instant::{Duration, Instant, LAST_NANOS};
use crate::time::interval;
use crate::time::interval::{Interval, MissedTickBehavior};
use crate::time::schedule::{ArbitraryDelay, FixedDelay, FixedRate, Phase};
use crate::time::service::TimerService;
use crate::time::shared::{ClockMode, Shared};
use crate::time::timeout::Timeout;

verus! {

/// A handle for creating timers from tasks, at a moment at which the system clock reads `wall`.
pub struct TimerHandle<'a, W> {
    /// The state shared with the service.
    pub shared: &'a Shared<W>,
    /// The reading of the system clock.
    pub wall: Instant,
}

impl<'a, W> Clone for TimerHandle<'a, W> {
    fn clone(&self) -> (handle: TimerHandle<'a, W>)
        ensures
            handle == *self,
    {
        TimerHandle { shared: self.shared, wall: self.wall }
    }
}

impl<'a, W> Copy for TimerHandle<'a, W> {

}

impl<W> Shared<W> {
    /// A handle at a moment at which the system clock reads `wall`. It stays usable after the
    /// service has closed.
    pub fn handle<'a>(&'a self, wall: Instant) -> (handle: TimerHandle<'a, W>)
        ensures
            handle == (TimerHandle { shared: self, wall }),
    {
        TimerHandle { shared: self, wall }
    }
}

impl<W> TimerService<W> {
    /// A handle at a moment at which the system clock reads `wall`.
    pub fn handle<'a>(&'a self, wall: Instant) -> (handle: TimerHandle<'a, W>)
        ensures
            handle == (TimerHandle { shared: &self.shared, wall }),
    {
        self.shared.handle(wall)
    }
}

impl<'a, W> TimerHandle<'a, W> {
    /// The current clock reading.
    ///
    /// A handle of a system-clock service reads the later of the system clock and the service's
    /// last reading. The clock of a deterministic service advances only when the service turns.
    pub fn now(&self) -> (now: Instant)
        requires
            self.shared@.wf(),
        ensures
            now == self.shared@.observation(self.wall),
            match self.shared@.clock_mode {
                ClockMode::Driven => now.nanos == self.shared@.genesis.nanos
                    + self.shared@.observed,
                ClockMode::System => {
                    &&& now.nanos >= self.wall.nanos
                    &&& now.nanos >= self.shared@.genesis.nanos + self.shared@.observed
                    &&& now.nanos == self.wall.nanos || now.nanos == self.shared@.genesis.nanos
                        + self.shared@.observed
                },
            },
    {
        self.shared.observation(self.wall)
    }

    /// A lazy delay that completes at or after `deadline`.
    pub fn delay_until(&self, deadline: Instant) -> (delay: Delay)
        ensures
            delay == Delay::fresh(Deadline::At(deadline)),
            delay.deadline == Deadline::At(deadline),
            delay.fired_at is None && delay.state is None && !delay.closed,
    {
        self.delay_to(Deadline::At(deadline))
    }

    /// A lazy delay for `duration` from the current clock reading.
    ///
    /// When the clock cannot represent the sum, the delay can complete only by closing.
    pub fn delay(&self, duration: Duration) -> (delay: Delay)
        requires
            self.shared@.wf(),
        ensures
            delay == Delay::fresh(
                deadline::deadline_after(
                    self.shared@.observation(self.wall),
                    duration.nanos as int,
                ),
            ),
            ({
                let sum = self.shared@.observation(self.wall).nanos + duration.nanos;
                &&& delay.deadline is At <==> sum <= LAST_NANOS
                &&& delay.deadline matches Deadline::At(instant) ==> instant.nanos == sum
                &&& delay.fired_at is None && delay.state is None && !delay.closed
            }),
    {
        self.delay_to(Deadline::checked_add(self.now(), duration))
    }

    /// Guards an operation that may take `duration` from the current clock reading.
    pub fn timeout(&self, duration: Duration) -> (timeout: Timeout)
        requires
            self.shared@.wf(),
        ensures
            timeout.delay == Delay::fresh(
                deadline::deadline_after(
                    self.shared@.observation(self.wall),
                    duration.nanos as int,
                ),
            ),
            ({
                let sum = self.shared@.observation(self.wall).nanos + duration.nanos;
                &&& timeout.delay.deadline is At <==> sum <= LAST_NANOS
                &&& timeout.delay.deadline matches Deadline::At(instant) ==> instant.nanos == sum
                &&& timeout.delay.fired_at is None && timeout.delay.state is None && !timeout.delay.closed
            }),
    {
        Timeout::new(self.delay(duration))
    }

    /// Guards an operation that may take until `deadline`.
    pub fn timeout_at(&self, deadline: Instant) -> (timeout: Timeout)
        ensures
            timeout.delay == Delay::fresh(Deadline::At(deadline)),
            timeout.delay.deadline == Deadline::At(deadline),
            timeout.delay.fired_at is None && timeout.delay.state is None,
            !timeout.delay.closed,
    {
        Timeout::new(self.delay_until(deadline))
    }

    /// An interval with an immediate first tick.
    pub fn interval(&self, period: Duration) -> (interval: Interval)
        requires
            self.shared@.wf(),
            period.nanos != 0,
        ensures
            interval == (Interval {
                behavior: MissedTickBehavior::Burst,
                delay: Delay::fresh(Deadline::At(self.shared@.observation(self.wall))),
                period,
            }),
            interval.delay.deadline == Deadline::At(self.shared@.observation(self.wall)),
            interval.delay.fired_at is None && interval.delay.state is None,
            !interval.delay.closed,
    {
        interval::interval_from_deadline(Deadline::At(self.now()), period)
    }

    /// An interval whose first tick is scheduled at `start`.
    pub fn interval_at(&self, start: Instant, period: Duration) -> (interval: Interval)
        requires
            period.nanos != 0,
        ensures
            interval == (Interval {
                behavior: MissedTickBehavior::Burst,
                delay: Delay::fresh(Deadline::At(start)),
                period,
            }),
            interval.delay.deadline == Deadline::At(start),
            interval.delay.fired_at is None && interval.delay.state is None,
            !interval.delay.closed,
    {
        interval::interval_from_deadline(Deadline::At(start), period)
    }

    /// Runs a task repeatedly, waiting `delay` after each completion.
    ///
    /// Without an initial delay the first run starts at once. The schedule goes on until it is
    /// given up or the service closes.
    pub fn schedule_with_fixed_delay(
        &self,
        initial_delay: Option<Duration>,
        delay: Duration,
    ) -> (schedule: FixedDelay)
        ensures
            schedule == (FixedDelay { initial_delay, delay, phase: Phase::Start }),
    {
        FixedDelay::new(initial_delay, delay)
    }

    /// Runs a task repeatedly on a fixed grid, skipping missed runs without overlap.
    ///
    /// Without an initial delay the first run starts at once. A task that outruns its period does
    /// not cause following runs to come back to back.
    pub fn schedule_at_fixed_rate(
        &self,
        initial_delay: Option<Duration>,
        period: Duration,
    ) -> (schedule: FixedRate)
        ensures
            schedule == (FixedRate { initial_delay, period, phase: Phase::Start }),
    {
        FixedRate::new(initial_delay, period)
    }

    /// Runs a task repeatedly, using each instant that it returns as the next deadline.
    ///
    /// Without an initial delay the first run starts at once. A task that keeps returning elapsed
    /// instants runs in a busy loop.
    pub fn schedule_with_arbitrary_delay(&self, initial_delay: Option<Duration>) -> (schedule:
        ArbitraryDelay)
        ensures
            schedule == (ArbitraryDelay { initial_delay, phase: Phase::Start }),
    {
        ArbitraryDelay::new(initial_delay)
    }

    /// A lazy delay with this deadline.
    pub fn delay_to(&self, deadline: Deadline) -> (delay: Delay)
        ensures
            delay == Delay::fresh(deadline),
            delay.deadline == deadline,
            delay.fired_at is None && delay.state is None && !delay.closed,
    {
        Delay::new(deadline)
    }
}

} // verus!
