//! Periodic timers.

use vstd::prelude::*;

use crate::time::deadline;
use crate::time::deadline::Deadline;
use crate::time::delay::{Delay, DelayPoll};
use crate::time::instant::{Duration, Instant, LAST_NANOS};
use crate::time::poll::{Poll, TimerClosed};
use crate::time::shared::{Shared, SharedModel};
use crate::time::waker::{Released, Waker};

verus! {

/// How an [`Interval`] responds when one or more ticks were missed.
#[derive(Clone, Copy, Debug, PartialEq, Eq, Structural)]
pub enum MissedTickBehavior {
    /// Preserve every scheduled deadline and catch up with immediately ready ticks.
    Burst,
    /// Schedule the next tick one period after the completed tick was observed.
    Delay,
    /// Stay on the grid while discarding deadlines at or before the observation.
    Skip,
}

impl Default for MissedTickBehavior {
    fn default() -> (behavior: MissedTickBehavior)
        ensures
            behavior is Burst,
    {
        MissedTickBehavior::Burst
    }
}

/// A periodic timer built from sequential delays.
#[derive(Debug)]
#[must_use]
pub struct Interval {
    /// What happens after a missed tick.
    pub behavior: MissedTickBehavior,
    /// The delay until the next tick.
    pub delay: Delay,
    /// The distance between ticks.
    pub period: Duration,
}

/// What waiting for a tick led to.
pub struct TickPoll<W> {
    /// The scheduled deadline of the tick, once it has come.
    pub result: Poll<Result<Instant, TimerClosed>>,
    /// The reactor's waker, when it has to run.
    pub wake: Option<Waker<W>>,
    /// Wakers that are no longer needed.
    pub released: Released<W>,
}

/// How far after `scheduled` the next point of the grid lies, past those that `observation` has
/// reached.
pub open spec fn skip_nanos(scheduled: Instant, period: Duration, observation: Instant) -> int {
    if observation.nanos < scheduled.nanos {
        period.nanos as int
    } else {
        period.nanos * ((observation.nanos - scheduled.nanos) / (period.nanos as int) + 1)
    }
}

impl Interval {
    /// Whether the interval waits for a tick.
    pub open spec fn wf<W>(self, shared: SharedModel<W>) -> bool {
        &&& self.period.nanos != 0
        &&& self.delay.fired_at is None
        &&& self.delay.wf(shared)
    }

    /// When the tick after the one at `scheduled` is due, if that one was observed at
    /// `observation`.
    pub open spec fn following(self, scheduled: Instant, observation: Instant) -> Deadline {
        match self.behavior {
            MissedTickBehavior::Burst => deadline::deadline_after(
                scheduled,
                self.period.nanos as int,
            ),
            MissedTickBehavior::Delay => deadline::deadline_after(
                observation,
                self.period.nanos as int,
            ),
            MissedTickBehavior::Skip => deadline::deadline_after(
                scheduled,
                skip_nanos(scheduled, self.period, observation),
            ),
        }
    }

    /// The interval after its delay has been polled: a tick that has come is consumed, and the
    /// interval waits for the next one.
    pub open spec fn ticked<W>(
        self,
        shared: SharedModel<W>,
        wall: Instant,
        waker: Waker<W>,
    ) -> Interval {
        let polled = self.delay.polled(shared, wall, waker);
        Interval {
            delay: match polled.fired_at {
                Some(observation) => Delay::fresh(
                    self.following(self.delay.deadline->At_0, observation),
                ),
                None => polled,
            },
            ..self
        }
    }

    /// Waits for and consumes the next tick, and returns its scheduled deadline.
    ///
    /// While the tick has not come, nothing is consumed.
    pub fn tick<W>(&mut self, shared: &mut Shared<W>, wall: Instant, waker: Waker<W>) -> (outcome:
        TickPoll<W>)
        requires
            old(shared)@.wf(),
            old(self).delay.submits(old(shared)@, wall) ==> old(shared)@.next_key < u64::MAX,
            old(self).wf(old(shared)@),
        ensures
            final(shared)@.wf(),
            final(self).wf(final(shared)@),
            *final(self) == old(self).ticked(old(shared)@, wall, waker),
            final(shared)@ == old(self).delay.shared_after_poll(old(shared)@, wall, waker),
            ({
                let poll = old(self).delay.poll_outcome(old(shared)@, wall, waker);
                &&& outcome.wake == poll.wake
                &&& outcome.released == poll.released
                &&& outcome.result == match poll.result {
                    Poll::Ready(Ok(())) => Poll::<Result<Instant, TimerClosed>>::Ready(
                        Ok(old(self).delay.deadline->At_0),
                    ),
                    Poll::Ready(Err(closed)) => Poll::Ready(Err(closed)),
                    Poll::Pending => Poll::Pending,
                }
                &&& poll.result == Poll::<Result<(), TimerClosed>>::Ready(Ok(())) ==> old(
                    self,
                ).delay.deadline is At
            }),
    {
        let poll: DelayPoll<W> = self.delay.poll(shared, wall, waker);
        let result: Poll<Result<Instant, TimerClosed>> = match poll.result {
            Poll::Ready(Ok(())) => {
                let observation: Instant = self.delay.completion_observation();
                let scheduled: Instant = self.delay.deadline.as_instant().unwrap();
                let next: Deadline = self.next_deadline(scheduled, observation);
                self.delay = Delay::new(next);
                Poll::Ready(Ok(scheduled))
            },
            Poll::Ready(Err(closed)) => Poll::Ready(Err(closed)),
            Poll::Pending => Poll::Pending,
        };
        TickPoll { result, wake: poll.wake, released: poll.released }
    }

    /// The current missed-tick behavior.
    pub fn missed_tick_behavior(&self) -> (behavior: MissedTickBehavior)
        ensures
            behavior == self.behavior,
    {
        self.behavior
    }

    /// Changes the missed-tick behavior used after the next completed tick.
    pub fn set_missed_tick_behavior(&mut self, behavior: MissedTickBehavior)
        ensures
            *final(self) == (Interval { behavior, ..*old(self) }),
    {
        self.behavior = behavior;
    }

    /// When the tick after the one at `scheduled` is due.
    pub fn next_deadline(&self, scheduled: Instant, observation: Instant) -> (next: Deadline)
        requires
            self.period.nanos != 0,
        ensures
            next == self.following(scheduled, observation),
            self.behavior is Burst ==> {
                &&& next is At <==> scheduled.nanos + self.period.nanos <= LAST_NANOS
                &&& next matches Deadline::At(instant) ==> instant.nanos == scheduled.nanos
                    + self.period.nanos
            },
            self.behavior is Delay ==> {
                &&& next is At <==> observation.nanos + self.period.nanos <= LAST_NANOS
                &&& next matches Deadline::At(instant) ==> instant.nanos == observation.nanos
                    + self.period.nanos
            },
    {
        match self.behavior {
            MissedTickBehavior::Burst => Deadline::checked_add(scheduled, self.period),
            MissedTickBehavior::Delay => Deadline::checked_add(observation, self.period),
            MissedTickBehavior::Skip => skip_deadline(scheduled, self.period, observation),
        }
    }
}

/// An interval whose first tick is due at `deadline`.
pub fn interval_from_deadline(deadline: Deadline, period: Duration) -> (interval: Interval)
    requires
        period.nanos != 0,
    ensures
        interval == (Interval {
            behavior: MissedTickBehavior::Burst,
            delay: Delay::fresh(deadline),
            period,
        }),
{
    Interval { behavior: MissedTickBehavior::Burst, delay: Delay::new(deadline), period }
}

/// The first point of the grid through `scheduled` that lies after both `scheduled` and
/// `observation`; never when the clock cannot represent it.
pub fn skip_deadline(scheduled: Instant, period: Duration, observation: Instant) -> (next: Deadline)
    requires
        period.nanos != 0,
    ensures
        next == deadline::deadline_after(scheduled, skip_nanos(scheduled, period, observation)),
        next matches Deadline::At(instant) ==> {
            &&& (instant.nanos - scheduled.nanos) % (period.nanos as int) == 0
            &&& scheduled.nanos < instant.nanos && observation.nanos < instant.nanos
            &&& instant.nanos == scheduled.nanos + period.nanos || instant.nanos - period.nanos
                <= observation.nanos
        },
{
    proof {
        let skipping = Interval {
            behavior: MissedTickBehavior::Skip,
            delay: Delay::fresh(Deadline::Never),
            period,
        };
        law_skip_discards_passed_deadlines(skipping, scheduled, observation, 1);
    }
    let elapsed: Duration = match observation.checked_duration_since(scheduled) {
        Some(elapsed) => elapsed,
        None => {
            return Deadline::checked_add(scheduled, period);
        },
    };
    let elapsed_nanos: u128 = elapsed.as_nanos();
    let period_nanos: u128 = period.as_nanos();
    let passed: u128 = elapsed_nanos / period_nanos;
    if passed == u128::MAX {
        proof {
            assert(period_nanos * (passed + 1) > u128::MAX) by (nonlinear_arith)
                requires
                    period_nanos >= 1,
                    passed == u128::MAX,
            ;
        }
        return Deadline::Never;
    }
    let periods: u128 = passed + 1;
    match period_nanos.checked_mul(periods) {
        Some(total_nanos) => Deadline::checked_add(scheduled, Duration { nanos: total_nanos }),
        None => Deadline::Never,
    }
}

/// Skipping stays on the grid and discards exactly the points that the observation has reached:
/// the result is a positive multiple of the period after `scheduled`, it lies after the
/// observation, and no earlier such point does.
pub proof fn law_skip_is_the_next_grid_point(
    scheduled: Instant,
    period: Duration,
    observation: Instant,
    other: int,
)
    requires
        period.nanos != 0,
        other > 0,
        scheduled.nanos + period.nanos * other > observation.nanos,
    ensures
        skip_nanos(scheduled, period, observation) % (period.nanos as int) == 0,
        skip_nanos(scheduled, period, observation) >= period.nanos,
        scheduled.nanos + skip_nanos(scheduled, period, observation) > observation.nanos,
        skip_nanos(scheduled, period, observation) <= period.nanos * other,
{
    let p = period.nanos as int;
    if observation.nanos < scheduled.nanos {
        assert(p % p == 0) by (nonlinear_arith)
            requires
                p > 0,
        ;
        assert(p <= p * other) by (nonlinear_arith)
            requires
                p > 0,
                other > 0,
        ;
    } else {
        let elapsed = observation.nanos - scheduled.nanos;
        let passed = elapsed / p;
        assert(p * passed <= elapsed < p * passed + p && passed >= 0) by (nonlinear_arith)
            requires
                p > 0,
                elapsed >= 0,
                passed == elapsed / p,
        ;
        assert(p * (passed + 1) == p * passed + p) by (nonlinear_arith);
        assert((p * (passed + 1)) % p == 0) by (nonlinear_arith)
            requires
                p > 0,
        ;
        assert(p * (passed + 1) >= p) by (nonlinear_arith)
            requires
                p > 0,
                passed >= 0,
        ;
        assert(passed + 1 <= other) by (nonlinear_arith)
            requires
                p > 0,
                p * passed <= elapsed,
                elapsed < p * other,
        ;
        assert(p * (passed + 1) <= p * other) by (nonlinear_arith)
            requires
                p > 0,
                passed + 1 <= other,
        ;
    }
}

/// Skipping differs from bursting only when a tick was missed: as long as the observation comes
/// before the next point of the grid, both schedule that point.
pub proof fn law_no_tick_missed(interval: Interval, scheduled: Instant, observation: Instant)
    requires
        interval.period.nanos != 0,
        scheduled.nanos <= observation.nanos < scheduled.nanos + interval.period.nanos,
    ensures
        skip_nanos(scheduled, interval.period, observation) == interval.period.nanos,
{
    let p = interval.period.nanos as int;
    let elapsed = observation.nanos - scheduled.nanos;
    assert(elapsed / p == 0) by (nonlinear_arith)
        requires
            0 <= elapsed < p,
    ;
}

/// A tick that has not come is not consumed: the interval still waits for the same deadline.
pub proof fn law_pending_tick_is_not_consumed<W>(
    interval: Interval,
    shared: SharedModel<W>,
    wall: Instant,
    waker: Waker<W>,
)
    requires
        interval.delay.poll_outcome(shared, wall, waker).result is Pending,
    ensures
        interval.ticked(shared, wall, waker).delay.deadline == interval.delay.deadline,
        interval.ticked(shared, wall, waker).behavior == interval.behavior,
        interval.ticked(shared, wall, waker).period == interval.period,
{
}

/// An interval reports a closed service only when the service takes no more delays.
pub proof fn law_interval_closes_only_with_its_service<W>(
    interval: Interval,
    shared: SharedModel<W>,
    wall: Instant,
    waker: Waker<W>,
)
    requires
        shared.wf(),
        interval.wf(shared),
        interval.delay.poll_outcome(shared, wall, waker).result == Poll::<
            Result<(), TimerClosed>,
        >::Ready(Err(TimerClosed)),
    ensures
        shared.refuses(),
{
    if let Some(key) = interval.delay.state {
        assert(shared.timers.contains_key(key));
    }
}

/// Bursting preserves every scheduled deadline: however late a tick is observed, the next one is
/// scheduled one period after it, and there is none only when the clock cannot show that point.
pub proof fn law_burst_preserves_deadlines(
    interval: Interval,
    scheduled: Instant,
    observation: Instant,
)
    requires
        interval.behavior is Burst,
    ensures
        interval.following(scheduled, observation) is At <==> scheduled.nanos
            + interval.period.nanos <= LAST_NANOS,
        interval.following(scheduled, observation) matches Deadline::At(next) ==> next.nanos
            - scheduled.nanos == interval.period.nanos,
{
}

/// Delaying keeps the distance to the observation: wherever a tick was scheduled, the next one is
/// scheduled one period after the tick was observed, and there is none only when the clock cannot
/// show that point.
pub proof fn law_delay_keeps_distance(interval: Interval, scheduled: Instant, observation: Instant)
    requires
        interval.behavior is Delay,
    ensures
        interval.following(scheduled, observation) is At <==> observation.nanos
            + interval.period.nanos <= LAST_NANOS,
        interval.following(scheduled, observation) matches Deadline::At(next) ==> next.nanos
            - observation.nanos == interval.period.nanos,
{
}

/// Skipping discards exactly the deadlines that have passed: the next tick lies on the grid, after
/// the tick and after the observation, and the point of the grid before it is the tick itself or
/// has been reached. There is none only when the clock cannot show it.
pub proof fn law_skip_discards_passed_deadlines(
    interval: Interval,
    scheduled: Instant,
    observation: Instant,
    periods: int,
)
    requires
        interval.behavior is Skip,
        interval.period.nanos != 0,
        periods >= 1,
    ensures
        // The first point of the grid that lies ahead is the next tick.
        scheduled.nanos + periods * interval.period.nanos > observation.nanos && (periods == 1
            || scheduled.nanos + (periods - 1) * interval.period.nanos <= observation.nanos) ==> {
            let next = interval.following(scheduled, observation);
            let point = scheduled.nanos + periods * interval.period.nanos;
            &&& next is At <==> point <= LAST_NANOS
            &&& next matches Deadline::At(instant) ==> instant.nanos == point
        },
        interval.following(scheduled, observation) matches Deadline::At(next) ==> {
            let period = interval.period.nanos as int;
            &&& next.nanos <= LAST_NANOS
            &&& next.nanos > observation.nanos
            &&& next.nanos >= scheduled.nanos + period
            &&& (next.nanos - scheduled.nanos) % period == 0
            &&& next.nanos == scheduled.nanos + period || next.nanos - period <= observation.nanos
        },
{
    let p = interval.period.nanos as int;
    let skip = skip_nanos(scheduled, interval.period, observation);
    let late = observation.nanos - scheduled.nanos;
    let ahead = if late < 0 {
        1
    } else {
        late / p + 1
    };
    assert(p * (late / p) <= late < p * (late / p) + p) by (nonlinear_arith)
        requires
            p > 0,
    ;
    assert(late >= 0 ==> late / p >= 0) by (nonlinear_arith)
        requires
            p > 0,
    ;
    assert(p * ahead == p * (ahead - 1) + p) by (nonlinear_arith);
    assert(skip == p * ahead);
    assert(p * 1 == p) by (nonlinear_arith);
    assert(skip % p == 0) by (nonlinear_arith)
        requires
            p > 0,
            skip == p * ahead,
    ;
    assert(ahead >= 1 && p * ahead >= p) by (nonlinear_arith)
        requires
            p > 0,
            ahead >= 1,
    ;
    assert(periods * p == p * periods && (periods - 1) * p == p * periods - p) by (nonlinear_arith);
    assert(periods < ahead ==> p * periods <= p * (ahead - 1)) by (nonlinear_arith)
        requires
            p > 0,
    ;
    assert(periods > ahead ==> p * (periods - 1) >= p * ahead) by (nonlinear_arith)
        requires
            p > 0,
    ;
    assert(p * (periods - 1) == p * periods - p) by (nonlinear_arith);
    assert(periods == 1 ==> p * periods == p) by (nonlinear_arith);
}

/// One poll of an interval.
pub struct Tick<W> {
    /// The interval before the poll.
    pub interval: Interval,
    /// The shared state before the poll.
    pub shared: SharedModel<W>,
    /// The reading of the system clock.
    pub wall: Instant,
    /// The polling task's waker.
    pub waker: Waker<W>,
}

impl<W> Tick<W> {
    /// The interval after the poll.
    pub open spec fn after(self) -> Interval {
        self.interval.ticked(self.shared, self.wall, self.waker)
    }

    /// Whether the poll has consumed a tick.
    pub open spec fn consumed(self) -> bool {
        self.interval.delay.poll_outcome(self.shared, self.wall, self.waker).result == Poll::<
            Result<(), TimerClosed>,
        >::Ready(Ok(()))
    }
}

/// How many ticks the first `n` polls have consumed.
pub open spec fn consumed_ticks<W>(polls: Seq<Tick<W>>, n: nat) -> nat
    decreases n,
{
    if n == 0 {
        0
    } else {
        consumed_ticks(polls, (n - 1) as nat) + if polls[n - 1].consumed() {
            1nat
        } else {
            0nat
        }
    }
}

/// Whether poll `i` finds the interval as the poll before left it.
pub open spec fn polled_next<W>(polls: Seq<Tick<W>>, i: int) -> bool {
    polls[i].interval == polls[i - 1].after()
}

/// A bursting interval never drops a tick: whenever and however often it is polled, the poll after
/// `k` consumed ticks waits for, and returns, the deadline `k` periods after the first one. So
/// consecutive ticks are one period apart, whatever the clock has read in between.
///
/// This goes as far as the clock can show the deadlines.
pub proof fn law_burst_drops_no_tick<W>(polls: Seq<Tick<W>>, start: Instant, n: nat)
    requires
        n < polls.len(),
        polls[0].interval.behavior is Burst,
        polls[0].interval.delay.deadline == Deadline::At(start),
        forall|i: int| 0 < i < polls.len() ==> #[trigger] polled_next(polls, i),
        start.nanos + consumed_ticks(polls, n) * polls[0].interval.period.nanos <= LAST_NANOS,
    ensures
        polls[n as int].interval.delay.deadline matches Deadline::At(scheduled) && scheduled.nanos
            == start.nanos + consumed_ticks(polls, n) * polls[0].interval.period.nanos,
        polls[n as int].interval.behavior is Burst,
        polls[n as int].interval.period == polls[0].interval.period,
    decreases n,
{
    let p = polls[0].interval.period.nanos as int;
    if n == 0 {
        assert(consumed_ticks(polls, 0) * p == 0) by (nonlinear_arith)
            requires
                consumed_ticks(polls, 0) == 0,
        ;
    } else {
        let before = (n - 1) as nat;
        let k = consumed_ticks(polls, before) as int;
        let more = consumed_ticks(polls, n) as int;
        assert(more == k || more == k + 1);
        assert((k + 1) * p == k * p + p && k * p >= 0) by (nonlinear_arith)
            requires
                k >= 0,
                p >= 0,
        ;
        law_burst_drops_no_tick(polls, start, before);
        assert(polled_next(polls, n as int));
    }
}

/// A bursting interval catches up at once: when the next deadline has passed too, the next poll
/// consumes its tick without waiting.
pub proof fn law_burst_catches_up_at_once<W>(
    interval: Interval,
    shared: SharedModel<W>,
    wall: Instant,
    waker: Waker<W>,
    later: SharedModel<W>,
    later_wall: Instant,
    later_waker: Waker<W>,
)
    requires
        interval.behavior is Burst,
        interval.delay.deadline matches Deadline::At(scheduled) && scheduled.nanos
            + interval.period.nanos <= LAST_NANOS && scheduled.nanos + interval.period.nanos
            <= later.observation(later_wall).nanos,
        interval.delay.poll_outcome(shared, wall, waker).result == Poll::<
            Result<(), TimerClosed>,
        >::Ready(Ok(())),
    ensures
        interval.ticked(shared, wall, waker).delay.poll_outcome(
            later,
            later_wall,
            later_waker,
        ).result == Poll::<Result<(), TimerClosed>>::Ready(Ok(())),
        interval.ticked(shared, wall, waker).delay.shared_after_poll(
            later,
            later_wall,
            later_waker,
        ) == later,
{
}

/// After a consumed tick, the interval waits for the deadline that its behavior asks for, seen from
/// the clock reading at which the tick was observed; the tick before has no part in it.
pub proof fn law_consumed_tick_schedules_the_next<W>(
    interval: Interval,
    shared: SharedModel<W>,
    wall: Instant,
    waker: Waker<W>,
)
    requires
        shared.wf(),
        interval.wf(shared),
        interval.delay.poll_outcome(shared, wall, waker).result == Poll::<
            Result<(), TimerClosed>,
        >::Ready(Ok(())),
    ensures
        ({
            let next = interval.ticked(shared, wall, waker);
            let observation = interval.delay.polled(shared, wall, waker).fired_at->0;
            let scheduled = interval.delay.deadline->At_0;
            &&& interval.delay.deadline is At
            &&& scheduled.nanos <= observation.nanos
            &&& next.delay.deadline == interval.following(scheduled, observation)
            &&& next.delay.fired_at is None
            &&& next.delay.state is None
            &&& !next.delay.closed
            &&& next.behavior == interval.behavior
            &&& next.period == interval.period
            &&& next.delay.deadline matches Deadline::At(ahead) ==> match interval.behavior {
                MissedTickBehavior::Burst => ahead.nanos == scheduled.nanos
                    + interval.period.nanos,
                MissedTickBehavior::Delay => ahead.nanos == observation.nanos
                    + interval.period.nanos,
                MissedTickBehavior::Skip => {
                    &&& (ahead.nanos - scheduled.nanos) % (interval.period.nanos as int) == 0
                    &&& observation.nanos < ahead.nanos
                    &&& ahead.nanos - interval.period.nanos <= observation.nanos
                },
            }
        }),
{
    if let Some(key) = interval.delay.state {
        assert(shared.timers.contains_key(key));
    }
    let observation = interval.delay.polled(shared, wall, waker).fired_at->0;
    let scheduled = interval.delay.deadline->At_0;
    if interval.behavior is Skip {
        law_skip_discards_passed_deadlines(interval, scheduled, observation, 1);
    }
}

} // verus!
