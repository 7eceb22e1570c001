//! Tasks that run again and again.
//!
//! A schedule decides when its task runs. Whoever drives it polls it, runs the task when it says
//! so, and tells it when the task has completed. Runs of one schedule never overlap.

use vstd::prelude::*;

use crate::time::deadline;
use crate::time::deadline::Deadline;
use crate::time::delay::{Delay, DelayDrop, DelayPoll};
use crate::time::instant::{Duration, Instant, LAST_NANOS};
use crate::time::interval;
use crate::time::poll::{Poll, TimerClosed};
use crate::time::shared::{Shared, SharedModel};
use crate::time::waker::{Released, Waker};

verus! {

/// How far a schedule has come.
#[derive(Debug)]
pub enum Phase {
    /// The schedule has not been polled.
    Start,
    /// The schedule waits for the next run.
    Waiting(Delay),
    /// The task runs; when it was scheduled for an instant, for this one.
    Running(Option<Instant>),
    /// The service closed.
    Closed,
}

/// What a schedule asks for.
#[derive(Clone, Copy, Debug, PartialEq, Eq, Structural)]
pub enum ScheduleAction {
    /// Run the task to completion.
    RunTask,
    /// Poll the schedule again when the waker has run.
    Wait,
    /// Stop: the service closed.
    Stop(TimerClosed),
}

/// What polling a schedule led to.
pub struct SchedulePoll<W> {
    /// What has to be done.
    pub action: ScheduleAction,
    /// The reactor's waker, when it has to run.
    pub wake: Option<Waker<W>>,
    /// Wakers that are no longer needed.
    pub released: Released<W>,
}

impl Phase {
    /// Whether a waiting schedule's delay is in order, and the schedule has not stopped before its
    /// service.
    pub open spec fn wf<W>(self, shared: SharedModel<W>) -> bool {
        &&& self matches Phase::Waiting(delay) ==> delay.wf(shared) && delay.fired_at is None
            && !delay.closed
        &&& self is Closed ==> shared.refuses()
    }

    /// Whether polling submits the schedule's delay.
    pub open spec fn submits<W>(self, shared: SharedModel<W>, wall: Instant) -> bool {
        self matches Phase::Waiting(delay) && delay.submits(shared, wall)
    }

    /// The phase after it has been polled.
    pub open spec fn polled<W>(
        self,
        shared: SharedModel<W>,
        wall: Instant,
        waker: Waker<W>,
    ) -> Phase {
        match self {
            Phase::Waiting(delay) => match delay.poll_outcome(shared, wall, waker).result {
                Poll::Ready(Ok(())) => Phase::Running(delay.deadline.instant()),
                Poll::Ready(Err(_)) => Phase::Closed,
                Poll::Pending => Phase::Waiting(delay.polled(shared, wall, waker)),
            },
            other => other,
        }
    }

    /// The shared state after the phase has been polled.
    pub open spec fn shared_after_poll<W>(
        self,
        shared: SharedModel<W>,
        wall: Instant,
        waker: Waker<W>,
    ) -> SharedModel<W> {
        match self {
            Phase::Waiting(delay) => delay.shared_after_poll(shared, wall, waker),
            _ => shared,
        }
    }

    /// What polling the phase leads to.
    pub open spec fn poll_outcome<W>(
        self,
        shared: SharedModel<W>,
        wall: Instant,
        waker: Waker<W>,
    ) -> SchedulePoll<W> {
        let action = match self.polled(shared, wall, waker) {
            Phase::Running(_) => ScheduleAction::RunTask,
            Phase::Closed => ScheduleAction::Stop(TimerClosed),
            _ => ScheduleAction::Wait,
        };
        match self {
            Phase::Waiting(delay) => {
                let poll = delay.poll_outcome(shared, wall, waker);
                SchedulePoll { action, wake: poll.wake, released: poll.released }
            },
            _ => SchedulePoll {
                action,
                wake: None,
                released: Released { previous: None, unused: Some(waker) },
            },
        }
    }

    /// Polls a phase. The start of a schedule is left by the schedule itself.
    fn poll<W>(&mut self, shared: &mut Shared<W>, wall: Instant, waker: Waker<W>) -> (outcome:
        SchedulePoll<W>)
        requires
            old(shared)@.wf(),
            old(self).submits(old(shared)@, wall) ==> old(shared)@.next_key < u64::MAX,
            old(self).wf(old(shared)@),
        ensures
            final(shared)@.wf(),
            final(self).wf(final(shared)@),
            *final(self) == old(self).polled(old(shared)@, wall, waker),
            final(shared)@ == old(self).shared_after_poll(old(shared)@, wall, waker),
            outcome == old(self).poll_outcome(old(shared)@, wall, waker),
            *old(self) is Waiting ==> (*final(self) matches Phase::Running(scheduled) ==> scheduled
                is Some),
    {
        match self {
            Phase::Waiting(delay) => {
                let deadline: Deadline = delay.deadline;
                let poll: DelayPoll<W> = delay.poll(shared, wall, waker);
                let action: ScheduleAction = match poll.result {
                    Poll::Ready(Ok(())) => {
                        *self = Phase::Running(deadline.as_instant());
                        ScheduleAction::RunTask
                    },
                    Poll::Ready(Err(closed)) => {
                        *self = Phase::Closed;
                        ScheduleAction::Stop(closed)
                    },
                    Poll::Pending => ScheduleAction::Wait,
                };
                SchedulePoll { action, wake: poll.wake, released: poll.released }
            },
            Phase::Running(_) => SchedulePoll {
                action: ScheduleAction::RunTask,
                wake: None,
                released: Released { previous: None, unused: Some(waker) },
            },
            Phase::Closed => SchedulePoll {
                action: ScheduleAction::Stop(TimerClosed),
                wake: None,
                released: Released { previous: None, unused: Some(waker) },
            },
            Phase::Start => SchedulePoll {
                action: ScheduleAction::Wait,
                wake: None,
                released: Released { previous: None, unused: Some(waker) },
            },
        }
    }

    /// The shared state after the phase has been given up.
    pub open spec fn shared_after_drop<W>(self, shared: SharedModel<W>) -> SharedModel<W> {
        match self {
            Phase::Waiting(delay) => delay.shared_after_drop(shared),
            _ => shared,
        }
    }

    /// Gives a schedule in this phase up.
    pub fn cancel<W>(self, shared: &mut Shared<W>) -> (outcome: DelayDrop<W>)
        requires
            old(shared)@.wf(),
            self.wf(old(shared)@),
        ensures
            final(shared)@.wf(),
            final(shared)@ == self.shared_after_drop(old(shared)@),
            outcome == match self {
                Phase::Waiting(delay) => delay.drop_outcome(old(shared)@),
                _ => DelayDrop::<W> { wake: None, released: None },
            },
    {
        match self {
            Phase::Waiting(delay) => delay.cancel(shared),
            _ => DelayDrop { wake: None, released: None },
        }
    }
}

/// Runs a task again a fixed delay after each completion.
#[derive(Debug)]
#[must_use]
pub struct FixedDelay {
    /// How long the first run waits; without it, the first run starts at once.
    pub initial_delay: Option<Duration>,
    /// The delay after each completion.
    pub delay: Duration,
    /// How far the schedule has come.
    pub phase: Phase,
}

/// Runs a task on a fixed grid, skipping missed runs.
#[derive(Debug)]
#[must_use]
pub struct FixedRate {
    /// How long the first run waits; without it, the first run starts at once.
    pub initial_delay: Option<Duration>,
    /// The distance between points of the grid.
    pub period: Duration,
    /// How far the schedule has come.
    pub phase: Phase,
}

/// Runs a task again at the instant that the task itself returned.
#[derive(Debug)]
#[must_use]
pub struct ArbitraryDelay {
    /// How long the first run waits; without it, the first run starts at once.
    pub initial_delay: Option<Duration>,
    /// How far the schedule has come.
    pub phase: Phase,
}

/// The phase of a schedule that is polled for the first time at `now`: the first run waits, or
/// it starts at once.
pub open spec fn first_run(initial_delay: Option<Duration>, now: Instant) -> Phase {
    match initial_delay {
        Some(delay) => Phase::Waiting(
            Delay::fresh(deadline::deadline_after(now, delay.nanos as int)),
        ),
        None => Phase::Running(None),
    }
}

/// Starts the first run, or waits for it.
fn start_first_run(initial_delay: Option<Duration>, now: Instant) -> (phase: Phase)
    ensures
        phase == first_run(initial_delay, now),
{
    match initial_delay {
        Some(delay) => Phase::Waiting(Delay::new(Deadline::checked_add(now, delay))),
        None => Phase::Running(None),
    }
}

impl FixedDelay {
    /// A schedule that has not been polled.
    pub fn new(initial_delay: Option<Duration>, delay: Duration) -> (schedule: FixedDelay)
        ensures
            schedule == (FixedDelay { initial_delay, delay, phase: Phase::Start }),
    {
        FixedDelay { initial_delay, delay, phase: Phase::Start }
    }

    /// The phase that a poll acts on.
    pub open spec fn entered(self, now: Instant) -> Phase {
        match self.phase {
            Phase::Start => first_run(self.initial_delay, now),
            phase => phase,
        }
    }

    /// Polls the schedule.
    pub fn poll<W>(&mut self, shared: &mut Shared<W>, wall: Instant, waker: Waker<W>) -> (outcome:
        SchedulePoll<W>)
        requires
            old(shared)@.wf(),
            old(self).entered(old(shared)@.observation(wall)).submits(old(shared)@, wall) ==> old(
                shared,
            )@.next_key < u64::MAX,
            old(self).phase.wf(old(shared)@),
            old(self).delay.nanos != 0,
        ensures
            final(shared)@.wf(),
            final(self).phase.wf(final(shared)@),
            ({
                let entered = old(self).entered(old(shared)@.observation(wall));
                &&& *final(self) == (FixedDelay {
                    phase: entered.polled(old(shared)@, wall, waker),
                    ..*old(self)
                })
                &&& final(shared)@ == entered.shared_after_poll(old(shared)@, wall, waker)
                &&& outcome == entered.poll_outcome(old(shared)@, wall, waker)
            }),
    {
        if let Phase::Start = &self.phase {
            let now: Instant = shared.observation(wall);
            self.phase = start_first_run(self.initial_delay, now);
        }
        self.phase.poll(shared, wall, waker)
    }

    /// Tells the schedule that its task has completed: the next run waits for the delay, which
    /// starts now.
    pub fn task_completed<W>(&mut self, shared: &Shared<W>, wall: Instant)
        requires
            shared@.wf(),
            old(self).phase is Running,
        ensures
            *final(self) == (FixedDelay {
                phase: Phase::Waiting(
                    Delay::fresh(
                        deadline::deadline_after(
                            shared@.observation(wall),
                            old(self).delay.nanos as int,
                        ),
                    ),
                ),
                ..*old(self)
            }),
            final(self).phase is Waiting,
            ({
                let sum = shared@.observation(wall).nanos + old(self).delay.nanos;
                let next = final(self).phase->Waiting_0.deadline;
                &&& next is At <==> sum <= LAST_NANOS
                &&& next matches Deadline::At(instant) ==> instant.nanos == sum
            }),
    {
        let now: Instant = shared.observation(wall);
        self.phase = Phase::Waiting(Delay::new(Deadline::checked_add(now, self.delay)));
    }
}

impl FixedRate {
    /// A schedule that has not been polled.
    pub fn new(initial_delay: Option<Duration>, period: Duration) -> (schedule: FixedRate)
        ensures
            schedule == (FixedRate { initial_delay, period, phase: Phase::Start }),
    {
        FixedRate { initial_delay, period, phase: Phase::Start }
    }

    /// Whether the schedule is in order: a running task was scheduled for a point of the grid.
    pub open spec fn wf<W>(self, shared: SharedModel<W>) -> bool {
        &&& self.phase.wf(shared)
        &&& self.phase matches Phase::Running(scheduled) ==> scheduled is Some
    }

    /// The phase that a poll acts on. The grid starts at the first run.
    pub open spec fn entered(self, now: Instant) -> Phase {
        match self.phase {
            Phase::Start => Phase::Waiting(
                Delay::fresh(
                    match self.initial_delay {
                        Some(delay) => deadline::deadline_after(now, delay.nanos as int),
                        None => Deadline::At(now),
                    },
                ),
            ),
            phase => phase,
        }
    }

    /// Polls the schedule.
    pub fn poll<W>(&mut self, shared: &mut Shared<W>, wall: Instant, waker: Waker<W>) -> (outcome:
        SchedulePoll<W>)
        requires
            old(shared)@.wf(),
            old(self).entered(old(shared)@.observation(wall)).submits(old(shared)@, wall) ==> old(
                shared,
            )@.next_key < u64::MAX,
            old(self).wf(old(shared)@),
            old(self).period.nanos != 0,
        ensures
            final(shared)@.wf(),
            final(self).wf(final(shared)@),
            ({
                let entered = old(self).entered(old(shared)@.observation(wall));
                &&& *final(self) == (FixedRate {
                    phase: entered.polled(old(shared)@, wall, waker),
                    ..*old(self)
                })
                &&& final(shared)@ == entered.shared_after_poll(old(shared)@, wall, waker)
                &&& outcome == entered.poll_outcome(old(shared)@, wall, waker)
            }),
    {
        if let Phase::Start = &self.phase {
            let now: Instant = shared.observation(wall);
            let scheduled: Deadline = match self.initial_delay {
                Some(delay) => Deadline::checked_add(now, delay),
                None => Deadline::At(now),
            };
            self.phase = Phase::Waiting(Delay::new(scheduled));
        }
        self.phase.poll(shared, wall, waker)
    }

    /// Tells the schedule that its task has completed: the next run is due at the next point of
    /// the grid that lies ahead now.
    ///
    /// The clock is read after the task. A task that outruns its period would otherwise run back
    /// to back, because every following point of the grid would have passed when it is awaited.
    pub fn task_completed<W>(&mut self, shared: &Shared<W>, wall: Instant)
        requires
            shared@.wf(),
            old(self).period.nanos != 0,
            old(self).wf(shared@),
            old(self).phase is Running,
        ensures
            *final(self) == (FixedRate {
                phase: Phase::Waiting(
                    Delay::fresh(
                        deadline::deadline_after(
                            old(self).phase->Running_0->0,
                            interval::skip_nanos(
                                old(self).phase->Running_0->0,
                                old(self).period,
                                shared@.observation(wall),
                            ),
                        ),
                    ),
                ),
                ..*old(self)
            }),
            final(self).phase is Waiting,
            final(self).phase->Waiting_0.deadline matches Deadline::At(next) ==> {
                let scheduled = old(self).phase->Running_0->0.nanos;
                let period = old(self).period.nanos as int;
                let now = shared@.observation(wall).nanos;
                &&& (next.nanos - scheduled) % period == 0
                &&& scheduled < next.nanos && now < next.nanos
                &&& next.nanos == scheduled + period || next.nanos - period <= now
            },
    {
        let completed: Instant = match &self.phase {
            Phase::Running(Some(scheduled)) => *scheduled,
            _ => {
                return;
            },
        };
        let now: Instant = shared.observation(wall);
        let next: Deadline = interval::skip_deadline(completed, self.period, now);
        proof {
            let skipping = interval::Interval {
                behavior: interval::MissedTickBehavior::Skip,
                delay: Delay::fresh(next),
                period: self.period,
            };
            interval::law_skip_discards_passed_deadlines(skipping, completed, now, 1);
        }
        self.phase = Phase::Waiting(Delay::new(next));
    }
}

impl ArbitraryDelay {
    /// A schedule that has not been polled.
    pub fn new(initial_delay: Option<Duration>) -> (schedule: ArbitraryDelay)
        ensures
            schedule == (ArbitraryDelay { initial_delay, phase: Phase::Start }),
    {
        ArbitraryDelay { initial_delay, phase: Phase::Start }
    }

    /// The phase that a poll acts on.
    pub open spec fn entered(self, now: Instant) -> Phase {
        match self.phase {
            Phase::Start => first_run(self.initial_delay, now),
            phase => phase,
        }
    }

    /// Polls the schedule.
    pub fn poll<W>(&mut self, shared: &mut Shared<W>, wall: Instant, waker: Waker<W>) -> (outcome:
        SchedulePoll<W>)
        requires
            old(shared)@.wf(),
            old(self).entered(old(shared)@.observation(wall)).submits(old(shared)@, wall) ==> old(
                shared,
            )@.next_key < u64::MAX,
            old(self).phase.wf(old(shared)@),
        ensures
            final(shared)@.wf(),
            final(self).phase.wf(final(shared)@),
            ({
                let entered = old(self).entered(old(shared)@.observation(wall));
                &&& *final(self) == (ArbitraryDelay {
                    phase: entered.polled(old(shared)@, wall, waker),
                    ..*old(self)
                })
                &&& final(shared)@ == entered.shared_after_poll(old(shared)@, wall, waker)
                &&& outcome == entered.poll_outcome(old(shared)@, wall, waker)
            }),
    {
        if let Phase::Start = &self.phase {
            let now: Instant = shared.observation(wall);
            self.phase = start_first_run(self.initial_delay, now);
        }
        self.phase.poll(shared, wall, waker)
    }

    /// Tells the schedule that its task has completed and returned the instant of the next run.
    pub fn task_completed(&mut self, next: Instant)
        requires
            old(self).phase is Running,
        ensures
            *final(self) == (ArbitraryDelay {
                phase: Phase::Waiting(Delay::fresh(Deadline::At(next))),
                ..*old(self)
            }),
            final(self).phase is Waiting,
            final(self).phase->Waiting_0.deadline == Deadline::At(next),
    {
        self.phase = Phase::Waiting(Delay::new(Deadline::At(next)));
    }
}

/// A schedule stops only when its service takes no more delays.
pub proof fn law_schedule_stops_only_with_its_service<W>(
    shared: SharedModel<W>,
    phase: Phase,
    wall: Instant,
    waker: Waker<W>,
)
    requires
        shared.wf(),
        phase.wf(shared),
        phase.poll_outcome(shared, wall, waker).action is Stop,
    ensures
        shared.refuses(),
{
    if let Phase::Waiting(delay) = phase {
        if let Some(key) = delay.state {
            assert(shared.timers.contains_key(key));
        }
    }
}

/// A fixed-rate schedule never runs back to back: whatever the task took, the next run is due
/// after the clock reading at which the task completed.
pub proof fn law_fixed_rate_never_catches_up(
    scheduled: Instant,
    period: Duration,
    completed: Instant,
)
    requires
        period.nanos != 0,
    ensures
        !deadline::deadline_after(
            scheduled,
            interval::skip_nanos(scheduled, period, completed),
        ).elapsed(completed),
{
    let distance = if completed.nanos < scheduled.nanos {
        0
    } else {
        completed.nanos - scheduled.nanos
    };
    let p = period.nanos as int;
    assert(p * (distance + 1) > distance) by (nonlinear_arith)
        requires
            p > 0,
            distance >= 0,
    ;
    interval::law_skip_is_the_next_grid_point(scheduled, period, completed, distance + 1);
}

/// A fixed-delay schedule waits after each completion: the next run is not due when the task
/// completes.
pub proof fn law_fixed_delay_waits(delay: Duration, completed: Instant)
    requires
        delay.nanos != 0,
    ensures
        !deadline::deadline_after(completed, delay.nanos as int).elapsed(completed),
{
}

} // verus!
