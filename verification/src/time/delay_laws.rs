//! What polling and giving up does, one case at a time.

use vstd::prelude::*;

use crate::time::deadline::Deadline;
use crate::time::delay::Delay;
use crate::time::entries::{Location, MAX_ENTRIES};
use crate::time::geometry;
use crate::time::instant::{Duration, Instant, LAST_NANOS};
use crate::time::interval::{Interval, MissedTickBehavior};
use crate::time::model::WheelModel;
use crate::time::observation;
use crate::time::poll::{Poll, TimerClosed};
use crate::time::queue::{Operation, QueueModel, RegisterOp};
use crate::time::schedule::{ArbitraryDelay, FixedDelay, FixedRate, Phase, ScheduleAction};
use crate::time::service_model::ServiceModel;
use crate::time::shared::{ClockMode, SharedModel};
use crate::time::state::{Lifecycle, TimerState};
use crate::time::ticks;
use crate::time::waker::{Released, Waker};
use crate::time::wheel_laws;

verus! {

// The clock.

/// What a handle reads: the last published reading, which lies as far after the genesis as was
/// published, and with a system-clock service the system clock instead when that is later.
pub proof fn law_handle_reads_published_or_wall<W>(shared: SharedModel<W>, wall: Instant)
    requires
        shared.genesis.nanos + shared.observed <= i128::MAX,
    ensures
        shared.published().nanos == shared.genesis.nanos + shared.observed,
        shared.clock_mode is Driven ==> shared.observation(wall).nanos == shared.genesis.nanos
            + shared.observed,
        shared.clock_mode is System ==> shared.observation(wall).nanos == if wall.nanos
            > shared.genesis.nanos + shared.observed {
            wall.nanos as int
        } else {
            shared.genesis.nanos + shared.observed
        },
{
}

/// A reading lies as far after the genesis as it is encoded to, and every reading up to
/// `u64::MAX` nanoseconds after the genesis can be published.
pub proof fn law_reading_is_genesis_plus_nanos(genesis: Instant, instant: Instant, nanos: u64)
    requires
        genesis.nanos + nanos <= i128::MAX,
    ensures
        observation::reading(genesis, nanos).nanos == genesis.nanos + nanos,
        observation::publishable(genesis, instant) <==> instant.nanos <= genesis.nanos + u64::MAX,
        observation::publishable(genesis, instant) && genesis.nanos <= instant.nanos
            ==> observation::encoded(genesis, instant) == instant.nanos - genesis.nanos,
        instant.nanos <= genesis.nanos ==> observation::encoded(genesis, instant) == 0,
{
}

/// Reading the clock changes the clock alone: the service keeps the later of the new reading and
/// the last one, and publishes it.
pub proof fn law_clock_reading_changes_the_clock_alone<W>(service: ServiceModel<W>, now: Instant)
    requires
        service.wf(),
        observation::publishable(service.shared.genesis, now),
    ensures
        ({
            let after = service.observe(now);
            &&& after.last_now.nanos == if now.nanos > service.last_now.nanos {
                now.nanos
            } else {
                service.last_now.nanos
            }
            &&& after.shared.genesis.nanos + after.shared.observed == after.last_now.nanos
            &&& after.wheel == service.wheel
            &&& after.prefer_non_immediate == service.prefer_non_immediate
            &&& after.shared.timers == service.shared.timers
            &&& after.shared.queue == service.shared.queue
            &&& after.shared.genesis == service.shared.genesis
            &&& after.shared.clock_mode == service.shared.clock_mode
            &&& after.shared.next_key == service.shared.next_key
            &&& after.shared.closed == service.shared.closed
        }),
{
}

// Polling a delay.

/// A delay that has not been polled waits for the deadline that it was made for, and knows nothing
/// of the service.
pub proof fn law_fresh_delay_waits_for_its_deadline(deadline: Deadline)
    ensures
        Delay::fresh(deadline).deadline == deadline,
        Delay::fresh(deadline).fired_at is None,
        Delay::fresh(deadline).state is None,
        Delay::fresh(deadline).registered_waker is None,
        !Delay::fresh(deadline).closed,
{
}

/// Whatever its deadline, a delay that has not been polled is in order with every service, and so
/// are an interval and a schedule that wait for one.
pub proof fn law_fresh_delay_is_in_order<W>(
    shared: SharedModel<W>,
    deadline: Deadline,
    behavior: MissedTickBehavior,
    period: Duration,
)
    ensures
        Delay::fresh(deadline).wf(shared),
        Phase::Start.wf(shared),
        Phase::Waiting(Delay::fresh(deadline)).wf(shared),
        Phase::Running(None).wf(shared),
        period.nanos != 0 ==> (Interval {
            behavior,
            delay: Delay::fresh(deadline),
            period,
        }).wf(shared),
{
}

/// When a poll asks for registration: at the first poll, before the deadline, of a running service
/// that takes operations.
pub proof fn law_only_a_first_poll_submits<W>(shared: SharedModel<W>, delay: Delay, wall: Instant)
    ensures
        delay.submits(shared, wall) <==> {
            &&& delay.fired_at is None && !delay.closed && delay.state is None
            &&& !shared.closed && shared.queue.accepting
            &&& delay.deadline matches Deadline::At(deadline) ==> deadline.nanos
                > shared.observation(wall).nanos
        },
        shared.refuses() <==> shared.closed || !shared.queue.accepting,
{
}

/// A first poll at or after the deadline completes at the handle's clock reading, without the
/// service.
pub proof fn law_first_poll_of_due_delay<W>(
    shared: SharedModel<W>,
    delay: Delay,
    wall: Instant,
    waker: Waker<W>,
)
    requires
        delay.fired_at is None,
        !delay.closed,
        delay.state is None,
        delay.deadline matches Deadline::At(deadline) && deadline.nanos <= shared.observation(
            wall,
        ).nanos,
    ensures
        ({
            let outcome = delay.poll_outcome(shared, wall, waker);
            let after = delay.polled(shared, wall, waker);
            &&& outcome.result == Poll::<Result<(), TimerClosed>>::Ready(Ok(()))
            &&& outcome.wake is None
            &&& outcome.released == (Released { previous: None, unused: Some(waker) })
            &&& after.fired_at == Some(shared.observation(wall))
            &&& after.deadline == delay.deadline
            &&& delay.shared_after_poll(shared, wall, waker) == shared
        }),
{
}

/// A first poll before the deadline asks a running service for registration, once: the delay is
/// pending, its registration is queued behind what was queued before, and the task's waker is held.
/// The reactor is woken when nothing was queued.
pub proof fn law_first_poll_submits<W>(
    shared: SharedModel<W>,
    delay: Delay,
    wall: Instant,
    waker: Waker<W>,
)
    requires
        delay.fired_at is None,
        !delay.closed,
        delay.state is None,
        delay.deadline matches Deadline::At(deadline) ==> deadline.nanos > shared.observation(
            wall,
        ).nanos,
        !shared.closed,
        shared.queue.accepting,
        shared.next_key < u64::MAX,
    ensures
        ({
            let outcome = delay.poll_outcome(shared, wall, waker);
            let polled = delay.polled(shared, wall, waker);
            let after = delay.shared_after_poll(shared, wall, waker);
            let key = shared.next_key;
            &&& outcome.result is Pending
            &&& outcome.released == (Released::<W> { previous: None, unused: None })
            &&& outcome.wake == if shared.queue.operations.len() == 0 {
                shared.queue.reactor_waker
            } else {
                None
            }
            &&& polled.state == Some(key)
            &&& polled.registered_waker == Some(waker.identity)
            &&& polled.deadline == delay.deadline
            &&& polled.fired_at is None && !polled.closed
            &&& after.queue.operations == shared.queue.operations.push(
                Operation::Register(RegisterOp { deadline: delay.deadline, key }),
            )
            &&& after.queue.accepting
            &&& after.timers.dom() == shared.timers.dom().insert(key)
            &&& after.timers.remove(key) == shared.timers.remove(key)
            &&& after.timers[key].lifecycle is Submitted
            &&& after.timers[key].deadline@ == delay.deadline
            &&& after.timers[key].waker.state is Ready
            &&& after.timers[key].waker.waker == Some(waker)
            &&& after.timers[key].slot is None
            &&& after.next_key == key + 1
            &&& after.observed == shared.observed
            &&& after.genesis == shared.genesis
            &&& after.clock_mode == shared.clock_mode
            &&& !after.closed
        }),
{
    let after = delay.shared_after_poll(shared, wall, waker);
    assert(after.timers.dom() =~= shared.timers.dom().insert(shared.next_key));
    assert(after.timers.remove(shared.next_key) =~= shared.timers.remove(shared.next_key));
}

/// A first poll before the deadline closes the delay when the service takes no more.
pub proof fn law_first_poll_is_refused<W>(
    shared: SharedModel<W>,
    delay: Delay,
    wall: Instant,
    waker: Waker<W>,
)
    requires
        delay.fired_at is None,
        !delay.closed,
        delay.state is None,
        delay.deadline matches Deadline::At(deadline) ==> deadline.nanos > shared.observation(
            wall,
        ).nanos,
        shared.closed || !shared.queue.accepting,
    ensures
        ({
            let outcome = delay.poll_outcome(shared, wall, waker);
            &&& outcome.result == Poll::<Result<(), TimerClosed>>::Ready(Err(TimerClosed))
            &&& outcome.wake is None
            &&& outcome.released == (Released { previous: None, unused: Some(waker) })
            &&& delay.polled(shared, wall, waker).closed
            &&& delay.polled(shared, wall, waker).fired_at is None
            &&& delay.shared_after_poll(shared, wall, waker) == shared
        }),
{
}

/// A poll of a delay whose timer has fired completes at the reading at which the timer fired, and
/// gives the timer up.
pub proof fn law_poll_of_fired_delay<W>(
    shared: SharedModel<W>,
    delay: Delay,
    wall: Instant,
    waker: Waker<W>,
    key: u64,
)
    requires
        shared.wf(),
        delay.fired_at is None,
        !delay.closed,
        delay.state == Some(key),
        shared.timers.contains_key(key),
        shared.timers[key].lifecycle is Fired,
    ensures
        ({
            let outcome = delay.poll_outcome(shared, wall, waker);
            let polled = delay.polled(shared, wall, waker);
            let after = delay.shared_after_poll(shared, wall, waker);
            &&& outcome.result == Poll::<Result<(), TimerClosed>>::Ready(Ok(()))
            &&& outcome.wake is None
            &&& outcome.released == (Released { previous: None, unused: Some(waker) })
            &&& polled.fired_at matches Some(at) && at.nanos == shared.genesis.nanos
                + shared.timers[key].fired_nanos
            &&& polled.state is None && polled.deadline == delay.deadline
            &&& after.timers == shared.timers.remove(key)
            &&& after.queue == shared.queue
            &&& after.observed == shared.observed
            &&& after.next_key == shared.next_key
        }),
{
    assert(shared.timers.contains_key(key));
}

/// A poll of a delay whose timer was closed reports the closed service, and gives the timer up.
pub proof fn law_poll_of_closed_delay<W>(
    shared: SharedModel<W>,
    delay: Delay,
    wall: Instant,
    waker: Waker<W>,
    key: u64,
)
    requires
        delay.fired_at is None,
        !delay.closed,
        delay.state == Some(key),
        shared.timers[key].lifecycle is Closed,
    ensures
        ({
            let outcome = delay.poll_outcome(shared, wall, waker);
            let polled = delay.polled(shared, wall, waker);
            let after = delay.shared_after_poll(shared, wall, waker);
            &&& outcome.result == Poll::<Result<(), TimerClosed>>::Ready(Err(TimerClosed))
            &&& outcome.wake is None
            &&& outcome.released == (Released { previous: None, unused: Some(waker) })
            &&& polled.closed && polled.fired_at is None && polled.state is None
            &&& after.timers == shared.timers.remove(key)
            &&& after.queue == shared.queue
        }),
{
}

/// A poll of a delay that waits is pending. The timer holds the task's latest waker afterwards: an
/// equivalent one stays and the offered one is handed back, another one is replaced and handed
/// back. Nothing else changes, and the reactor is not woken.
pub proof fn law_poll_of_waiting_delay<W>(
    shared: SharedModel<W>,
    delay: Delay,
    wall: Instant,
    waker: Waker<W>,
    key: u64,
)
    requires
        shared.wf(),
        delay.wf(shared),
        delay.state == Some(key),
        shared.timers[key].lifecycle is Submitted || shared.timers[key].lifecycle is Registered,
    ensures
        ({
            let outcome = delay.poll_outcome(shared, wall, waker);
            let polled = delay.polled(shared, wall, waker);
            let after = delay.shared_after_poll(shared, wall, waker);
            let held = shared.timers[key].waker.waker;
            let same = delay.registered_waker == Some(waker.identity);
            &&& outcome.result is Pending
            &&& outcome.wake is None
            &&& outcome.released == if same {
                Released { previous: None, unused: Some(waker) }
            } else {
                Released { previous: held, unused: None }
            }
            &&& polled.state == Some(key)
            &&& polled.registered_waker == Some(waker.identity)
            &&& polled.deadline == delay.deadline
            &&& polled.fired_at is None && !polled.closed
            &&& after.timers[key].waker.waker matches Some(holds) && holds.identity
                == waker.identity
            &&& after.timers[key].waker.state is Ready
            &&& after.timers[key].lifecycle == shared.timers[key].lifecycle
            &&& after.timers[key].slot == shared.timers[key].slot
            &&& after.timers[key].deadline == shared.timers[key].deadline
            &&& after.timers.remove(key) == shared.timers.remove(key)
            &&& after.queue == shared.queue
            &&& after.observed == shared.observed
            &&& after.next_key == shared.next_key
            &&& after.closed == shared.closed
        }),
{
    assert(shared.timers.contains_key(key));
    assert(delay.shared_after_poll(shared, wall, waker).timers.remove(key)
        =~= shared.timers.remove(key));
}

/// A delay that has completed says so again, and one that has closed likewise; neither changes.
pub proof fn law_poll_of_finished_delay<W>(
    shared: SharedModel<W>,
    delay: Delay,
    wall: Instant,
    waker: Waker<W>,
)
    requires
        delay.state is None,
        delay.fired_at is Some || delay.closed,
    ensures
        ({
            let outcome = delay.poll_outcome(shared, wall, waker);
            &&& outcome.result == (if delay.fired_at is Some {
                Poll::<Result<(), TimerClosed>>::Ready(Ok(()))
            } else {
                Poll::Ready(Err(TimerClosed))
            })
            &&& outcome.wake is None
            &&& outcome.released == (Released { previous: None, unused: Some(waker) })
            &&& delay.polled(shared, wall, waker) == delay
            &&& delay.shared_after_poll(shared, wall, waker) == shared
        }),
{
}

/// Giving a delay up takes its timer away and hands its waker back. A registered one queues the
/// removal of its entry, and that wakes the reactor when nothing was queued; another one queues
/// nothing.
pub proof fn law_drop_of_delay<W>(shared: SharedModel<W>, delay: Delay, key: u64)
    requires
        shared.wf(),
        delay.wf(shared),
        delay.state == Some(key),
    ensures
        ({
            let outcome = delay.drop_outcome(shared);
            let after = delay.shared_after_drop(shared);
            let state = shared.timers[key];
            let queues = state.lifecycle is Registered && shared.queue.accepting;
            &&& after.timers == shared.timers.remove(key)
            &&& after.queue.operations == if queues {
                shared.queue.operations.push(Operation::Cancel { key, slot: state.slot->0 })
            } else {
                shared.queue.operations
            }
            &&& outcome.wake == if queues && shared.queue.operations.len() == 0 {
                shared.queue.reactor_waker
            } else {
                None
            }
            &&& outcome.released == state.waker.waker
            &&& after.observed == shared.observed
            &&& after.next_key == shared.next_key
            &&& after.closed == shared.closed
            &&& after.genesis == shared.genesis
            &&& after.clock_mode == shared.clock_mode
        }),
{
    assert(shared.timers.contains_key(key));
}

/// Giving up a delay without a timer does nothing.
pub proof fn law_drop_without_timer<W>(shared: SharedModel<W>, delay: Delay)
    requires
        delay.state is None,
    ensures
        delay.shared_after_drop(shared) == shared,
        delay.drop_outcome(shared).wake is None,
        delay.drop_outcome(shared).released is None,
{
}

// Schedules.

/// Where a schedule begins: without an initial delay the first run starts at once, or lies at the
/// first poll's clock reading; with one it lies exactly that far after the reading, and is given up
/// only when the clock cannot show that point.
pub proof fn law_first_run_is_on_time(
    initial_delay: Option<Duration>,
    now: Instant,
    rate: FixedRate,
    other: FixedDelay,
    arbitrary: ArbitraryDelay,
)
    requires
        rate.initial_delay == initial_delay && rate.phase is Start,
        other.initial_delay == initial_delay && other.phase is Start,
        arbitrary.initial_delay == initial_delay && arbitrary.phase is Start,
    ensures
        initial_delay is None ==> {
            &&& other.entered(now) == Phase::Running(None)
            &&& arbitrary.entered(now) == Phase::Running(None)
            &&& rate.entered(now) matches Phase::Waiting(delay) && delay.deadline
                == Deadline::At(now) && delay.state is None && delay.fired_at is None
        },
        initial_delay matches Some(initial) ==> {
            &&& other.entered(now) == rate.entered(now)
            &&& arbitrary.entered(now) == rate.entered(now)
            &&& rate.entered(now) matches Phase::Waiting(delay) && {
                &&& delay.state is None && delay.fired_at is None && !delay.closed
                &&& delay.deadline is At <==> now.nanos + initial.nanos <= LAST_NANOS
                &&& delay.deadline matches Deadline::At(first) ==> first.nanos == now.nanos
                    + initial.nanos
            }
        },
{
}

/// A schedule that has begun goes on from where it is.
pub proof fn law_schedule_goes_on(
    now: Instant,
    rate: FixedRate,
    other: FixedDelay,
    arbitrary: ArbitraryDelay,
)
    ensures
        !(rate.phase is Start) ==> rate.entered(now) == rate.phase,
        !(other.phase is Start) ==> other.entered(now) == other.phase,
        !(arbitrary.phase is Start) ==> arbitrary.entered(now) == arbitrary.phase,
{
}

/// A waiting schedule runs its task exactly when its delay has completed, for the instant that it
/// waited for; it stops exactly when the delay reports the closed service, and waits otherwise. The
/// wakers are handed on as the delay hands them on.
pub proof fn law_schedule_follows_its_delay<W>(
    shared: SharedModel<W>,
    delay: Delay,
    wall: Instant,
    waker: Waker<W>,
)
    ensures
        ({
            let phase = Phase::Waiting(delay);
            let outcome = phase.poll_outcome(shared, wall, waker);
            let poll = delay.poll_outcome(shared, wall, waker);
            let after = phase.polled(shared, wall, waker);
            &&& outcome.action is RunTask <==> poll.result == Poll::<
                Result<(), TimerClosed>,
            >::Ready(Ok(()))
            &&& outcome.action is Stop <==> poll.result == Poll::<
                Result<(), TimerClosed>,
            >::Ready(Err(TimerClosed))
            &&& outcome.action is Wait <==> poll.result is Pending
            &&& outcome.wake == poll.wake
            &&& outcome.released == poll.released
            &&& outcome.action is RunTask ==> (after matches Phase::Running(scheduled) && (
            delay.deadline matches Deadline::At(instant) ==> scheduled == Some(instant)))
            &&& outcome.action is Stop ==> after is Closed
            &&& outcome.action is Wait ==> after == Phase::Waiting(
                delay.polled(shared, wall, waker),
            )
            &&& phase.shared_after_poll(shared, wall, waker) == delay.shared_after_poll(
                shared,
                wall,
                waker,
            )
            &&& phase.shared_after_drop(shared) == delay.shared_after_drop(shared)
            &&& phase.submits(shared, wall) == delay.submits(shared, wall)
        }),
{
}

/// A running task is asked for again until it has completed, and a stopped schedule stays stopped;
/// neither touches the service.
pub proof fn law_running_and_stopped_schedules<W>(
    shared: SharedModel<W>,
    phase: Phase,
    wall: Instant,
    waker: Waker<W>,
)
    requires
        phase is Running || phase is Closed,
    ensures
        phase.polled(shared, wall, waker) == phase,
        phase.shared_after_poll(shared, wall, waker) == shared,
        phase.shared_after_drop(shared) == shared,
        phase.poll_outcome(shared, wall, waker).wake is None,
        phase.poll_outcome(shared, wall, waker).released == (Released {
            previous: None,
            unused: Some(waker),
        }),
        phase is Running ==> phase.poll_outcome(shared, wall, waker).action is RunTask,
        phase is Closed ==> phase.poll_outcome(shared, wall, waker).action
            == ScheduleAction::Stop(TimerClosed),
{
}

// The queue.

/// What the queue does with an operation, a reactor's waker, a batch and its closing.
pub proof fn law_queue_keeps_operations_in_order<W>(
    queue: QueueModel<W>,
    operation: Operation,
    waker: Waker<W>,
)
    ensures
        // An operation goes to the back of a queue that takes operations, and wakes a waiting
        // reactor when it is the first.
        queue.sent(operation).operations == if queue.accepting {
            queue.operations.push(operation)
        } else {
            queue.operations
        },
        queue.sent(operation).accepting == queue.accepting,
        queue.woken_by_send() == if queue.accepting && queue.operations.len() == 0 {
            queue.reactor_waker
        } else {
            None
        },
        queue.woken_by_send() is Some ==> queue.sent(operation).reactor_waker is None,
        queue.woken_by_send() is None && queue.reactor_waker is Some ==> queue.sent(
            operation,
        ).reactor_waker == queue.reactor_waker,
        // A reactor may wait when nothing is queued and something may come.
        queue.idle() <==> queue.accepting && queue.operations.len() == 0,
        queue.armed(waker).operations == queue.operations,
        queue.armed(waker).accepting == queue.accepting,
        !queue.idle() ==> queue.armed(waker).reactor_waker is None,
        // Closing leaves nothing behind.
        queue.closed().operations.len() == 0,
        !queue.closed().accepting,
        queue.closed().reactor_waker is None,
{
}

// The service.

/// Registering a timer links it: the timer is registered under a new entry, which has the timer's
/// deadline and stands for it, and no other timer or entry is touched.
pub proof fn law_registration_links_the_timer<W>(
    service: ServiceModel<W>,
    operation: RegisterOp,
    next: ServiceModel<W>,
) -> (id: usize)
    requires
        service.wf(),
        service.shared.queue.operations.len() > 0,
        service.shared.queue.operations[0] == Operation::Register(operation),
        service.shared.timers.contains_key(operation.key),
        service.shared.timers[operation.key].lifecycle is Submitted,
        service.processes(next),
    ensures
        ({
            let key = operation.key;
            let state = next.shared.timers[key];
            &&& !service.wheel.timers.contains_key(id)
            &&& next.wheel.timers.dom() == service.wheel.timers.dom().insert(id)
            &&& next.wheel.timers[id].deadline == service.shared.timers[key].deadline@
            &&& next.wheel.timers[id].value == key
            &&& next.wheel.timers.remove(id) == service.wheel.timers
            &&& next.wheel.position == service.wheel.position
            &&& state.lifecycle is Registered
            &&& state.slot == Some(id)
            &&& state.waker == service.shared.timers[key].waker
            &&& state.deadline == service.shared.timers[key].deadline
            &&& next.shared.timers.remove(key) == service.shared.timers.remove(key)
            &&& next.shared.queue.operations == service.shared.queue.operations.skip(1)
            &&& next.last_now == service.last_now
        }),
{
    let popped = service.pop();
    let key = operation.key;
    let id = choose|id: usize| #[trigger] popped.registers_under(operation, id, next);
    assert(popped.registers_under(operation, id, next));
    assert(crate::time::queue::registers(service.shared.queue.operations, 0, key));
    assert(next.wheel.timers.dom() =~= service.wheel.timers.dom().insert(id));
    assert(next.wheel.timers.remove(id) =~= service.wheel.timers);
    assert(next.shared.timers.remove(key) =~= service.shared.timers.remove(key));
    id
}

/// Firing an entry ends its timer at the clock reading: the entry is gone, the timer has fired at
/// the last reading, its waker is the one that runs, and no other timer or entry is touched.
pub proof fn law_firing_ends_the_timer<W>(service: ServiceModel<W>, id: usize)
    requires
        service.wf(),
        service.wheel.timers.contains_key(id),
        service.shared.timers.contains_key(service.wheel.timers[id].value),
    ensures
        ({
            let next = service.fire(id);
            let key = service.wheel.timers[id].value;
            let state = next.shared.timers[key];
            &&& next.wheel.timers == service.wheel.timers.remove(id)
            &&& next.wheel.position == service.wheel.position
            &&& next.shared.timers.contains_key(key)
            &&& state.lifecycle is Fired
            &&& service.shared.genesis.nanos + state.fired_nanos == service.last_now.nanos
            &&& state.slot is None
            &&& state.waker.waker is None
            &&& state.deadline == service.shared.timers[key].deadline
            &&& next.shared.timers.remove(key) == service.shared.timers.remove(key)
            &&& next.shared.queue == service.shared.queue
            &&& next.last_now == service.last_now
            &&& service.woken_by_fire(id) == service.shared.timers[key].waker.waker
            &&& service.woken_by_fire(id) is Some
        }),
{
    assert(service.accounted(id));
    let key = service.wheel.timers[id].value;
    assert(service.fire(id).shared.timers.remove(key) =~= service.shared.timers.remove(key));
}

/// Whether an entry has come so far that a step can take it: it was due when it was linked, its
/// slot has started, or it has come within the horizon.
pub open spec fn entry_is_ready(wheel: WheelModel, id: usize, now: Instant) -> bool {
    let entry = wheel.timers[id];
    &&& wheel.timers.contains_key(id)
    &&& match entry.location {
        Location::Immediate => true,
        Location::Never => false,
        Location::Overflow(deadline) => ticks::promotion_instant(wheel.genesis, deadline).nanos
            <= now.nanos,
        Location::Wheel { level, slot } => entry.deadline matches Deadline::At(deadline)
            && ticks::ceil_tick(wheel.genesis, deadline) matches Some(tick) && (tick
            / geometry::width(level as int)) * geometry::width(level as int) <= ticks::floor_tick(
            wheel.genesis,
            now,
        ),
    }
}

/// Something is due exactly when there is an entry that a step can take. An entry whose deadline
/// has come for a whole tick is one.
pub proof fn law_something_is_due_for_an_entry(wheel: WheelModel, now: Instant, id: usize)
    requires
        wheel.wf(),
        wheel.reached(now),
    ensures
        entry_is_ready(wheel, id, now) ==> wheel.has_due(now),
        wheel.has_due(now) ==> exists|other: usize| #[trigger] entry_is_ready(wheel, other, now),
        wheel.timers.contains_key(id) && (wheel.timers[id].deadline matches Deadline::At(deadline)
            && deadline.nanos + 1_000_000 <= now.nanos) ==> wheel.has_due(now),
{
    if entry_is_ready(wheel, id, now) {
        let place = wheel.timers[id].location;
        assert(wheel.queues[place].contains(id));
        assert(wheel.placed(wheel.timers[id]));
        match place {
            Location::Wheel { level, slot } => {
                wheel.lemma_entry_start(id, level, slot);
                wheel.lemma_first_slot(level, slot);
            },
            Location::Overflow(deadline) => {
                if !wheel.has_due(now) {
                    wheel_laws::law_earliest_far_deadline(wheel, deadline, now);
                }
            },
            _ => {},
        }
    }
    if wheel.has_due(now) {
        if wheel.occupied(Location::Immediate) {
            let other = wheel.queues[Location::Immediate][0];
            assert(wheel.timers.contains_key(other));
            assert(entry_is_ready(wheel, other, now));
        } else if wheel.draining is Some {
            let boundary = wheel.draining->0;
            let other = wheel.queues[boundary.location()][0];
            assert(wheel.timers.contains_key(other));
            wheel.lemma_entry_start(other, boundary.level, boundary.slot);
            assert(entry_is_ready(wheel, other, now));
        } else if wheel.wheel_ready(now) {
            let boundary = wheel.next_boundary()->0;
            assert(wheel.is_next_boundary(boundary));
            let other = wheel.queues[boundary.location()][0];
            assert(wheel.timers.contains_key(other));
            wheel.lemma_entry_start(other, boundary.level, boundary.slot);
            assert(entry_is_ready(wheel, other, now));
        } else {
            let deadline = wheel.first_overflow()->0;
            assert(wheel.is_first_overflow(deadline));
            let other = wheel.queues[Location::Overflow(deadline)][0];
            assert(wheel.timers.contains_key(other));
            assert(entry_is_ready(wheel, other, now));
        }
    }
    if wheel.timers.contains_key(id) && !wheel.has_due(now) {
        wheel_laws::law_nothing_due_is_left(wheel, now, id);
    }
}

/// A service has room for a turn exactly when its entries and the operations that the turn
/// processes fit into the address space.
pub proof fn law_room_is_for_the_batch<W>(service: ServiceModel<W>, limit: int)
    requires
        limit >= 0,
    ensures
        MAX_ENTRIES == usize::MAX / 512,
        ({
            let entries = service.wheel.timers.dom().len();
            let queued = service.shared.queue.operations.len();
            service.has_room(limit) <==> entries + limit <= usize::MAX / 512 || entries + queued
                <= usize::MAX / 512
        }),
{
}

/// What becomes of a timer that is registered, fired, or ended while its service closes.
pub proof fn law_timer_ends_once<W>(state: TimerState<W>, from: Lifecycle, to: Lifecycle)
    ensures
        state.lifecycle == from ==> {
            let after = state.published(from, to);
            &&& after.lifecycle == to
            &&& after.waker.state is Terminal
            &&& state.waker.state is Ready ==> after.waker.waker is None
                && state.waker.taken() == state.waker.waker
            &&& after.deadline == state.deadline
            &&& after.fired_nanos == state.fired_nanos
            &&& after.slot == state.slot
        },
        state.lifecycle != from ==> state.published(from, to) == state,
        !(state.waker.state is Ready) ==> state.waker.taken() is None,
{
}

/// A submitted timer holds its task's waker and its deadline.
pub proof fn law_submitted_timer_holds_its_waker<W>(deadline: Deadline, waker: Waker<W>)
    ensures
        TimerState::submitted(deadline, waker).lifecycle is Submitted,
        TimerState::submitted(deadline, waker).waker.waker == Some(waker),
        TimerState::submitted(deadline, waker).waker.state is Ready,
        TimerState::submitted(deadline, waker).deadline@ == deadline,
        TimerState::submitted(deadline, waker).slot is None,
{
}

/// A new service of either clock starts at its genesis, without timers and entries, and takes
/// operations.
pub proof fn law_new_service_is_empty<W>(genesis: Instant, clock_mode: ClockMode)
    ensures
        ({
            let service = ServiceModel::<W>::new(genesis, clock_mode);
            &&& service.last_now == genesis
            &&& service.shared.genesis == genesis
            &&& service.shared.observed == 0
            &&& service.shared.clock_mode == clock_mode
            &&& service.shared.timers.dom() == Set::<u64>::empty()
            &&& service.shared.queue.operations.len() == 0
            &&& service.shared.queue.accepting
            &&& service.shared.queue.reactor_waker is None
            &&& !service.shared.closed
            &&& service.wheel.timers.dom() == Set::<usize>::empty()
            &&& service.wheel.genesis == genesis
            &&& service.wheel.position == 0
            &&& service.prefer_non_immediate
        }),
{
}

} // verus!
