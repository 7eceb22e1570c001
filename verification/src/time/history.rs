//! What holds of a timer service over its whole life.
//!
//! Between its creation and its closing a service turns, and tasks poll delays and give them up,
//! in any order. A history lists such events.

use vstd::prelude::*;

use crate::time::delay::Delay;
use crate::time::instant;
use crate::time::instant::Instant;
use crate::time::observation;
use crate::time::poll::{Poll, TimerClosed};
use crate::time::service_laws;
use crate::time::service_model::ServiceModel;
use crate::time::shared::ClockMode;
use crate::time::waker::Waker;

verus! {

/// Something that happens to a service.
pub enum Event<W> {
    /// The service turns at clock reading `now`: the oldest `count` operations lead to `mid`, and
    /// at most `budget` steps follow.
    Turn { now: Instant, count: nat, mid: ServiceModel<W>, budget: nat },
    /// A task polls a delay when the system clock reads `wall`.
    Poll { delay: Delay, wall: Instant, waker: Waker<W> },
    /// A task gives a delay up.
    Drop { delay: Delay },
    /// The reactor prepares to wait.
    Prepare { waker: Waker<W> },
}

impl<W> Event<W> {
    /// Whether the event can happen to a service.
    pub open spec fn possible(self, service: ServiceModel<W>) -> bool {
        match self {
            Event::Turn { now, count, mid, budget } => {
                &&& observation::publishable(service.shared.genesis, now)
                &&& count <= service.shared.queue.operations.len()
                &&& service.observe(now).drains(count, mid)
            },
            Event::Poll { delay, wall, waker } => {
                &&& delay.wf(service.shared)
                &&& delay.submits(service.shared, wall) ==> service.shared.next_key < u64::MAX
            },
            Event::Drop { delay } => delay.wf(service.shared),
            Event::Prepare { waker } => true,
        }
    }

    /// The service after the event.
    pub open spec fn after(self, service: ServiceModel<W>) -> ServiceModel<W> {
        match self {
            Event::Turn { now, count, mid, budget } => mid.run(budget).settle(),
            Event::Poll { delay, wall, waker } => ServiceModel {
                shared: delay.shared_after_poll(service.shared, wall, waker),
                ..service
            },
            Event::Drop { delay } => ServiceModel {
                shared: delay.shared_after_drop(service.shared),
                ..service
            },
            Event::Prepare { waker } => service.prepared(waker),
        }
    }

    /// The wakers of tasks that run because of the event, in order. Tasks wake no tasks.
    pub open spec fn woken(self) -> Seq<Waker<W>> {
        match self {
            Event::Turn { now, count, mid, budget } => mid.woken_by_run(budget),
            _ => Seq::empty(),
        }
    }

    /// Whether the event is the poll or the end of the delay with timer `key`.
    pub open spec fn concerns(self, key: u64) -> bool {
        match self {
            Event::Turn { .. } => false,
            Event::Poll { delay, wall, waker } => delay.state == Some(key),
            Event::Drop { delay } => delay.state == Some(key),
            Event::Prepare { .. } => false,
        }
    }
}

/// The service after the first `i` events.
pub open spec fn at<W>(start: ServiceModel<W>, events: Seq<Event<W>>, i: nat) -> ServiceModel<W>
    decreases i,
{
    if i == 0 {
        start
    } else {
        events[i - 1].after(at(start, events, (i - 1) as nat))
    }
}

/// The service after all events.
pub open spec fn end<W>(start: ServiceModel<W>, events: Seq<Event<W>>) -> ServiceModel<W> {
    at(start, events, events.len())
}

/// Whether event `i` can happen after the ones before it.
pub open spec fn follows<W>(start: ServiceModel<W>, events: Seq<Event<W>>, i: nat) -> bool {
    events[i as int].possible(at(start, events, i))
}

/// Whether a service can live through these events, in this order.
pub open spec fn history<W>(start: ServiceModel<W>, events: Seq<Event<W>>) -> bool {
    &&& start.wf()
    &&& forall|i: nat| i < events.len() ==> #[trigger] follows(start, events, i)
}

/// The latest of a reading and the readings of the first `i` events' turns.
pub open spec fn latest<W>(reading: Instant, events: Seq<Event<W>>, i: nat) -> Instant
    decreases i,
{
    if i == 0 {
        reading
    } else {
        let before = latest(reading, events, (i - 1) as nat);
        match events[i - 1] {
            Event::Turn { now, count, mid, budget } => instant::later_of(now, before),
            _ => before,
        }
    }
}

/// An event keeps the invariant.
proof fn lemma_event_keeps_service<W>(service: ServiceModel<W>, event: Event<W>)
    requires
        service.wf(),
        event.possible(service),
    ensures
        event.after(service).wf(),
        event.after(service).shared.genesis == service.shared.genesis,
        event.after(service).shared.clock_mode == service.shared.clock_mode,
        event.after(service).shared.observed >= service.shared.observed,
        event.after(service).shared.closed == service.shared.closed,
        event.after(service).shared.queue.accepting == service.shared.queue.accepting,
        event.after(service).last_now == match event {
            Event::Turn { now, count, mid, budget } => instant::later_of(now, service.last_now),
            _ => service.last_now,
        },
{
    match event {
        Event::Turn { now, count, mid, budget } => {
            service_laws::law_turn_serves(service, now, count, mid, budget);
        },
        Event::Poll { delay, wall, waker } => {
            service_laws::law_poll_keeps_service(service, delay, wall, waker);
        },
        Event::Drop { delay } => {
            service_laws::law_drop_keeps_service(service, delay);
        },
        Event::Prepare { waker } => {
            service.lemma_prepared(waker);
        },
    }
}

/// Whatever happens to a service, its invariant holds at every moment; its genesis and the clock
/// that its handles read stay, and it does not close.
pub proof fn law_service_is_always_in_order<W>(
    start: ServiceModel<W>,
    events: Seq<Event<W>>,
    i: nat,
)
    requires
        history(start, events),
        i <= events.len(),
    ensures
        at(start, events, i).wf(),
        at(start, events, i).shared.genesis == start.shared.genesis,
        at(start, events, i).shared.clock_mode == start.shared.clock_mode,
        at(start, events, i).shared.closed == start.shared.closed,
        at(start, events, i).shared.queue.accepting == start.shared.queue.accepting,
    decreases i,
{
    if i > 0 {
        let before = (i - 1) as nat;
        law_service_is_always_in_order(start, events, before);
        assert(follows(start, events, before));
        lemma_event_keeps_service(at(start, events, before), events[i - 1]);
    }
}

// The clock.

/// The published reading is the latest of all readings: the one that the service started with, and
/// those of its turns.
pub proof fn law_published_reading_is_the_latest<W>(
    start: ServiceModel<W>,
    events: Seq<Event<W>>,
    i: nat,
)
    requires
        history(start, events),
        i <= events.len(),
    ensures
        at(start, events, i).shared.published() == latest(start.last_now, events, i),
    decreases i,
{
    law_service_is_always_in_order(start, events, i);
    if i > 0 {
        let before = (i - 1) as nat;
        law_published_reading_is_the_latest(start, events, before);
        law_service_is_always_in_order(start, events, before);
        assert(follows(start, events, before));
        lemma_event_keeps_service(at(start, events, before), events[i - 1]);
    }
}

/// The handle of a deterministic service reads the latest of the genesis and the readings of all
/// turns; the handle of a system-clock service reads the later of that and the system clock.
pub proof fn law_handle_reads_the_latest<W>(
    genesis: Instant,
    clock_mode: ClockMode,
    events: Seq<Event<W>>,
    i: nat,
    wall: Instant,
)
    requires
        history(ServiceModel::<W>::new(genesis, clock_mode), events),
        i <= events.len(),
    ensures
        ({
            let start = ServiceModel::<W>::new(genesis, clock_mode);
            at(start, events, i).shared.observation(wall) == match clock_mode {
                ClockMode::System => instant::later_of(wall, latest(genesis, events, i)),
                ClockMode::Driven => latest(genesis, events, i),
            }
        }),
{
    let start = ServiceModel::<W>::new(genesis, clock_mode);
    law_published_reading_is_the_latest(start, events, i);
    law_service_is_always_in_order(start, events, i);
}

/// A handle's clock never moves backwards, whatever happens to the service between two readings.
///
/// The handle of a system-clock service reads the system clock too, which must not move backwards
/// either.
pub proof fn law_handle_clock_never_decreases<W>(
    start: ServiceModel<W>,
    events: Seq<Event<W>>,
    i: nat,
    j: nat,
    wall: Instant,
    later: Instant,
)
    requires
        history(start, events),
        i <= j <= events.len(),
        start.shared.clock_mode is System ==> wall.nanos <= later.nanos,
    ensures
        at(start, events, i).shared.observation(wall).nanos <= at(
            start,
            events,
            j,
        ).shared.observation(later).nanos,
        at(start, events, i).shared.published().nanos <= at(
            start,
            events,
            j,
        ).shared.published().nanos,
    decreases j,
{
    law_service_is_always_in_order(start, events, i);
    law_service_is_always_in_order(start, events, j);
    if i < j {
        let before = (j - 1) as nat;
        law_handle_clock_never_decreases(start, events, i, before, wall, later);
        law_service_is_always_in_order(start, events, before);
        assert(follows(start, events, before));
        lemma_event_keeps_service(at(start, events, before), events[j - 1]);
    }
}

// Delays.

/// An event that is not about a delay does not disturb it. Only a turn touches its timer.
proof fn lemma_event_keeps_timer<W>(service: ServiceModel<W>, event: Event<W>, key: u64)
    requires
        service.wf(),
        event.possible(service),
        !event.concerns(key),
        service.shared.timers.contains_key(key),
    ensures
        event.after(service).shared.timers.contains_key(key),
        service_laws::moved_on(
            service.shared.timers[key],
            event.after(service).shared.timers[key],
        ),
        !(event is Turn) ==> event.after(service).shared.timers[key] == service.shared.timers[key],
{
    if let Event::Turn { now, count, mid, budget } = event {
        service_laws::law_turn_serves(service, now, count, mid, budget);
        assert(event.after(service).shared.timers.dom().contains(key));
    }
}

/// A delay that no event is about stays in order.
pub proof fn law_delay_is_always_in_order<W>(
    start: ServiceModel<W>,
    events: Seq<Event<W>>,
    delay: Delay,
    i: nat,
)
    requires
        history(start, events),
        delay.wf(start.shared),
        delay.state matches Some(key) ==> (forall|n: int|
            0 <= n < events.len() ==> !(#[trigger] events[n]).concerns(key)),
        i <= events.len(),
    ensures
        delay.wf(at(start, events, i).shared),
    decreases i,
{
    if i > 0 {
        let before = (i - 1) as nat;
        let service = at(start, events, before);
        let event = events[i - 1];
        law_delay_is_always_in_order(start, events, delay, before);
        law_service_is_always_in_order(start, events, before);
        assert(follows(start, events, before));
        lemma_event_keeps_service(service, event);
        if let Some(key) = delay.state {
            lemma_event_keeps_timer(service, event, key);
        }
    }
}

/// A delay never completes early, however often it is polled: when a delay has completed, then at
/// every later moment its deadline has come at the handle's clock, and a poll says again that it
/// has completed.
///
/// The system clock that the handle of a system-clock service reads must not move backwards.
pub proof fn law_completed_delay_stays_due<W>(
    start: ServiceModel<W>,
    events: Seq<Event<W>>,
    delay: Delay,
    wall: Instant,
    waker: Waker<W>,
    i: nat,
    later: Instant,
    later_waker: Waker<W>,
)
    requires
        start.wf(),
        delay.wf(start.shared),
        delay.fired_at is None,
        delay.poll_outcome(start.shared, wall, waker).result == Poll::<
            Result<(), TimerClosed>,
        >::Ready(Ok(())),
        history(
            ServiceModel {
                shared: delay.shared_after_poll(start.shared, wall, waker),
                ..start
            },
            events,
        ),
        i <= events.len(),
        start.shared.clock_mode is System ==> wall.nanos <= later.nanos,
    ensures
        ({
            let polled = ServiceModel {
                shared: delay.shared_after_poll(start.shared, wall, waker),
                ..start
            };
            let now = at(polled, events, i).shared.observation(later);
            &&& delay.deadline.elapsed(start.shared.observation(wall))
            &&& delay.deadline.elapsed(now)
            &&& delay.polled(start.shared, wall, waker).poll_outcome(
                at(polled, events, i).shared,
                later,
                later_waker,
            ).result == Poll::<Result<(), TimerClosed>>::Ready(Ok(()))
        }),
{
    let polled = ServiceModel {
        shared: delay.shared_after_poll(start.shared, wall, waker),
        ..start
    };
    service_laws::law_delay_never_completes_early(start.shared, delay, wall, waker);
    law_handle_clock_never_decreases(polled, events, 0, i, wall, later);
}

// Wake-ups.

/// Whether event `i` wakes the tasks of the timers `round`: a turn wakes the task of each timer
/// that it ends once, and nothing else wakes a task.
pub open spec fn wakes_round<W>(
    start: ServiceModel<W>,
    events: Seq<Event<W>>,
    i: nat,
    round: Seq<u64>,
) -> bool {
    if events[i as int] is Turn {
        service_laws::wakes_once(
            at(start, events, i).shared,
            at(start, events, i + 1).shared,
            round,
            events[i as int].woken(),
        )
    } else {
        round.len() == 0 && events[i as int].woken().len() == 0
    }
}

/// Whether the events wake the tasks of the timers that `rounds` lists for each of them.
pub open spec fn wakes_in_rounds<W>(
    start: ServiceModel<W>,
    events: Seq<Event<W>>,
    rounds: Seq<Seq<u64>>,
) -> bool {
    &&& rounds.len() == events.len()
    &&& forall|i: nat|
        i < events.len() ==> #[trigger] wakes_round(start, events, i, rounds[i as int])
}

/// How many of the first `i` events wake the task of a timer.
pub open spec fn times_woken(rounds: Seq<Seq<u64>>, key: u64, i: nat) -> nat
    decreases i,
{
    if i == 0 {
        0
    } else {
        times_woken(rounds, key, (i - 1) as nat) + if rounds[i - 1].contains(key) {
            1nat
        } else {
            0
        }
    }
}

/// Whether what event `i` runs for a timer, if it wakes the timer's task, is equivalent to `waker`.
pub open spec fn runs_equivalent<W>(
    events: Seq<Event<W>>,
    rounds: Seq<Seq<u64>>,
    key: u64,
    i: nat,
    waker: Waker<W>,
) -> bool {
    rounds[i as int].contains(key) ==> events[i as int].woken()[rounds[i as int].index_of(
        key,
    )].identity == waker.identity
}

/// The timers whose tasks are woken, for each of the first `i` events.
proof fn lemma_rounds<W>(start: ServiceModel<W>, events: Seq<Event<W>>, i: nat) -> (rounds: Seq<
    Seq<u64>,
>)
    requires
        history(start, events),
        i <= events.len(),
    ensures
        rounds.len() == i,
        forall|n: nat| n < i ==> #[trigger] wakes_round(start, events, n, rounds[n as int]),
    decreases i,
{
    if i == 0 {
        Seq::empty()
    } else {
        let before = (i - 1) as nat;
        let service = at(start, events, before);
        let rounds = lemma_rounds(start, events, before);
        law_service_is_always_in_order(start, events, before);
        assert(follows(start, events, before));
        let last: Seq<u64> = match events[i - 1] {
            Event::Turn { now, count, mid, budget } => {
                service_laws::law_turn_wakes_each_task_once(service, now, count, mid, budget)
            },
            _ => Seq::empty(),
        };
        assert(at(start, events, i) == events[i - 1].after(service));
        let all = rounds.push(last);
        assert(wakes_round(start, events, before, last));
        assert forall|n: nat| n < i implies #[trigger] wakes_round(
            start,
            events,
            n,
            all[n as int],
        ) by {
            if n < before {
                assert(wakes_round(start, events, n, rounds[n as int]));
            }
        }
        all
    }
}

/// An event wakes the task of a timer if it ends the timer, with the waker that the timer holds.
proof fn lemma_round<W>(
    start: ServiceModel<W>,
    events: Seq<Event<W>>,
    i: nat,
    round: Seq<u64>,
    key: u64,
)
    requires
        history(start, events),
        i < events.len(),
        wakes_round(start, events, i, round),
        at(start, events, i).shared.timers.contains_key(key),
        !events[i as int].concerns(key),
    ensures
        at(start, events, i + 1).shared.timers.contains_key(key),
        service_laws::moved_on(
            at(start, events, i).shared.timers[key],
            at(start, events, i + 1).shared.timers[key],
        ),
        round.contains(key) <==> !at(start, events, i).shared.timers[key].lifecycle.is_terminal()
            && at(start, events, i + 1).shared.timers[key].lifecycle.is_terminal(),
        round.contains(key) ==> at(start, events, i).shared.timers[key].waker.taken() == Some(
            events[i as int].woken()[round.index_of(key)],
        ),
{
    let service = at(start, events, i);
    let event = events[i as int];
    law_service_is_always_in_order(start, events, i);
    assert(follows(start, events, i));
    assert(at(start, events, i + 1) == event.after(service));
    lemma_event_keeps_timer(service, event, key);
    if round.contains(key) {
        assert(round[round.index_of(key)] == key);
    }
}

/// The task of a live timer is woken in the one round that ends the timer, if there is one, with
/// the waker that the timer holds.
proof fn lemma_woken_in_one_round<W>(
    start: ServiceModel<W>,
    events: Seq<Event<W>>,
    rounds: Seq<Seq<u64>>,
    key: u64,
    i: nat,
)
    requires
        history(start, events),
        wakes_in_rounds(start, events, rounds),
        start.shared.timers.contains_key(key),
        !start.shared.timers[key].lifecycle.is_terminal(),
        start.shared.timers[key].waker.taken() is Some,
        forall|n: int| 0 <= n < events.len() ==> !(#[trigger] events[n]).concerns(key),
        i <= events.len(),
    ensures
        ({
            let state = at(start, events, i).shared.timers[key];
            &&& at(start, events, i).shared.timers.contains_key(key)
            &&& state.deadline == start.shared.timers[key].deadline
            &&& state.lifecycle.is_terminal() ==> state.lifecycle is Fired
            &&& !state.lifecycle.is_terminal() ==> state.waker == start.shared.timers[key].waker
            &&& times_woken(rounds, key, i) == if state.lifecycle is Fired {
                1nat
            } else {
                0
            }
        }),
        forall|n: nat|
            n < i ==> #[trigger] runs_equivalent(
                events,
                rounds,
                key,
                n,
                start.shared.timers[key].waker.taken()->0,
            ),
    decreases i,
{
    if i > 0 {
        let before = (i - 1) as nat;
        lemma_woken_in_one_round(start, events, rounds, key, before);
        assert(wakes_round(start, events, before, rounds[before as int]));
        lemma_round(start, events, before, rounds[before as int], key);
        let waker = start.shared.timers[key].waker.taken()->0;
        assert(runs_equivalent(events, rounds, key, before, waker));
    }
}

/// A task whose delay is pending is woken once, and with the waker of its latest poll.
///
/// Whatever happens after that poll, in whatever order, until the task polls the delay again or
/// gives it up: each turn wakes the tasks of the timers that it ends, once each. The task is woken
/// once if the delay's timer has fired, and not at all if it has not; and what runs is a waker
/// equivalent to the one that the task brought.
pub proof fn law_pending_task_is_woken_once<W>(
    service: ServiceModel<W>,
    delay: Delay,
    wall: Instant,
    waker: Waker<W>,
    events: Seq<Event<W>>,
) -> (rounds: Seq<Seq<u64>>)
    requires
        service.wf(),
        delay.wf(service.shared),
        delay.submits(service.shared, wall) ==> service.shared.next_key < u64::MAX,
        delay.poll_outcome(service.shared, wall, waker).result is Pending,
        history(
            ServiceModel {
                shared: delay.shared_after_poll(service.shared, wall, waker),
                ..service
            },
            events,
        ),
        forall|n: int|
            0 <= n < events.len() ==> !(#[trigger] events[n]).concerns(
                delay.polled(service.shared, wall, waker).state->0,
            ),
    ensures
        ({
            let start = ServiceModel {
                shared: delay.shared_after_poll(service.shared, wall, waker),
                ..service
            };
            let key = delay.polled(service.shared, wall, waker).state->0;
            let state = end(start, events).shared.timers[key];
            &&& end(start, events).shared.timers.contains_key(key)
            &&& state.deadline@ == delay.deadline
            &&& wakes_in_rounds(start, events, rounds)
            &&& times_woken(rounds, key, events.len()) == if state.lifecycle is Fired {
                1nat
            } else {
                0
            }
            &&& forall|n: nat|
                n < events.len() ==> #[trigger] runs_equivalent(events, rounds, key, n, waker)
        }),
{
    let start = ServiceModel {
        shared: delay.shared_after_poll(service.shared, wall, waker),
        ..service
    };
    let key = delay.polled(service.shared, wall, waker).state->0;
    service_laws::law_pending_delay_is_known(service, delay, wall, waker);
    let rounds = lemma_rounds(start, events, events.len());
    lemma_woken_in_one_round(start, events, rounds, key, events.len());
    assert forall|n: nat| n < events.len() implies #[trigger] runs_equivalent(
        events,
        rounds,
        key,
        n,
        waker,
    ) by {
        let held = start.shared.timers[key].waker.taken()->0;
        assert(runs_equivalent(events, rounds, key, n, held));
    }
    rounds
}

/// A task whose delay is pending is woken exactly once when the service closes in the end, be it
/// by a turn or by the closing: by a turn if the delay's timer has fired, and by the closing
/// otherwise, and then too with a waker equivalent to the one of its latest poll.
pub proof fn law_pending_task_is_woken_once_by_close<W>(
    service: ServiceModel<W>,
    delay: Delay,
    wall: Instant,
    waker: Waker<W>,
    events: Seq<Event<W>>,
    drained: Seq<u64>,
) -> (woken: (Seq<Seq<u64>>, Seq<u64>))
    requires
        service.wf(),
        delay.wf(service.shared),
        delay.submits(service.shared, wall) ==> service.shared.next_key < u64::MAX,
        delay.poll_outcome(service.shared, wall, waker).result is Pending,
        history(
            ServiceModel {
                shared: delay.shared_after_poll(service.shared, wall, waker),
                ..service
            },
            events,
        ),
        forall|n: int|
            0 <= n < events.len() ==> !(#[trigger] events[n]).concerns(
                delay.polled(service.shared, wall, waker).state->0,
            ),
        end(
            ServiceModel {
                shared: delay.shared_after_poll(service.shared, wall, waker),
                ..service
            },
            events,
        ).wheel.is_drain(drained),
    ensures
        ({
            let start = ServiceModel {
                shared: delay.shared_after_poll(service.shared, wall, waker),
                ..service
            };
            let key = delay.polled(service.shared, wall, waker).state->0;
            let last = end(start, events);
            let wakers = last.woken_by_drain(drained) + last.woken_by_discard(
                last.shared.queue.operations,
            );
            let (rounds, keys) = woken;
            &&& wakes_in_rounds(start, events, rounds)
            &&& service_laws::wakes_once(last.shared, last.closed(), keys, wakers)
            &&& times_woken(rounds, key, events.len()) + (if keys.contains(key) {
                1nat
            } else {
                0
            }) == 1
            &&& forall|n: nat|
                n < events.len() ==> #[trigger] runs_equivalent(events, rounds, key, n, waker)
            &&& keys.contains(key) ==> wakers[keys.index_of(key)].identity == waker.identity
        }),
{
    let start = ServiceModel {
        shared: delay.shared_after_poll(service.shared, wall, waker),
        ..service
    };
    let key = delay.polled(service.shared, wall, waker).state->0;
    let last = end(start, events);
    let rounds = law_pending_task_is_woken_once(service, delay, wall, waker, events);
    service_laws::law_pending_delay_is_known(service, delay, wall, waker);
    lemma_woken_in_one_round(start, events, rounds, key, events.len());
    law_service_is_always_in_order(start, events, events.len());
    let keys = service_laws::law_close_wakes_each_task_once(last, drained);
    if keys.contains(key) {
        assert(keys[keys.index_of(key)] == key);
    }
    (rounds, keys)
}

} // verus!
