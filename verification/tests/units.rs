//! Tests of the building blocks, and of what the library promises as a whole.

use scorpio::context::IoContext;
use scorpio::time::budget::{NonZeroUsize, TurnBudget};
use scorpio::time::deadline::Deadline;
use scorpio::time::delay::Delay;
use scorpio::time::entries::{List, Node};
use scorpio::time::geometry::{level_shift, slot_for_tick, HORIZON};
use scorpio::time::instant::{Duration, Instant, LAST_NANOS, LONGEST_NANOS};
use scorpio::time::interval::{interval_from_deadline, skip_deadline, MissedTickBehavior};
use scorpio::time::observation::AtomicObservation;
use scorpio::time::overflow::Overflow;
use scorpio::time::poll::{Poll, TimeoutError, TimerClosed};
use scorpio::time::queue::{Operation, OperationQueue, RegisterOp};
use scorpio::time::schedule::{FixedDelay, FixedRate, Phase, ScheduleAction};
use scorpio::time::service::TimerService;
use scorpio::time::service_model::WaitPlan;
use scorpio::time::shared::{ClockMode, Shared};
use scorpio::time::state::{DelayWakeSlot, Lifecycle, SlotState, TimerState};
use scorpio::time::ticks::{ceil_tick_at, floor_tick_at, instant_at_tick, promotion_at};
use scorpio::time::timers::Timers;
use scorpio::time::waker::{Waker, WakerIdentity};

/// The shape of a slab's storage.
#[allow(dead_code)]
enum Stored {
    Vacant(usize),
    Occupied(Node),
}

fn start() -> Instant {
    Instant::from_nanos(5_000_000_000)
}

fn millis(instant: Instant, count: u64) -> Instant {
    instant.checked_add(Duration::from_millis(count)).unwrap()
}

fn waker(name: u32) -> Waker<u32> {
    let identity = WakerIdentity {
        data: name as usize,
        vtable: 9,
    };
    Waker::new(identity, name)
}

fn names(wakers: Vec<Waker<u32>>) -> Vec<u32> {
    wakers.into_iter().map(|waker| waker.raw).collect()
}

fn name(waker: Option<Waker<u32>>) -> Option<u32> {
    waker.map(|waker| waker.raw)
}

fn limits(operations: usize, entries: usize) -> TurnBudget {
    TurnBudget::new(
        NonZeroUsize::new(operations).unwrap(),
        NonZeroUsize::new(entries).unwrap(),
    )
}

fn register(key: u64) -> Operation {
    Operation::Register(RegisterOp {
        deadline: Deadline::Never,
        key,
    })
}

fn submitted(service: &mut TimerService<u32>, deadline: Instant, name: u32) -> Delay {
    let mut delay = service.handle(deadline).delay_until(deadline);
    let outcome = delay.poll(&mut service.shared, deadline, waker(name));
    assert!(outcome.result.is_pending());
    delay
}

// Clock.

#[test]
fn instants_are_exact_at_their_limits() {
    let first = Instant::from_nanos(-LAST_NANOS);
    let last = Instant::from_nanos(LAST_NANOS);
    let one = Duration::from_nanos(1);
    let almost = Duration {
        nanos: LONGEST_NANOS - 1,
    };
    assert_eq!(first.checked_add(almost), Some(last));
    assert_eq!(first.checked_add(Duration::longest()), None);
    assert_eq!(last.checked_add(one), None);
    assert_eq!(last.checked_add(Duration::zero()), Some(last));
    assert_eq!(last.checked_duration_since(first), Some(almost));
    assert_eq!(first.checked_duration_since(last), None);
    assert_eq!(first.duration_since(last), Duration::zero());
    assert_eq!(
        Instant::from_nanos(-1).checked_add(Duration::from_nanos(3)),
        Some(Instant::from_nanos(2))
    );
    assert_eq!(first.max(last), last);
    assert_eq!(first.min(last), first);
    let lowest = Instant::from_nanos(i128::MIN);
    let highest = Instant::from_nanos(i128::MAX);
    assert_eq!(highest.checked_add(Duration::zero()), None);
    assert_eq!(
        lowest.checked_add(Duration { nanos: u128::MAX }),
        None
    );
    assert_eq!(
        lowest.checked_add(Duration {
            nanos: i128::MAX as u128 + 1
        }),
        Some(Instant::from_nanos(0))
    );
    assert_eq!(
        highest.checked_duration_since(lowest),
        Some(Duration { nanos: u128::MAX })
    );
}

#[test]
fn the_longest_span_is_that_of_the_standard_library() {
    assert_eq!(
        Duration::longest().as_nanos(),
        std::time::Duration::MAX.as_nanos()
    );
    assert_eq!(
        Deadline::checked_add(start(), Duration::longest()),
        Deadline::Never
    );
    let seconds = Duration::from_secs(u64::MAX);
    assert_eq!(Deadline::checked_add(start(), seconds), Deadline::Never);
}

#[test]
fn stored_nodes_take_at_most_128_bytes() {
    assert!(std::mem::size_of::<Stored>() <= 128);
}

#[test]
fn durations_count_nanoseconds() {
    assert_eq!(Duration::from_secs(2).as_nanos(), 2_000_000_000);
    assert_eq!(Duration::from_millis(3).as_nanos(), 3_000_000);
    assert_eq!(Duration::from_micros(4).as_nanos(), 4_000);
    assert_eq!(Duration::from_micros(1_999).as_millis(), 1);
    assert!(Duration::zero().is_zero());
    assert!(!Duration::from_nanos(1).is_zero());
}

#[test]
fn unrepresentable_deadlines_never_come() {
    let last = Instant::from_nanos(LAST_NANOS);
    assert_eq!(
        Deadline::checked_add(last, Duration::from_nanos(1)),
        Deadline::Never
    );
    assert_eq!(Deadline::Never.as_instant(), None);
    assert_eq!(Deadline::At(last).as_instant(), Some(last));
}

#[test]
fn published_readings_are_read_back_in_order() {
    let mut observation = AtomicObservation::new(start());
    assert_eq!(observation.load(), start());
    let earlier = start().checked_add(Duration::from_nanos(1)).unwrap();
    let later = start().checked_add(Duration::from_nanos(u64::MAX)).unwrap();
    assert!(observation.encode(earlier) < observation.encode(later));
    observation.store(later);
    assert_eq!(observation.load(), later);
    assert_eq!(observation.decode(1), earlier);
    assert_eq!(observation.encode(Instant::from_nanos(0)), 0);
}

#[test]
fn ticks_round_the_clock_down_and_deadlines_up() {
    let genesis = start();
    let nanos = |count: u64| genesis.checked_add(Duration::from_nanos(count)).unwrap();
    assert_eq!(floor_tick_at(genesis, nanos(999_999)), 0);
    assert_eq!(floor_tick_at(genesis, nanos(1_000_000)), 1);
    assert_eq!(floor_tick_at(genesis, Instant::from_nanos(0)), 0);
    assert_eq!(ceil_tick_at(genesis, nanos(1)), Some(1));
    assert_eq!(ceil_tick_at(genesis, nanos(1_000_000)), Some(1));
    assert_eq!(ceil_tick_at(genesis, nanos(1_000_001)), Some(2));
    assert_eq!(ceil_tick_at(genesis, genesis), Some(0));
    let last = Instant::from_nanos(LAST_NANOS);
    assert_eq!(ceil_tick_at(genesis, last), None);
    assert_eq!(floor_tick_at(genesis, last), u64::MAX);
    assert_eq!(instant_at_tick(genesis, 7), Some(millis(genesis, 7)));
    assert_eq!(instant_at_tick(last, 1), None);
    assert_eq!(promotion_at(genesis, millis(genesis, 5)), genesis);
    assert_eq!(
        promotion_at(genesis, millis(genesis, HORIZON + 41)),
        millis(genesis, 42)
    );
    assert_eq!(promotion_at(genesis, last), last);
}

#[test]
fn slots_are_groups_of_six_bits() {
    assert_eq!(level_shift(3), 18);
    assert_eq!(slot_for_tick(0b101_000011_000010, 0), 2);
    assert_eq!(slot_for_tick(0b101_000011_000010, 1), 3);
    assert_eq!(slot_for_tick(0b101_000011_000010, 2), 5);
}

#[test]
fn handles_follow_the_clock_of_their_service() {
    let wall = millis(start(), 9);
    let system = TimerService::<u32>::new(start());
    assert_eq!(system.handle(wall).now(), wall);
    assert_eq!(system.handle(Instant::from_nanos(0)).now(), start());
    let mut driven = TimerService::<u32>::new_at(start());
    assert_eq!(driven.handle(wall).now(), start());
    assert_eq!(driven.shared.clock_mode, ClockMode::Driven);
    driven.turn(millis(start(), 4), limits(1, 1));
    assert_eq!(driven.handle(wall).now(), millis(start(), 4));
}

#[test]
fn a_backwards_reading_counts_as_the_latest_one() {
    let mut service = TimerService::<u32>::new_at(start());
    service.turn(millis(start(), 4), limits(1, 1));
    service.turn(millis(start(), 1), limits(1, 1));
    assert_eq!(service.last_now, millis(start(), 4));
    assert_eq!(service.handle(start()).now(), millis(start(), 4));
}

// Collections.

#[test]
fn far_deadlines_are_ordered() {
    let list = |head: usize| List {
        head: Some(head),
        tail: Some(head),
    };
    let mut overflow = Overflow::new();
    assert!(overflow.first().is_none());
    overflow.insert(millis(start(), 20), list(2));
    overflow.insert(millis(start(), 10), list(1));
    assert_eq!(overflow.first(), Some((millis(start(), 10), list(1))));
    assert_eq!(overflow.get(millis(start(), 20)), Some(list(2)));
    assert_eq!(overflow.get(millis(start(), 30)), None);
    overflow.remove(millis(start(), 10));
    assert_eq!(overflow.first(), Some((millis(start(), 20), list(2))));
    overflow.clear();
    assert!(overflow.first().is_none());
}

#[test]
fn timer_keys_are_not_given_out_twice() {
    let mut timers = Timers::<u32>::new();
    assert!(timers.has_room());
    let first = timers.add(TimerState::new(Deadline::Never, waker(1)));
    assert_eq!(timers.lifecycle(first), Lifecycle::Submitted);
    let state = timers.take(first).unwrap();
    assert_eq!(timers.lifecycle(first), Lifecycle::Cancelled);
    assert!(timers.take(first).is_none());
    assert_ne!(timers.vacant_key(), first);
    let second = timers.add(TimerState::new(Deadline::Never, waker(2)));
    assert_ne!(second, first);
    timers.put(first, state);
    assert_eq!(timers.lifecycle(first), Lifecycle::Submitted);
}

#[test]
fn budgets_are_not_zero() {
    assert!(NonZeroUsize::new(0).is_none());
    assert_eq!(NonZeroUsize::new(3).unwrap().get(), 3);
    assert_eq!(limits(3, 4).max_operations().get(), 3);
    assert_eq!(limits(3, 4).max_timer_entries().get(), 4);
}

// Operation queue.

#[test]
fn a_waiting_reactor_is_woken_once() {
    let mut queue = OperationQueue::<u32>::new();
    let (armed, released) = queue.arm(waker(1));
    assert!(armed);
    assert!(released.previous.is_none() && released.unused.is_none());
    let (armed, released) = queue.arm(waker(1));
    assert!(armed);
    assert_eq!(name(released.unused), Some(1));
    let (armed, released) = queue.arm(waker(2));
    assert!(armed);
    assert_eq!(name(released.previous), Some(1));
    assert_eq!(queue.send(register(1)).map(name), Ok(Some(2)));
    assert_eq!(queue.send(register(2)).map(name), Ok(None));
    let (armed, released) = queue.arm(waker(3));
    assert!(!armed);
    assert_eq!(name(released.unused), Some(3));
    assert_eq!(queue.len(), 2);
}

#[test]
fn batches_take_the_oldest_operations() {
    let mut queue = OperationQueue::<u32>::new();
    for key in 0..5 {
        assert!(queue.send(register(key)).is_ok());
    }
    let mut batch = std::collections::VecDeque::new();
    queue.drain_into(2, &mut batch);
    assert_eq!(batch, [register(0), register(1)]);
    batch.clear();
    queue.drain_into(7, &mut batch);
    assert_eq!(batch, [register(2), register(3), register(4)]);
    assert_eq!(queue.len(), 0);
}

#[test]
fn a_closed_queue_hands_everything_out() {
    let mut queue = OperationQueue::<u32>::new();
    queue.arm(waker(1));
    let (operations, reactor_waker) = queue.close();
    assert!(operations.is_empty());
    assert_eq!(name(reactor_waker), Some(1));
    assert_eq!(queue.send(register(1)).map(name), Err(register(1)));
    assert!(!queue.arm(waker(2)).0);
}

#[test]
fn a_disconnected_queue_keeps_its_operations() {
    let mut queue = OperationQueue::<u32>::new();
    assert!(queue.send(register(1)).is_ok());
    queue.disconnect();
    assert_eq!(queue.send(register(2)).map(name), Err(register(2)));
    assert_eq!(queue.len(), 1);
}

// Wake slots.

#[test]
fn publication_and_registration_never_miss_each_other() {
    // Published first.
    let mut slot = DelayWakeSlot::new(waker(1));
    assert_eq!(name(slot.take()), Some(1));
    let (lifecycle, identity, released) = slot.register_and_load(waker(2), &Lifecycle::Fired);
    assert_eq!(lifecycle, Lifecycle::Fired);
    assert!(identity.is_none());
    assert_eq!(name(released.unused), Some(2));
    assert!(slot.waker.is_none());

    // Published in between.
    let mut slot = DelayWakeSlot::new(waker(1));
    assert!(slot.claim());
    assert!(slot.take().is_none());
    let released = slot.complete(waker(2));
    assert_eq!(name(released.previous), Some(1));
    assert_eq!(name(released.unused), Some(2));
    assert!(slot.waker.is_none());

    // Published last.
    let mut slot = DelayWakeSlot::new(waker(1));
    let (_, identity, released) = slot.register_and_load(waker(2), &Lifecycle::Registered);
    assert_eq!(identity, Some(waker(2).identity));
    assert_eq!(name(released.previous), Some(1));
    assert_eq!(name(slot.take()), Some(2));
    assert!(slot.waker.is_none());
}

#[test]
fn an_ended_slot_stays_ended() {
    let mut slot = DelayWakeSlot::new(waker(1));
    assert_eq!(name(slot.clear()), Some(1));
    assert!(!slot.claim());
    assert!(slot.take().is_none());
    assert_eq!(slot.state, SlotState::Terminal);
}

#[test]
fn terminal_states_are_published_once() {
    let mut state = TimerState::new(Deadline::Never, waker(1));
    assert!(state
        .publish_terminal(Lifecycle::Registered, Lifecycle::Fired)
        .is_none());
    assert_eq!(state.lifecycle, Lifecycle::Submitted);
    let woken = state.publish_terminal(Lifecycle::Submitted, Lifecycle::Closed);
    assert_eq!(name(woken), Some(1));
    assert_eq!(state.lifecycle, Lifecycle::Closed);
    assert!(state
        .publish_terminal(Lifecycle::Submitted, Lifecycle::Fired)
        .is_none());
    assert_eq!(state.lifecycle, Lifecycle::Closed);
}

// Service.

#[test]
fn timers_fire_in_order_and_wake_their_tasks() {
    let mut service = TimerService::<u32>::new_at(start());
    let mut late = submitted(&mut service, millis(start(), 30), 1);
    let mut early = submitted(&mut service, millis(start(), 10), 2);
    let mut same = submitted(&mut service, millis(start(), 10), 3);
    assert!(service.turn(start(), limits(8, 8)).is_empty());
    assert_eq!(
        names(service.turn(millis(start(), 29), limits(8, 8))),
        vec![2, 3]
    );
    for delay in [&mut early, &mut same] {
        assert!(delay
            .poll(&mut service.shared, start(), waker(4))
            .result
            .is_ready());
        assert_eq!(delay.completion_observation(), millis(start(), 29));
    }
    assert!(late
        .poll(&mut service.shared, start(), waker(1))
        .result
        .is_pending());
    assert_eq!(
        names(service.turn(millis(start(), 30), limits(8, 8))),
        vec![1]
    );
    assert!(late
        .poll(&mut service.shared, start(), waker(1))
        .result
        .is_ready());
    assert!(late.is_elapsed_at(late.completion_observation()));
    assert!(!late.is_elapsed_at(millis(start(), 29)));
}

#[test]
fn a_sufficient_turn_leaves_nothing_due() {
    let mut service = TimerService::<u32>::new_at(start());
    let mut delays = Vec::new();
    for count in 1..=50u64 {
        let deadline = millis(start(), count * count * 7);
        delays.push(submitted(&mut service, deadline, count as u32));
    }
    let now = millis(start(), 6_000);
    assert!(service.has_room(limits(50, 350)));
    let woken = service.turn(now, limits(50, 350));
    assert_eq!(service.wheel.len() + woken.len(), 50);
    for mut delay in delays {
        let due = delay.is_elapsed_at(now);
        let result = delay.poll(&mut service.shared, now, waker(0)).result;
        assert_eq!(result.is_ready(), due);
    }
}

#[test]
fn a_rounded_deadline_is_served_by_its_tick() {
    let micros = |count: u64| start().checked_add(Duration::from_micros(count)).unwrap();
    let mut service = TimerService::<u32>::new_at(start());
    let mut delay = submitted(&mut service, micros(500), 1);
    service.turn(start(), limits(8, 8));
    assert!(service.turn(micros(999), limits(8, 8)).is_empty());
    assert_eq!(names(service.turn(micros(1_200), limits(8, 8))), vec![1]);
    assert!(delay
        .poll(&mut service.shared, start(), waker(1))
        .result
        .is_ready());
    assert_eq!(delay.completion_observation(), micros(1_200));
}

#[test]
fn each_task_is_woken_once_and_by_its_latest_waker() {
    let mut service = TimerService::<u32>::new_at(start());
    let mut first = submitted(&mut service, millis(start(), 1), 1);
    let mut second = submitted(&mut service, millis(start(), 1), 2);
    let _third = submitted(&mut service, millis(start(), 9), 3);
    service.turn(start(), limits(8, 8));
    assert!(first
        .poll(&mut service.shared, start(), waker(4))
        .result
        .is_pending());
    assert_eq!(
        names(service.turn(millis(start(), 1), limits(8, 8))),
        vec![4, 2]
    );
    assert!(service.turn(millis(start(), 2), limits(8, 8)).is_empty());
    for delay in [&mut first, &mut second] {
        assert!(delay
            .poll(&mut service.shared, start(), waker(5))
            .result
            .is_ready());
    }
    let (_, closing) = service.close();
    assert_eq!(names(closing.wakers), vec![3]);
}

#[test]
fn a_running_service_reports_no_close() {
    let mut service = TimerService::<u32>::new_at(start());
    let mut delay = submitted(&mut service, millis(start(), 5), 1);
    for count in 0..5 {
        service.turn(millis(start(), count), limits(8, 8));
        let result = delay.poll(&mut service.shared, start(), waker(1)).result;
        assert!(result.is_pending());
    }
    let (mut shared, _) = service.close();
    assert_eq!(
        delay.poll(&mut shared, start(), waker(1)).result,
        Poll::Ready(Err(TimerClosed))
    );
}

#[test]
fn a_pending_delay_keeps_the_latest_waker() {
    let mut service = TimerService::<u32>::new_at(start());
    let mut delay = submitted(&mut service, millis(start(), 1), 1);
    let outcome = delay.poll(&mut service.shared, start(), waker(1));
    assert_eq!(name(outcome.released.unused), Some(1));
    let outcome = delay.poll(&mut service.shared, start(), waker(2));
    assert_eq!(name(outcome.released.previous), Some(1));
    assert_eq!(
        names(service.turn(millis(start(), 1), limits(1, 2))),
        vec![2]
    );
}

#[test]
fn giving_up_a_submitted_delay_queues_nothing() {
    let mut service = TimerService::<u32>::new_at(start());
    let delay = submitted(&mut service, millis(start(), 1), 1);
    let outcome = delay.cancel(&mut service.shared);
    assert_eq!(name(outcome.released), Some(1));
    assert_eq!(service.shared.operations.len(), 1);
    service.turn(start(), limits(1, 1));
    assert_eq!(service.wheel.len(), 0);
}

#[test]
fn giving_up_a_registered_delay_queues_its_removal() {
    let mut service = TimerService::<u32>::new_at(start());
    let delay = submitted(&mut service, millis(start(), 1), 1);
    service.turn(start(), limits(1, 1));
    let plan = service.prepare_wait(waker(7));
    assert_eq!(plan.0, WaitPlan::Until(millis(start(), 1)));
    let outcome = delay.cancel(&mut service.shared);
    assert_eq!(name(outcome.wake), Some(7));
    assert_eq!(name(outcome.released), Some(1));
    assert_eq!(service.shared.operations.len(), 1);
    assert_eq!(service.wheel.len(), 1);
    assert_eq!(service.prepare_wait(waker(7)).0, WaitPlan::Immediate);
    service.turn(start(), limits(1, 1));
    assert_eq!(service.wheel.len(), 0);
    assert_eq!(service.prepare_wait(waker(7)).0, WaitPlan::Indefinite);
}

#[test]
fn giving_up_a_finished_delay_does_nothing() {
    let mut service = TimerService::<u32>::new_at(start());
    let fresh = service.handle(start()).delay_until(millis(start(), 1));
    assert!(fresh.cancel(&mut service.shared).wake.is_none());
    let delay = submitted(&mut service, millis(start(), 1), 1);
    service.turn(millis(start(), 1), limits(1, 1));
    let outcome = delay.cancel(&mut service.shared);
    assert!(outcome.wake.is_none() && outcome.released.is_none());
    assert_eq!(service.shared.operations.len(), 0);
}

#[test]
fn cancelled_entries_fire_silently_and_late_cancellations_are_harmless() {
    let mut service = TimerService::<u32>::new_at(start());
    let first = submitted(&mut service, millis(start(), 1), 1);
    service.turn(start(), limits(8, 8));
    let _other = submitted(&mut service, millis(start(), 90), 2);
    let mut successor = submitted(&mut service, millis(start(), 80), 3);
    first.cancel(&mut service.shared);

    // The entry comes due before its removal is processed.
    assert!(service.turn(millis(start(), 2), limits(1, 8)).is_empty());
    assert_eq!(service.wheel.len(), 1);
    // Its place is taken before its removal is processed.
    service.turn(millis(start(), 2), limits(1, 8));
    assert_eq!(service.wheel.len(), 2);
    service.turn(millis(start(), 2), limits(1, 8));
    assert_eq!(service.wheel.len(), 2);
    assert_eq!(
        names(service.turn(millis(start(), 80), limits(1, 8))),
        vec![3]
    );
    assert!(successor
        .poll(&mut service.shared, start(), waker(3))
        .result
        .is_ready());
}

#[test]
fn closing_wakes_linked_timers_first() {
    let mut service = TimerService::<u32>::new_at(start());
    let mut linked = submitted(&mut service, millis(start(), 9), 1);
    let fired = submitted(&mut service, millis(start(), 1), 2);
    service.turn(millis(start(), 1), limits(8, 8));
    let mut queued = submitted(&mut service, millis(start(), 8), 3);
    let given_up = submitted(&mut service, millis(start(), 7), 4);
    given_up.cancel(&mut service.shared);
    let (mut shared, closing) = service.close();
    assert_eq!(names(closing.wakers), vec![1, 3]);
    assert!(closing.reactor_waker.is_none());
    let mut fired = fired;
    let closed: Poll<Result<(), TimerClosed>> = Poll::Ready(Err(TimerClosed));
    assert_eq!(linked.poll(&mut shared, start(), waker(5)).result, closed);
    assert_eq!(queued.poll(&mut shared, start(), waker(5)).result, closed);
    assert_eq!(
        fired.poll(&mut shared, start(), waker(5)).result,
        Poll::Ready(Ok(()))
    );
    assert!(shared.closed);
}

#[test]
fn a_busy_service_does_not_register_the_reactor() {
    let mut service = TimerService::<u32>::new_at(start());
    let _first = submitted(&mut service, millis(start(), 1), 1);
    let _second = submitted(&mut service, millis(start(), 1), 2);
    service.turn(millis(start(), 1), limits(8, 1));
    let (plan, released) = service.prepare_wait(waker(7));
    assert_eq!(plan, WaitPlan::Immediate);
    assert_eq!(name(released.unused), Some(7));
}

#[test]
fn never_deadlines_let_the_reactor_wait_indefinitely() {
    let mut service = TimerService::<u32>::new_at(start());
    let mut delay = service.handle(start()).delay_to(Deadline::Never);
    assert!(delay
        .poll(&mut service.shared, start(), waker(1))
        .result
        .is_pending());
    service.turn(start(), limits(1, 1));
    assert_eq!(service.wheel.len(), 1);
    assert_eq!(service.prepare_wait(waker(7)).0, WaitPlan::Indefinite);
}

// Intervals, timeouts and schedules.

#[test]
fn skipping_finds_the_next_point_of_the_grid() {
    let period = Duration::from_millis(10);
    let at = |count: u64| Deadline::At(millis(start(), count));
    let scheduled = millis(start(), 10);
    assert_eq!(skip_deadline(scheduled, period, millis(start(), 9)), at(20));
    assert_eq!(skip_deadline(scheduled, period, millis(start(), 10)), at(20));
    assert_eq!(skip_deadline(scheduled, period, millis(start(), 19)), at(20));
    assert_eq!(skip_deadline(scheduled, period, millis(start(), 20)), at(30));
    assert_eq!(skip_deadline(scheduled, period, millis(start(), 35)), at(40));
}

#[test]
fn skipping_past_the_end_of_the_clock_never_ticks() {
    let first = Instant::from_nanos(-LAST_NANOS);
    let last = Instant::from_nanos(LAST_NANOS);
    let one = Duration::from_nanos(1);
    let almost = Duration {
        nanos: LONGEST_NANOS - 1,
    };
    assert_eq!(skip_deadline(first, one, last), Deadline::Never);
    assert_eq!(skip_deadline(first, Duration::from_nanos(3), last), Deadline::Never);
    assert_eq!(skip_deadline(last, Duration::longest(), last), Deadline::Never);
    assert_eq!(
        skip_deadline(first, Duration::longest(), first),
        Deadline::Never
    );
    assert_eq!(skip_deadline(first, almost, first), Deadline::At(last));
    let highest = Instant::from_nanos(i128::MAX);
    let lowest = Instant::from_nanos(i128::MIN);
    assert_eq!(skip_deadline(lowest, one, highest), Deadline::Never);
}

#[test]
fn behaviors_agree_on_a_tick_observed_in_time() {
    let mut interval = interval_from_deadline(Deadline::At(start()), Duration::from_millis(10));
    let observed = millis(start(), 9);
    let next = Deadline::At(millis(start(), 10));
    assert_eq!(interval.next_deadline(start(), observed), next);
    interval.set_missed_tick_behavior(MissedTickBehavior::Skip);
    assert_eq!(interval.next_deadline(start(), observed), next);
    interval.set_missed_tick_behavior(MissedTickBehavior::Delay);
    assert_eq!(
        interval.next_deadline(start(), observed),
        Deadline::At(millis(start(), 19))
    );
    assert_eq!(MissedTickBehavior::default(), MissedTickBehavior::Burst);
}

#[test]
fn a_pending_tick_is_not_consumed() {
    let mut service = TimerService::<u32>::new_at(start());
    let mut interval = service
        .handle(start())
        .interval_at(millis(start(), 10), Duration::from_millis(10));
    assert!(interval
        .tick(&mut service.shared, start(), waker(1))
        .result
        .is_pending());
    assert_eq!(interval.delay.deadline, Deadline::At(millis(start(), 10)));
    let (mut shared, _) = service.close();
    assert_eq!(
        interval.tick(&mut shared, start(), waker(1)).result,
        Poll::Ready(Err(TimerClosed))
    );
}

#[test]
fn a_ready_operation_leaves_its_timeout_alone() {
    let mut service = TimerService::<u32>::new_at(start());
    let mut timeout = service.handle(start()).timeout(Duration::from_millis(1));
    let outcome = timeout.poll(Poll::Ready('x'), &mut service.shared, start(), waker(1));
    assert_eq!(outcome.result, Poll::Ready(Ok('x')));
    assert_eq!(name(outcome.released.unused), Some(1));
    assert_eq!(service.shared.operations.len(), 0);
}

#[test]
fn a_fixed_delay_starts_when_the_task_completes() {
    let mut service = TimerService::<u32>::new_at(start());
    let mut schedule = FixedDelay::new(None, Duration::from_millis(10));
    let action = schedule.poll(&mut service.shared, start(), waker(1)).action;
    assert_eq!(action, ScheduleAction::RunTask);
    service.turn(millis(start(), 25), limits(1, 1));
    schedule.task_completed(&service.shared, start());
    let action = schedule.poll(&mut service.shared, start(), waker(1)).action;
    assert_eq!(action, ScheduleAction::Wait);
    service.turn(millis(start(), 34), limits(1, 1));
    let action = schedule.poll(&mut service.shared, start(), waker(1)).action;
    assert_eq!(action, ScheduleAction::Wait);
    service.turn(millis(start(), 35), limits(1, 1));
    let action = schedule.poll(&mut service.shared, start(), waker(1)).action;
    assert_eq!(action, ScheduleAction::RunTask);
}

#[test]
fn a_schedule_that_is_given_up_gives_its_delay_up() {
    let mut service = TimerService::<u32>::new_at(start());
    let mut schedule = FixedRate::new(Some(Duration::from_millis(5)), Duration::from_millis(10));
    let action = schedule.poll(&mut service.shared, start(), waker(1)).action;
    assert_eq!(action, ScheduleAction::Wait);
    service.turn(start(), limits(1, 1));
    assert_eq!(service.wheel.len(), 1);
    schedule.phase.cancel(&mut service.shared);
    service.turn(start(), limits(1, 1));
    assert_eq!(service.wheel.len(), 0);
    assert!(Phase::Start.cancel(&mut service.shared).wake.is_none());
}

#[test]
fn a_stopped_schedule_stays_stopped() {
    let service = TimerService::<u32>::new_at(start());
    let (mut shared, _) = service.close();
    let mut schedule = FixedDelay::new(Some(Duration::from_millis(1)), Duration::from_millis(1));
    for _ in 0..2 {
        let action = schedule.poll(&mut shared, start(), waker(1)).action;
        assert_eq!(action, ScheduleAction::Stop(TimerClosed));
    }
}

// Messages and contexts.

#[test]
fn errors_say_what_went_wrong() {
    assert_eq!(TimerClosed.message(), "timer service is closed");
    assert_eq!(TimeoutError::Elapsed.message(), "operation timed out");
    assert_eq!(TimeoutError::Closed.message(), "timer service is closed");
}

#[test]
fn contexts_hold_the_installed_timer() {
    let shared = Shared::<u32>::new(start(), ClockMode::Driven);
    let other = Shared::<u32>::new(millis(start(), 1), ClockMode::Driven);
    let context = IoContext::new();
    assert!(context.timer().is_none());
    let context = context.with_timer(shared.handle(start()));
    assert_eq!(context.timer().unwrap().now(), start());
    let context = context.with_timer(other.handle(start()));
    assert_eq!(context.clone().timer().unwrap().now(), millis(start(), 1));
    assert!(IoContext::<Shared<u32>>::default().timer().is_none());
}

/// Takes the steps of a registration (`t`) and of a publication (`p`) in the given order, and
/// returns the lifecycle that the task has loaded and the waker that the publisher runs.
fn race(order: &str) -> (Lifecycle, Option<u32>) {
    let mut state = TimerState::new(Deadline::Never, waker(1));
    assert!(state.move_lifecycle(Lifecycle::Submitted, Lifecycle::Registered));
    let mut claimed = false;
    let mut loaded = Lifecycle::Registered;
    let mut woken = None;
    let (mut task, mut publisher) = (0, 0);
    for side in order.chars() {
        if side == 't' {
            match task {
                0 => claimed = state.waker.claim(),
                1 if claimed => {
                    let released = state.waker.complete(waker(2));
                    assert_eq!(name(released.previous), Some(1));
                }
                1 => {}
                _ => loaded = state.lifecycle,
            }
            task += 1;
        } else {
            match publisher {
                0 => assert!(state.move_lifecycle(Lifecycle::Registered, Lifecycle::Fired)),
                _ => woken = name(state.waker.take()),
            }
            publisher += 1;
        }
    }
    assert_eq!((task, publisher), (3, 2));
    assert_eq!(state.lifecycle, Lifecycle::Fired);
    assert_eq!(state.waker.state, SlotState::Terminal);
    assert!(state.waker.waker.is_none());
    (loaded, woken)
}

#[test]
fn no_order_of_steps_loses_a_wake() {
    let fired = Lifecycle::Fired;
    let live = Lifecycle::Registered;
    // Taken before the claim.
    assert_eq!(race("ppttt"), (fired, Some(1)));
    // Taken between the claim and the completion.
    assert_eq!(race("ptptt"), (fired, None));
    assert_eq!(race("tpptt"), (fired, None));
    // Taken after the completion.
    assert_eq!(race("pttpt"), (fired, Some(2)));
    assert_eq!(race("tptpt"), (fired, Some(2)));
    assert_eq!(race("ttppt"), (fired, Some(2)));
    assert_eq!(race("ptttp"), (fired, Some(2)));
    assert_eq!(race("tpttp"), (fired, Some(2)));
    assert_eq!(race("ttptp"), (fired, Some(2)));
    // Published after the load: the task is pending, and its waker runs.
    assert_eq!(race("tttpp"), (live, Some(2)));
}

#[test]
fn of_two_publishers_one_wins() {
    let mut state = TimerState::new(Deadline::Never, waker(1));
    assert!(state.move_lifecycle(Lifecycle::Submitted, Lifecycle::Registered));
    assert!(!state.move_lifecycle(Lifecycle::Submitted, Lifecycle::Closed));
    assert_eq!(
        name(state.publish_terminal(Lifecycle::Registered, Lifecycle::Fired)),
        Some(1)
    );
    assert!(state
        .publish_terminal(Lifecycle::Registered, Lifecycle::Closed)
        .is_none());
    assert_eq!(state.lifecycle, Lifecycle::Fired);
}

#[test]
fn a_pending_task_is_woken_once_over_many_turns() {
    let mut service = TimerService::<u32>::new_at(start());
    let mut delay = service.handle(start()).delay(Duration::from_millis(3));
    let mut other = service.handle(start()).delay(Duration::from_millis(2));
    assert!(matches!(
        delay.poll(&mut service.shared, start(), waker(1)).result,
        Poll::Pending
    ));
    assert!(matches!(
        other.poll(&mut service.shared, start(), waker(5)).result,
        Poll::Pending
    ));
    let mut woken = names(service.turn(start(), limits(1, 1)));
    // The latest waker counts.
    assert!(matches!(
        delay.poll(&mut service.shared, start(), waker(2)).result,
        Poll::Pending
    ));
    for count in 1..6 {
        woken.extend(names(service.turn(millis(start(), count), limits(1, 8))));
    }
    assert_eq!(woken, vec![5, 2]);
    other.cancel(&mut service.shared);
    let (mut shared, closing) = service.close();
    assert!(closing.wakers.is_empty());
    assert_eq!(
        delay.poll(&mut shared, start(), waker(2)).result,
        Poll::Ready(Ok(()))
    );
}

#[test]
fn a_task_that_no_turn_woke_is_woken_by_the_close() {
    let mut service = TimerService::<u32>::new_at(start());
    let mut delay = service.handle(start()).delay(Duration::from_millis(9));
    delay.poll(&mut service.shared, start(), waker(1));
    delay.poll(&mut service.shared, start(), waker(2));
    for count in 1..6 {
        assert!(service.turn(millis(start(), count), limits(8, 8)).is_empty());
    }
    let (_, closing) = service.close();
    assert_eq!(names(closing.wakers), vec![2]);
}

#[test]
fn handles_read_the_latest_of_all_turns() {
    let mut driven = TimerService::<u32>::new_at(start());
    let mut system = TimerService::<u32>::new(start());
    let mut latest = 0;
    for count in [2, 5, 3, 4, 7, 7, 1] {
        driven.turn(millis(start(), count), limits(1, 1));
        system.turn(millis(start(), count), limits(1, 1));
        latest = latest.max(count);
        assert_eq!(driven.handle(millis(start(), 90)).now(), millis(start(), latest));
        assert_eq!(system.handle(start()).now(), millis(start(), latest));
        assert_eq!(system.handle(millis(start(), 90)).now(), millis(start(), 90));
    }
}
