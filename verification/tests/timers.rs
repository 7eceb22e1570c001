//! Tests of delays, timeouts, intervals and schedules on a driven service.

use std::sync::atomic::{AtomicUsize, Ordering};
use std::sync::Arc;

use scorpio::time::budget::NonZeroUsize;
use scorpio::time::deadline::Deadline;
use scorpio::time::geometry::HORIZON;
use scorpio::time::instant::{Duration, Instant};
use scorpio::time::observation::{encode_observation_nanos, AtomicObservation};
use scorpio::time::poll::Poll;
use scorpio::time::schedule::{ArbitraryDelay, FixedDelay, FixedRate, ScheduleAction, SchedulePoll};
use scorpio::time::shared::Shared;
use scorpio::time::state::{Lifecycle, SlotState, TimerState};
use scorpio::time::timeout::Timeout;
use scorpio::time::waker::{Waker, WakerIdentity};
use scorpio::time::{
    Delay, Interval, MissedTickBehavior, TimeoutError, TimerClosed, TimerHandle, TimerService,
    TurnBudget, WaitPlan,
};

#[derive(Default)]
struct WakeCount(AtomicUsize);

type Raw = Option<Arc<WakeCount>>;

fn counting(counter: &Arc<WakeCount>) -> Waker<Raw> {
    let identity = WakerIdentity {
        data: Arc::as_ptr(counter) as usize,
        vtable: 1,
    };
    Waker::new(identity, Some(counter.clone()))
}

fn noop() -> Waker<Raw> {
    Waker::new(WakerIdentity { data: 0, vtable: 0 }, None)
}

fn wake(waker: Option<Waker<Raw>>) {
    if let Some(Waker {
        raw: Some(counter), ..
    }) = waker
    {
        counter.0.fetch_add(1, Ordering::Relaxed);
    }
}

fn start() -> Instant {
    Instant::from_nanos(1_700_000_000_123_456_789)
}

fn after(instant: Instant, duration: Duration) -> Instant {
    instant
        .checked_add(duration)
        .expect("test instant must be representable")
}

fn millis(instant: Instant, count: u64) -> Instant {
    after(instant, Duration::from_millis(count))
}

fn micros(instant: Instant, count: u64) -> Instant {
    after(instant, Duration::from_micros(count))
}

fn poll_with_waker(
    delay: &mut Delay,
    shared: &mut Shared<Raw>,
    waker: Waker<Raw>,
) -> Poll<Result<(), TimerClosed>> {
    let outcome = delay.poll(shared, start(), waker);
    wake(outcome.wake);
    outcome.result
}

fn poll(delay: &mut Delay, shared: &mut Shared<Raw>) -> Poll<Result<(), TimerClosed>> {
    poll_with_waker(delay, shared, noop())
}

fn give_up(delay: Delay, shared: &mut Shared<Raw>) {
    let outcome = delay.cancel(shared);
    wake(outcome.wake);
}

fn tick(interval: &mut Interval, shared: &mut Shared<Raw>) -> Poll<Result<Instant, TimerClosed>> {
    let outcome = interval.tick(shared, start(), noop());
    wake(outcome.wake);
    outcome.result
}

fn limits(operations: usize, entries: usize) -> TurnBudget {
    TurnBudget::new(
        NonZeroUsize::new(operations).unwrap(),
        NonZeroUsize::new(entries).unwrap(),
    )
}

fn budget() -> TurnBudget {
    limits(64, 64)
}

fn tiny_budget() -> TurnBudget {
    limits(2, 1)
}

fn turn(service: &mut TimerService<Raw>, now: Instant, budget: TurnBudget) {
    for waker in service.turn(now, budget) {
        wake(Some(waker));
    }
}

fn drive(service: &mut TimerService<Raw>, now: Instant) {
    turn(service, now, budget());
}

fn drive_with_tiny_budget(service: &mut TimerService<Raw>, now: Instant) {
    turn(service, now, tiny_budget());
}

fn prepare_wait(service: &mut TimerService<Raw>, waker: Waker<Raw>) -> WaitPlan {
    service.prepare_wait(waker).0
}

fn wait_plan(service: &mut TimerService<Raw>) -> WaitPlan {
    prepare_wait(service, noop())
}

fn close(service: TimerService<Raw>) -> Shared<Raw> {
    let (shared, closing) = service.close();
    for waker in closing.wakers {
        wake(Some(waker));
    }
    shared
}

#[test]
fn assert_send_and_sync() {
    fn do_assert_send_and_sync<T: Send + Sync>() {}
    do_assert_send_and_sync::<TimerHandle<'static, Raw>>();
    do_assert_send_and_sync::<TimerService<Raw>>();
    do_assert_send_and_sync::<Delay>();
    do_assert_send_and_sync::<Interval>();
}

#[test]
fn assert_unpin() {
    fn do_assert_unpin<T: Unpin>() {}
    do_assert_unpin::<Delay>();
    do_assert_unpin::<Interval>();
}

#[test]
fn default_turn_budget_matches_documented_limits() {
    let budget = TurnBudget::default();
    assert_eq!(budget.max_operations().get(), 1_024);
    assert_eq!(budget.max_timer_entries().get(), 4_096);
}

#[test]
fn atomic_observation_preserves_nanoseconds() {
    let genesis = start();
    let mut observation = AtomicObservation::new(genesis);
    let published = after(genesis, Duration::from_nanos(500_123));

    observation.store(published);
    assert_eq!(observation.load(), published);
}

#[test]
fn observation_encoding_accepts_the_full_u64_range() {
    assert_eq!(
        encode_observation_nanos(Duration::from_nanos(u64::MAX - 1)),
        u64::MAX - 1
    );
    assert_eq!(
        encode_observation_nanos(Duration::from_nanos(u64::MAX)),
        u64::MAX
    );
}

#[test]
fn system_clock_handle_uses_wall_clock_and_published_observation() {
    let genesis = start();
    let mut service = TimerService::<Raw>::new(genesis);
    let duration = Duration::from_millis(10);

    let before = millis(genesis, 3);
    let wall_clock_delay = service.handle(before).delay(duration);
    assert!(
        wall_clock_delay.deadline.as_instant().unwrap().nanos
            >= before.checked_add(duration).unwrap().nanos
    );

    let published = millis(genesis, 4)
        .checked_add(Duration::from_secs(86_400))
        .unwrap();
    drive(&mut service, published);
    let published_delay = service.handle(millis(genesis, 5)).delay(duration);
    assert_eq!(
        published_delay.deadline,
        Deadline::At(published.checked_add(duration).unwrap())
    );
}

#[test]
fn prepare_wait_reports_pending_operations_and_the_earliest_deadline() {
    let genesis = start();
    let mut service = TimerService::<Raw>::new_at(genesis);
    let later_deadline = millis(genesis, 20);
    let earlier_deadline = millis(genesis, 10);

    let mut later = service.handle(genesis).delay_until(later_deadline);
    assert!(poll(&mut later, &mut service.shared).is_pending());
    assert_eq!(wait_plan(&mut service), WaitPlan::Immediate);
    drive(&mut service, genesis);
    assert_eq!(wait_plan(&mut service), WaitPlan::Until(later_deadline));

    let mut earlier = service.handle(genesis).delay_until(earlier_deadline);
    assert!(poll(&mut earlier, &mut service.shared).is_pending());
    assert_eq!(wait_plan(&mut service), WaitPlan::Immediate);
    drive(&mut service, genesis);
    assert_eq!(wait_plan(&mut service), WaitPlan::Until(earlier_deadline));
}

#[test]
fn service_promotes_overflow_timer_and_fires_at_deadline() {
    let genesis = start();
    let promotion = millis(genesis, 1);
    let deadline = millis(genesis, HORIZON);
    let mut service = TimerService::<Raw>::new_at(genesis);
    let mut delay = service.handle(genesis).delay_until(deadline);

    assert!(poll(&mut delay, &mut service.shared).is_pending());
    drive(&mut service, genesis);
    assert_eq!(wait_plan(&mut service), WaitPlan::Until(promotion));

    drive(&mut service, promotion);
    assert!(poll(&mut delay, &mut service.shared).is_pending());
    assert_eq!(wait_plan(&mut service), WaitPlan::Until(deadline));

    drive(&mut service, millis(genesis, HORIZON - 1));
    assert!(poll(&mut delay, &mut service.shared).is_pending());
    drive(&mut service, deadline);
    assert_eq!(poll(&mut delay, &mut service.shared), Poll::Ready(Ok(())));
}

#[test]
fn dropping_service_releases_its_registered_reactor_waker() {
    let genesis = start();
    let mut service = TimerService::<Raw>::new_at(genesis);
    let counter = Arc::new(WakeCount::default());
    let waker = counting(&counter);

    assert_eq!(prepare_wait(&mut service, waker), WaitPlan::Indefinite);
    assert_eq!(Arc::strong_count(&counter), 2);

    let shared = close(service);
    assert_eq!(Arc::strong_count(&counter), 1);
    assert_eq!(counter.0.load(Ordering::Relaxed), 0);
    drop(shared);
}

#[test]
fn completed_delay_releases_its_registered_waker() {
    let genesis = start();
    let mut service = TimerService::<Raw>::new_at(genesis);
    let counter = Arc::new(WakeCount::default());
    let mut delay = service.handle(genesis).delay(Duration::from_millis(1));

    let waker = counting(&counter);
    assert!(poll_with_waker(&mut delay, &mut service.shared, waker).is_pending());
    drive(&mut service, genesis);
    drive(&mut service, millis(genesis, 1));
    let waker = counting(&counter);
    assert_eq!(
        poll_with_waker(&mut delay, &mut service.shared, waker),
        Poll::Ready(Ok(()))
    );
    assert!(delay.state.is_none());

    assert_eq!(Arc::strong_count(&counter), 1);
    assert_eq!(poll(&mut delay, &mut service.shared), Poll::Ready(Ok(())));
}

#[test]
fn cancelled_delays_release_wakers_before_the_service_drains() {
    let genesis = start();
    let mut service = TimerService::<Raw>::new_at(genesis);

    let submitted_counter = Arc::new(WakeCount::default());
    let mut submitted = service.handle(genesis).delay(Duration::from_secs(1));
    let waker = counting(&submitted_counter);
    assert!(poll_with_waker(&mut submitted, &mut service.shared, waker).is_pending());
    give_up(submitted, &mut service.shared);
    assert_eq!(Arc::strong_count(&submitted_counter), 1);

    drive(&mut service, genesis);

    let registered_counter = Arc::new(WakeCount::default());
    let mut registered = service.handle(genesis).delay(Duration::from_secs(1));
    let waker = counting(&registered_counter);
    assert!(poll_with_waker(&mut registered, &mut service.shared, waker).is_pending());
    drive(&mut service, genesis);
    give_up(registered, &mut service.shared);
    assert_eq!(Arc::strong_count(&registered_counter), 1);

    drive(&mut service, genesis);
    assert_eq!(service.wheel.len(), 0);
}

#[test]
fn delay_is_lazy_and_uses_driven_time() {
    let genesis = start();
    let mut service = TimerService::<Raw>::new_at(genesis);
    let mut delay = service.handle(genesis).delay(Duration::from_millis(10));

    assert_eq!(service.wheel.len(), 0);
    assert!(poll(&mut delay, &mut service.shared).is_pending());
    assert_eq!(service.wheel.len(), 0);

    turn(&mut service, genesis, budget());
    assert_eq!(
        wait_plan(&mut service),
        WaitPlan::Until(millis(genesis, 10))
    );
    assert_eq!(service.wheel.len(), 1);
    assert!(poll(&mut delay, &mut service.shared).is_pending());

    drive(&mut service, millis(genesis, 9));
    assert!(poll(&mut delay, &mut service.shared).is_pending());
    drive(&mut service, millis(genesis, 10));
    assert_eq!(poll(&mut delay, &mut service.shared), Poll::Ready(Ok(())));
}

#[test]
fn dropping_service_closes_registered_delay() {
    let genesis = start();
    let mut service = TimerService::<Raw>::new_at(genesis);
    let mut delay = service.handle(genesis).delay(Duration::from_secs(1));

    assert!(poll(&mut delay, &mut service.shared).is_pending());
    drive(&mut service, genesis);
    let mut shared = close(service);
    assert_eq!(poll(&mut delay, &mut shared), Poll::Ready(Err(TimerClosed)));
    assert!(delay.state.is_none());
    assert_eq!(poll(&mut delay, &mut shared), Poll::Ready(Err(TimerClosed)));
}

#[test]
fn service_drop_closes_due_timer_that_budget_has_not_fired() {
    let genesis = start();
    let mut service = TimerService::<Raw>::new_at(genesis);
    let deadline = millis(genesis, 1);
    let mut fired = service.handle(genesis).delay_until(deadline);
    let mut still_due = service.handle(genesis).delay_until(deadline);

    assert!(poll(&mut fired, &mut service.shared).is_pending());
    assert!(poll(&mut still_due, &mut service.shared).is_pending());
    turn(&mut service, deadline, tiny_budget());
    assert_eq!(wait_plan(&mut service), WaitPlan::Immediate);
    assert_eq!(poll(&mut fired, &mut service.shared), Poll::Ready(Ok(())));
    assert!(poll(&mut still_due, &mut service.shared).is_pending());

    let mut shared = close(service);
    assert_eq!(
        poll(&mut still_due, &mut shared),
        Poll::Ready(Err(TimerClosed))
    );
}

#[test]
fn dropping_service_closes_queued_delay() {
    let genesis = start();
    let mut service = TimerService::<Raw>::new_at(genesis);
    let mut delay = service.handle(genesis).delay(Duration::from_secs(1));

    assert!(poll(&mut delay, &mut service.shared).is_pending());
    let mut shared = close(service);
    assert_eq!(poll(&mut delay, &mut shared), Poll::Ready(Err(TimerClosed)));
    assert!(delay.state.is_none());
    assert_eq!(poll(&mut delay, &mut shared), Poll::Ready(Err(TimerClosed)));
}

#[test]
fn failed_registration_send_returns_closed_without_self_wake() {
    let genesis = start();
    let mut service = TimerService::<Raw>::new_at(genesis);
    service.shared.operations.disconnect();
    let counter = Arc::new(WakeCount::default());
    let waker = counting(&counter);
    let mut delay = service.handle(genesis).delay(Duration::from_secs(1));

    assert_eq!(
        poll_with_waker(&mut delay, &mut service.shared, waker),
        Poll::Ready(Err(TimerClosed))
    );
    assert_eq!(counter.0.load(Ordering::Relaxed), 0);
    assert!(delay.state.is_none());
    assert_eq!(
        poll(&mut delay, &mut service.shared),
        Poll::Ready(Err(TimerClosed))
    );
}

#[test]
fn fresh_delay_after_close_is_synchronously_closed_and_fused() {
    let genesis = start();
    let service = TimerService::<Raw>::new_at(genesis);
    let mut shared = close(service);
    let mut delay = shared
        .handle(genesis)
        .delay_until(after(genesis, Duration::from_secs(1)));

    assert_eq!(poll(&mut delay, &mut shared), Poll::Ready(Err(TimerClosed)));
    assert_eq!(poll(&mut delay, &mut shared), Poll::Ready(Err(TimerClosed)));
}

#[test]
fn elapsed_deadline_wins_over_closed_service() {
    let genesis = start();
    let service = TimerService::<Raw>::new_at(genesis);
    let mut shared = close(service);
    let mut delay = shared.handle(genesis).delay_until(genesis);

    assert_eq!(poll(&mut delay, &mut shared), Poll::Ready(Ok(())));
}

#[test]
fn cancellation_before_and_after_registration_reclaims_entries() {
    let genesis = start();
    let mut service = TimerService::<Raw>::new_at(genesis);

    let mut submitted = service.handle(genesis).delay(Duration::from_secs(1));
    assert!(poll(&mut submitted, &mut service.shared).is_pending());
    give_up(submitted, &mut service.shared);
    drive(&mut service, genesis);
    assert_eq!(service.wheel.len(), 0);

    let mut registered = service.handle(genesis).delay(Duration::from_secs(1));
    assert!(poll(&mut registered, &mut service.shared).is_pending());
    drive(&mut service, genesis);
    assert_eq!(service.wheel.len(), 1);
    give_up(registered, &mut service.shared);
    drive(&mut service, genesis);
    assert_eq!(service.wheel.len(), 0);
}

#[test]
fn operation_and_entry_budgets_bound_each_turn() {
    let genesis = start();
    let mut service = TimerService::<Raw>::new_at(genesis);
    let mut delays: Vec<Delay> = (0..5)
        .map(|_| service.handle(genesis).delay_until(millis(genesis, 1)))
        .collect();
    for delay in &mut delays {
        assert!(poll(delay, &mut service.shared).is_pending());
    }

    turn(&mut service, genesis, tiny_budget());
    assert_eq!(service.wheel.len(), 2);
    assert_eq!(wait_plan(&mut service), WaitPlan::Immediate);
    turn(&mut service, genesis, tiny_budget());
    assert_eq!(service.wheel.len(), 4);
    assert_eq!(wait_plan(&mut service), WaitPlan::Immediate);
    drive_with_tiny_budget(&mut service, genesis);
    assert_eq!(service.wheel.len(), 5);
    assert_eq!(
        wait_plan(&mut service),
        WaitPlan::Until(millis(genesis, 1))
    );

    let due = millis(genesis, 1);
    for expected in 1..=5 {
        turn(&mut service, due, tiny_budget());
        let mut now_completed = 0;
        for delay in &mut delays {
            if poll(delay, &mut service.shared).is_ready() {
                now_completed += 1;
            }
        }
        assert_eq!(now_completed, expected);
        assert_eq!(
            wait_plan(&mut service),
            if expected == 5 {
                WaitPlan::Indefinite
            } else {
                WaitPlan::Immediate
            }
        );
    }
}

#[test]
fn immediate_and_wheel_timers_both_progress_under_continuous_registrations() {
    let genesis = start();
    let mut service = TimerService::<Raw>::new_at(genesis);
    let mut existing = service.handle(genesis).delay_until(millis(genesis, 1));
    assert!(poll(&mut existing, &mut service.shared).is_pending());
    drive(&mut service, genesis);

    let mut immediate = Vec::new();
    for count in 1..=2 {
        let now = millis(genesis, count);
        for _ in 0..2 {
            let mut delay = service.handle(genesis).delay_until(now);
            assert!(poll(&mut delay, &mut service.shared).is_pending());
            immediate.push(delay);
        }
        turn(&mut service, now, tiny_budget());
    }

    assert_eq!(
        poll(&mut existing, &mut service.shared),
        Poll::Ready(Ok(()))
    );
    assert!(immediate
        .iter_mut()
        .any(|delay| poll(delay, &mut service.shared).is_ready()));
}

#[test]
fn immediate_and_wheel_timers_share_the_entry_budget() {
    let genesis = start();
    let mut service = TimerService::<Raw>::new_at(genesis);
    let due = millis(genesis, 1);
    let mut wheel: Vec<Delay> = (0..8)
        .map(|_| service.handle(genesis).delay_until(due))
        .collect();
    for delay in &mut wheel {
        assert!(poll(delay, &mut service.shared).is_pending());
    }
    drive(&mut service, genesis);

    let mut immediate: Vec<Delay> = (0..8)
        .map(|_| service.handle(genesis).delay_until(due))
        .collect();
    for delay in &mut immediate {
        assert!(poll(delay, &mut service.shared).is_pending());
    }

    turn(&mut service, due, limits(16, 6));
    assert_eq!(wait_plan(&mut service), WaitPlan::Immediate);
    assert_eq!(
        wheel
            .iter_mut()
            .map(|delay| poll(delay, &mut service.shared).is_ready())
            .filter(|ready| *ready)
            .count(),
        3
    );
    assert_eq!(
        immediate
            .iter_mut()
            .map(|delay| poll(delay, &mut service.shared).is_ready())
            .filter(|ready| *ready)
            .count(),
        3
    );
}

#[test]
fn prepare_wait_wake_is_coalesced_replaceable_and_renewable() {
    let genesis = start();
    let mut service = TimerService::<Raw>::new_at(genesis);
    drive(&mut service, genesis);
    let counter = Arc::new(WakeCount::default());
    assert_eq!(
        prepare_wait(&mut service, counting(&counter)),
        WaitPlan::Indefinite
    );

    let mut first = service.handle(genesis).delay(Duration::from_secs(1));
    let mut second = service.handle(genesis).delay(Duration::from_secs(2));
    assert!(poll(&mut first, &mut service.shared).is_pending());
    assert!(poll(&mut second, &mut service.shared).is_pending());
    assert_eq!(counter.0.load(Ordering::Relaxed), 1);
    assert_eq!(
        prepare_wait(&mut service, counting(&counter)),
        WaitPlan::Immediate
    );

    drive(&mut service, genesis);
    let replacement_counter = Arc::new(WakeCount::default());
    assert!(matches!(
        prepare_wait(&mut service, counting(&counter)),
        WaitPlan::Until(_)
    ));
    assert!(matches!(
        prepare_wait(&mut service, counting(&replacement_counter)),
        WaitPlan::Until(_)
    ));
    give_up(first, &mut service.shared);
    assert_eq!(counter.0.load(Ordering::Relaxed), 1);
    assert_eq!(replacement_counter.0.load(Ordering::Relaxed), 1);
    drive(&mut service, genesis);
    assert!(matches!(
        prepare_wait(&mut service, counting(&replacement_counter)),
        WaitPlan::Until(_)
    ));
}

#[test]
fn submillisecond_deadline_never_fires_early() {
    let genesis = start();
    let mut service = TimerService::<Raw>::new_at(genesis);
    let deadline = micros(genesis, 500);
    let mut delay = service.handle(genesis).delay_until(deadline);

    assert!(poll(&mut delay, &mut service.shared).is_pending());
    drive(&mut service, genesis);
    drive(&mut service, micros(genesis, 999));
    assert!(poll(&mut delay, &mut service.shared).is_pending());
    drive(&mut service, millis(genesis, 1));
    assert_eq!(poll(&mut delay, &mut service.shared), Poll::Ready(Ok(())));
}

#[test]
fn driven_relative_delay_keeps_submillisecond_observation() {
    let genesis = start();
    let mut service = TimerService::<Raw>::new_at(genesis);
    drive(&mut service, micros(genesis, 500));
    let mut delay = service.handle(genesis).delay(Duration::from_millis(1));

    assert!(poll(&mut delay, &mut service.shared).is_pending());
    drive(&mut service, millis(genesis, 1));
    assert!(poll(&mut delay, &mut service.shared).is_pending());
    drive(&mut service, millis(genesis, 2));
    assert_eq!(poll(&mut delay, &mut service.shared), Poll::Ready(Ok(())));
}

#[test]
fn timeout_prefers_guarded_future_on_tie() {
    let genesis = start();
    let mut service = TimerService::<Raw>::new_at(genesis);
    let mut timeout = service.handle(genesis).timeout_at(genesis);
    let outcome = timeout.poll(Poll::Ready(7), &mut service.shared, genesis, noop());
    assert_eq!(outcome.result, Poll::Ready(Ok(7)));
}

fn poll_timeout(
    timeout: &mut Timeout,
    shared: &mut Shared<Raw>,
) -> Poll<Result<(), TimeoutError>> {
    let outcome = timeout.poll(Poll::Pending, shared, start(), noop());
    wake(outcome.wake);
    outcome.result
}

#[test]
fn timeout_distinguishes_elapsed_and_closed() {
    let genesis = start();
    let mut service = TimerService::<Raw>::new_at(genesis);
    let mut elapsed = service.handle(genesis).timeout_at(millis(genesis, 1));
    assert!(poll_timeout(&mut elapsed, &mut service.shared).is_pending());
    drive(&mut service, millis(genesis, 1));
    assert_eq!(
        poll_timeout(&mut elapsed, &mut service.shared),
        Poll::Ready(Err(TimeoutError::Elapsed))
    );
    wake(elapsed.cancel(&mut service.shared).wake);

    let mut closed = service.handle(genesis).timeout(Duration::from_secs(1));
    assert!(poll_timeout(&mut closed, &mut service.shared).is_pending());
    let mut shared = close(service);
    assert_eq!(
        poll_timeout(&mut closed, &mut shared),
        Poll::Ready(Err(TimeoutError::Closed))
    );
}

#[test]
fn high_level_futures_own_their_timer_handle() {
    fn assert_send_static<T: Send + 'static>(_: T) {}

    let service = TimerService::<Raw>::new(start());
    let timer = service.handle(start());
    assert_send_static(timer.timeout(Duration::from_secs(1)));
    assert_send_static(timer.schedule_with_fixed_delay(None, Duration::from_secs(1)));
    assert_send_static(timer.schedule_at_fixed_rate(None, Duration::from_secs(1)));
    assert_send_static(timer.schedule_with_arbitrary_delay(None));
}

#[test]
fn never_deadline_only_completes_on_close() {
    let genesis = start();
    let mut service = TimerService::<Raw>::new_at(genesis);
    let mut delay = service.handle(genesis).delay(Duration::longest());

    assert!(poll(&mut delay, &mut service.shared).is_pending());
    drive(&mut service, after(genesis, Duration::from_secs(10)));
    assert!(poll(&mut delay, &mut service.shared).is_pending());
    assert_eq!(wait_plan(&mut service), WaitPlan::Indefinite);
    let mut shared = close(service);
    assert_eq!(poll(&mut delay, &mut shared), Poll::Ready(Err(TimerClosed)));
}

#[test]
fn interval_missed_tick_behaviors_have_distinct_schedules() {
    let genesis = start();
    for (behavior, expected) in [
        (MissedTickBehavior::Burst, 20),
        (MissedTickBehavior::Delay, 45),
        (MissedTickBehavior::Skip, 40),
    ] {
        let mut service = TimerService::<Raw>::new_at(genesis);
        let mut interval = service
            .handle(genesis)
            .interval_at(millis(genesis, 10), Duration::from_millis(10));
        interval.set_missed_tick_behavior(behavior);
        assert_eq!(interval.missed_tick_behavior(), behavior);
        assert!(tick(&mut interval, &mut service.shared).is_pending());
        drive(&mut service, millis(genesis, 35));
        assert_eq!(
            tick(&mut interval, &mut service.shared),
            Poll::Ready(Ok(millis(genesis, 10)))
        );
        let expected = millis(genesis, expected);
        if expected.nanos <= millis(genesis, 35).nanos {
            assert_eq!(
                tick(&mut interval, &mut service.shared),
                Poll::Ready(Ok(expected))
            );
        } else {
            assert!(tick(&mut interval, &mut service.shared).is_pending());
            drive(&mut service, expected);
            assert_eq!(
                tick(&mut interval, &mut service.shared),
                Poll::Ready(Ok(expected))
            );
        }
    }
}

#[test]
fn interval_has_an_immediate_first_tick() {
    let genesis = start();
    let mut service = TimerService::<Raw>::new_at(genesis);
    let mut interval = service.handle(genesis).interval(Duration::from_millis(10));

    assert_eq!(interval.missed_tick_behavior(), MissedTickBehavior::Burst);
    assert_eq!(
        tick(&mut interval, &mut service.shared),
        Poll::Ready(Ok(genesis))
    );
}

#[test]
fn skip_does_not_discard_a_future_grid_point_within_the_same_tick() {
    let genesis = start();
    let mut service = TimerService::<Raw>::new_at(genesis);
    let mut interval = service
        .handle(genesis)
        .interval_at(millis(genesis, 10), Duration::from_millis(10));
    interval.set_missed_tick_behavior(MissedTickBehavior::Skip);
    assert!(tick(&mut interval, &mut service.shared).is_pending());

    drive(&mut service, micros(genesis, 39_900));
    assert_eq!(
        tick(&mut interval, &mut service.shared),
        Poll::Ready(Ok(millis(genesis, 10)))
    );
    assert!(tick(&mut interval, &mut service.shared).is_pending());
    drive(&mut service, millis(genesis, 40));
    assert_eq!(
        tick(&mut interval, &mut service.shared),
        Poll::Ready(Ok(millis(genesis, 40)))
    );
}

#[test]
fn interval_tick_is_cancel_safe() {
    let genesis = start();
    let mut service = TimerService::<Raw>::new_at(genesis);
    let mut interval = service
        .handle(genesis)
        .interval_at(millis(genesis, 10), Duration::from_millis(10));

    assert!(tick(&mut interval, &mut service.shared).is_pending());
    drive(&mut service, millis(genesis, 10));
    assert_eq!(
        tick(&mut interval, &mut service.shared),
        Poll::Ready(Ok(millis(genesis, 10)))
    );
}

fn acted(outcome: SchedulePoll<Raw>) -> ScheduleAction {
    wake(outcome.wake);
    outcome.action
}

fn poll_fixed_delay(
    schedule: &mut FixedDelay,
    shared: &mut Shared<Raw>,
    count: &mut usize,
) -> Poll<Result<(), TimerClosed>> {
    loop {
        match acted(schedule.poll(shared, start(), noop())) {
            ScheduleAction::RunTask => {
                *count += 1;
                schedule.task_completed(shared, start());
            }
            ScheduleAction::Wait => return Poll::Pending,
            ScheduleAction::Stop(closed) => return Poll::Ready(Err(closed)),
        }
    }
}

fn poll_fixed_rate(
    schedule: &mut FixedRate,
    shared: &mut Shared<Raw>,
    count: &mut usize,
) -> Poll<Result<(), TimerClosed>> {
    loop {
        match acted(schedule.poll(shared, start(), noop())) {
            ScheduleAction::RunTask => {
                *count += 1;
                schedule.task_completed(shared, start());
            }
            ScheduleAction::Wait => return Poll::Pending,
            ScheduleAction::Stop(closed) => return Poll::Ready(Err(closed)),
        }
    }
}

fn poll_arbitrary(
    schedule: &mut ArbitraryDelay,
    shared: &mut Shared<Raw>,
    count: &mut usize,
    next: Instant,
) -> Poll<Result<(), TimerClosed>> {
    loop {
        match acted(schedule.poll(shared, start(), noop())) {
            ScheduleAction::RunTask => {
                *count += 1;
                schedule.task_completed(next);
            }
            ScheduleAction::Wait => return Poll::Pending,
            ScheduleAction::Stop(closed) => return Poll::Ready(Err(closed)),
        }
    }
}

#[test]
fn scheduling_futures_do_not_spawn_and_propagate_close() {
    let genesis = start();

    let mut service = TimerService::<Raw>::new_at(genesis);
    let mut count = 0;
    let mut fixed_delay = service
        .handle(genesis)
        .schedule_with_fixed_delay(None, Duration::from_millis(1));
    assert!(poll_fixed_delay(&mut fixed_delay, &mut service.shared, &mut count).is_pending());
    assert_eq!(count, 1);
    let mut shared = close(service);
    assert_eq!(
        poll_fixed_delay(&mut fixed_delay, &mut shared, &mut count),
        Poll::Ready(Err(TimerClosed))
    );

    let mut service = TimerService::<Raw>::new_at(genesis);
    let mut count = 0;
    let mut fixed_rate = service
        .handle(genesis)
        .schedule_at_fixed_rate(None, Duration::from_millis(1));
    assert!(poll_fixed_rate(&mut fixed_rate, &mut service.shared, &mut count).is_pending());
    assert_eq!(count, 1);
    let mut shared = close(service);
    assert_eq!(
        poll_fixed_rate(&mut fixed_rate, &mut shared, &mut count),
        Poll::Ready(Err(TimerClosed))
    );

    let mut service = TimerService::<Raw>::new_at(genesis);
    let mut count = 0;
    let mut arbitrary = service.handle(genesis).schedule_with_arbitrary_delay(None);
    let next = millis(genesis, 1);
    assert!(poll_arbitrary(&mut arbitrary, &mut service.shared, &mut count, next).is_pending());
    assert_eq!(count, 1);
    let mut shared = close(service);
    assert_eq!(
        poll_arbitrary(&mut arbitrary, &mut shared, &mut count, next),
        Poll::Ready(Err(TimerClosed))
    );
}

fn assert_schedule_waits_for_initial_delay(
    genesis: Instant,
    mut poll_schedule: impl FnMut(&mut Shared<Raw>, &mut usize) -> Poll<Result<(), TimerClosed>>,
) {
    let mut service = TimerService::<Raw>::new_at(genesis);
    let mut count = 0;
    assert!(poll_schedule(&mut service.shared, &mut count).is_pending());
    assert_eq!(count, 0);
    drive(&mut service, genesis);
    drive(&mut service, millis(genesis, 4));
    assert!(poll_schedule(&mut service.shared, &mut count).is_pending());
    assert_eq!(count, 0);
    drive(&mut service, millis(genesis, 5));
    assert!(poll_schedule(&mut service.shared, &mut count).is_pending());
    assert_eq!(count, 1);
}

#[test]
fn scheduling_futures_honor_their_initial_delay() {
    let genesis = start();
    let initial_delay = Some(Duration::from_millis(5));
    let period = Duration::from_millis(1);

    let mut fixed_delay = FixedDelay::new(initial_delay, period);
    assert_schedule_waits_for_initial_delay(genesis, |shared, count| {
        poll_fixed_delay(&mut fixed_delay, shared, count)
    });

    let mut fixed_rate = FixedRate::new(initial_delay, period);
    assert_schedule_waits_for_initial_delay(genesis, |shared, count| {
        poll_fixed_rate(&mut fixed_rate, shared, count)
    });

    let mut arbitrary = ArbitraryDelay::new(initial_delay);
    assert_schedule_waits_for_initial_delay(genesis, |shared, count| {
        poll_arbitrary(&mut arbitrary, shared, count, millis(genesis, 6))
    });
}

#[test]
fn terminal_publication_during_waker_registration_delegates_cleanup_to_poller() {
    let old_counter = Arc::new(WakeCount::default());
    let mut state = TimerState::new(Deadline::Never, counting(&old_counter));
    state.lifecycle = Lifecycle::Registered;
    let new_counter = Arc::new(WakeCount::default());
    let new_waker = counting(&new_counter);

    assert!(state.waker.claim());
    assert_eq!(state.waker.state, SlotState::Registering);
    assert!(state
        .publish_terminal(Lifecycle::Registered, Lifecycle::Fired)
        .is_none());

    let released = state.waker.complete(new_waker);
    assert_eq!(state.lifecycle, Lifecycle::Fired);
    assert!(released.unused.is_some());
    drop(released);
    assert_eq!(state.waker.state, SlotState::Terminal);
    assert_eq!(Arc::strong_count(&old_counter), 1);
    assert_eq!(Arc::strong_count(&new_counter), 1);
}

#[test]
fn fixed_rate_task_longer_than_period_stays_on_the_grid() {
    let genesis = start();
    let mut service = TimerService::<Raw>::new_at(genesis);
    let mut starts = Vec::new();
    let mut schedule = service
        .handle(genesis)
        .schedule_at_fixed_rate(None, Duration::from_millis(10));
    let mut task: Option<Delay> = None;

    let mut run = |shared: &mut Shared<Raw>| -> Poll<Result<(), TimerClosed>> {
        loop {
            match acted(schedule.poll(shared, start(), noop())) {
                ScheduleAction::RunTask => {
                    if task.is_none() {
                        let handle = shared.handle(genesis);
                        starts.push(handle.now().duration_since(genesis));
                        task = Some(handle.delay(Duration::from_millis(35)));
                    }
                    if poll(task.as_mut().unwrap(), shared).is_pending() {
                        return Poll::Pending;
                    }
                    task = None;
                    schedule.task_completed(shared, start());
                }
                ScheduleAction::Wait => return Poll::Pending,
                ScheduleAction::Stop(closed) => return Poll::Ready(Err(closed)),
            }
        }
    };

    assert!(run(&mut service.shared).is_pending());
    for count in [35, 40, 75, 80] {
        drive(&mut service, millis(genesis, count));
        assert!(run(&mut service.shared).is_pending());
    }

    assert_eq!(
        starts,
        vec![
            Duration::zero(),
            Duration::from_millis(40),
            Duration::from_millis(80),
        ],
        "an overrunning task must skip missed grid points, not run back to back"
    );
}

#[test]
fn repeated_polls_reuse_the_registered_waker() {
    let genesis = start();
    let mut service = TimerService::<Raw>::new_at(genesis);
    let counter = Arc::new(WakeCount::default());
    let mut delay = service.handle(genesis).delay(Duration::from_millis(1));

    let waker = counting(&counter);
    assert!(poll_with_waker(&mut delay, &mut service.shared, waker).is_pending());
    drive(&mut service, genesis);
    for _ in 0..16 {
        let waker = counting(&counter);
        assert!(poll_with_waker(&mut delay, &mut service.shared, waker).is_pending());
    }

    drive(&mut service, millis(genesis, 1));
    assert_eq!(counter.0.load(Ordering::Relaxed), 1);
    let waker = counting(&counter);
    assert_eq!(
        poll_with_waker(&mut delay, &mut service.shared, waker),
        Poll::Ready(Ok(()))
    );
}

#[test]
fn a_changed_waker_is_republished() {
    let genesis = start();
    let mut service = TimerService::<Raw>::new_at(genesis);
    let first = Arc::new(WakeCount::default());
    let second = Arc::new(WakeCount::default());
    let first_kept = counting(&first);
    let second_kept = counting(&second);
    let mut delay = service.handle(genesis).delay(Duration::from_millis(1));

    assert!(poll_with_waker(&mut delay, &mut service.shared, counting(&first)).is_pending());
    assert_eq!(Arc::strong_count(&first), 3);
    drive(&mut service, genesis);
    assert!(poll_with_waker(&mut delay, &mut service.shared, counting(&second)).is_pending());
    assert_eq!(Arc::strong_count(&first), 2);
    assert_eq!(Arc::strong_count(&second), 3);

    drive(&mut service, millis(genesis, 1));
    assert_eq!(first.0.load(Ordering::Relaxed), 0);
    assert_eq!(second.0.load(Ordering::Relaxed), 1);
    assert_eq!(Arc::strong_count(&second), 2);
    drop((first_kept, second_kept));
}
