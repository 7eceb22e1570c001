//! What a timer service promises to tasks and to its reactor.

use vstd::prelude::*;

use crate::time::deadline::Deadline;
use crate::time::delay;
use crate::time::delay::Delay;
use crate::time::entries::Location;
use crate::time::instant;
use crate::time::instant::{Instant, LAST_NANOS};
use crate::time::model::{Step, WheelModel};
use crate::time::observation;
use crate::time::poll::{Poll, TimerClosed};
use crate::time::queue;
use crate::time::queue::{Operation, RegisterOp};
use crate::time::service_model;
use crate::time::service_model::{ServiceModel, WaitPlan};
use crate::time::shared::SharedModel;
use crate::time::state::{Lifecycle, TimerState};
use crate::time::ticks;
use crate::time::waker::{Released, Waker};
use crate::time::wheel_laws;

verus! {

// What a turn does to the timers of delays.

/// Whether a timer has only moved on: its deadline stays, its waker stays while it is live, it is
/// not closed, and nothing happens to it once it has ended.
pub open spec fn moved_on<W>(before: TimerState<W>, after: TimerState<W>) -> bool {
    &&& after.deadline == before.deadline
    &&& before.lifecycle.is_terminal() ==> after == before
    &&& !after.lifecycle.is_terminal() ==> after.waker == before.waker
    &&& before.lifecycle is Registered ==> !(after.lifecycle is Submitted)
    &&& !before.lifecycle.is_terminal() && after.lifecycle.is_terminal() ==> after.lifecycle
        is Fired
}

/// Whether the service has only moved timers on: none appeared, none vanished, and the service
/// takes delays as before.
pub open spec fn served<W>(before: SharedModel<W>, after: SharedModel<W>) -> bool {
    &&& after.genesis == before.genesis
    &&& after.clock_mode == before.clock_mode
    &&& after.next_key == before.next_key
    &&& after.closed == before.closed
    &&& after.queue.accepting == before.queue.accepting
    &&& after.observed >= before.observed
    &&& after.timers.dom() == before.timers.dom()
    &&& forall|key: u64| #[trigger]
        before.timers.contains_key(key) ==> moved_on(before.timers[key], after.timers[key])
}

/// A delay and its timer agree, whatever the service has done.
pub proof fn law_served_delay_is_in_order<W>(
    delay: Delay,
    before: SharedModel<W>,
    after: SharedModel<W>,
)
    requires
        delay.wf(before),
        served(before, after),
    ensures
        delay.wf(after),
{
    if let Some(key) = delay.state {
        assert(before.timers.contains_key(key));
        assert(after.timers.dom().contains(key));
    }
}

/// Whether no timer has ended.
pub open spec fn ends_none<W>(before: SharedModel<W>, after: SharedModel<W>) -> bool {
    forall|key: u64| #[trigger]
        before.timers.contains_key(key) ==> before.timers[key].lifecycle.is_terminal()
            == after.timers[key].lifecycle.is_terminal()
}

/// Processing an operation only moves timers on, and ends none.
proof fn lemma_processes_serves<W>(service: ServiceModel<W>, next: ServiceModel<W>)
    requires
        service.wf(),
        service.shared.queue.operations.len() > 0,
        service.processes(next),
    ensures
        served(service.shared, next.shared),
        ends_none(service.shared, next.shared),
{
    let popped = service.pop();
    match service.shared.queue.operations[0] {
        Operation::Register(operation) => {
            if popped.shared.lifecycle(operation.key) is Submitted {
                let id = choose|id: usize| #[trigger] popped.registers_under(operation, id, next);
                assert(popped.registers_under(operation, id, next));
                assert(next.shared.timers.dom() =~= service.shared.timers.dom());
            }
        },
        Operation::Cancel { key, slot } => {},
    }
}

/// Processing operations only moves timers on, and ends none.
pub proof fn lemma_drains_serves<W>(service: ServiceModel<W>, count: nat, last: ServiceModel<W>)
    requires
        service.wf(),
        count <= service.shared.queue.operations.len(),
        service.drains(count, last),
    ensures
        served(service.shared, last.shared),
        ends_none(service.shared, last.shared),
    decreases count,
{
    if count > 0 {
        let next = choose|next: ServiceModel<W>| #[trigger]
            service.processes(next) && next.drains((count - 1) as nat, last);
        service.lemma_processes(next);
        lemma_processes_serves(service, next);
        lemma_drains_serves(next, (count - 1) as nat, last);
        assert forall|key: u64| #[trigger] service.shared.timers.contains_key(key) implies moved_on(
            service.shared.timers[key],
            last.shared.timers[key],
        ) && service.shared.timers[key].lifecycle.is_terminal()
            == last.shared.timers[key].lifecycle.is_terminal() by {
            assert(next.shared.timers.dom().contains(key));
            assert(next.shared.timers.contains_key(key));
        }
    }
}

/// What steps do to one timer: it stays as it is, or it fires at the latest clock reading, its
/// deadline having come, and its task's waker runs.
pub open spec fn fired_in_time<W>(
    service: ServiceModel<W>,
    after: ServiceModel<W>,
    woken: Seq<Waker<W>>,
    key: u64,
) -> bool {
    let before = service.shared.timers[key];
    let state = after.shared.timers[key];
    ||| state == before
    ||| {
        &&& before.lifecycle is Registered
        &&& state == service_model::fired_state(before, service.shared.observed)
        &&& before.deadline@.elapsed(service.last_now)
        &&& before.waker.taken() matches Some(waker) && woken.contains(waker)
    }
}

/// A registered timer fires only when its deadline has come, and then its task is woken; nothing
/// else happens to timers while steps are taken.
pub proof fn law_steps_fire_in_time<W>(service: ServiceModel<W>, budget: nat, key: u64)
    requires
        service.wf(),
        service.shared.timers.contains_key(key),
    ensures
        service.run(budget).shared.timers.dom() == service.shared.timers.dom(),
        fired_in_time(service, service.run(budget), service.woken_by_run(budget), key),
    decreases budget,
{
    if budget > 0 {
        let (wheel, step) = service.choose_step();
        service.lemma_choose_step();
        if let Some(step) = step {
            let stepped = service.stepped(wheel);
            let next = stepped.apply_step(step);
            let rest = next.woken_by_run((budget - 1) as nat);
            let first = service_model::waker_seq(stepped.woken_by_step(step));
            service.lemma_step();
            assert(next.shared.timers.dom() =~= service.shared.timers.dom());
            assert(next.shared.timers.dom().contains(key));
            law_steps_fire_in_time(next, (budget - 1) as nat, key);
            let woken = service.woken_by_run(budget);
            assert(woken == first + rest);
            if let Step::Fire(id) = step {
                assert(stepped.accounted(id));
                if stepped.wheel.timers[id].value == key {
                    let waker = service.shared.timers[key].waker.taken()->0;
                    assert(first[0] == waker);
                    assert(woken[0] == waker);
                }
            }
            if let Some(waker) = service.shared.timers[key].waker.taken() {
                if rest.contains(waker) {
                    let i = rest.index_of(waker);
                    assert(woken[first.len() + i] == waker);
                }
            }
        }
    }
}

/// Steps only move timers on.
pub proof fn lemma_run_serves<W>(service: ServiceModel<W>, budget: nat)
    requires
        service.wf(),
    ensures
        served(service.shared, service.run(budget).shared),
    decreases budget,
{
    if budget > 0 {
        let (wheel, step) = service.choose_step();
        service.lemma_choose_step();
        if let Some(step) = step {
            let next = service.stepped(wheel).apply_step(step);
            service.lemma_step();
            assert(next.shared.timers.dom() =~= service.shared.timers.dom());
            lemma_run_serves(next, (budget - 1) as nat);
            if let Step::Fire(id) = step {
                assert(service.stepped(wheel).accounted(id));
            }
            assert forall|key: u64| #[trigger] service.shared.timers.contains_key(
                key,
            ) implies moved_on(
                service.shared.timers[key],
                service.run(budget).shared.timers[key],
            ) by {
                assert(next.shared.timers.dom().contains(key));
                assert(next.shared.timers.contains_key(key));
            }
        }
    }
}

/// Whether the wakers that run are those of the timers that end: of each timer that was live
/// before and has ended after, the waker that was in its slot, once, and no other waker.
///
/// `keys` lists those timers in the order in which their wakers run.
pub open spec fn wakes_once<W>(
    before: SharedModel<W>,
    after: SharedModel<W>,
    keys: Seq<u64>,
    woken: Seq<Waker<W>>,
) -> bool {
    &&& keys.no_duplicates()
    &&& keys.len() == woken.len()
    &&& forall|i: int|
        #![trigger keys[i]]
        #![trigger woken[i]]
        0 <= i < keys.len() ==> before.timers.contains_key(keys[i])
            && before.timers[keys[i]].waker.taken() == Some(woken[i])
    &&& forall|key: u64| #[trigger]
        before.timers.contains_key(key) ==> (keys.contains(key)
            <==> !before.timers[key].lifecycle.is_terminal()
            && after.timers[key].lifecycle.is_terminal())
}

/// Whether the wakers that run are those of the timers that end, once each, and no other ones.
pub open spec fn wakes_each_once<W>(
    before: SharedModel<W>,
    after: SharedModel<W>,
    woken: Seq<Waker<W>>,
) -> bool {
    exists|keys: Seq<u64>| #[trigger] wakes_once(before, after, keys, woken)
}

/// Steps wake the task of each timer that fires once, and no other task; they fire at most one
/// timer each.
pub proof fn law_steps_wake_each_task_once<W>(service: ServiceModel<W>, budget: nat) -> (keys: Seq<
    u64,
>)
    requires
        service.wf(),
    ensures
        wakes_once(
            service.shared,
            service.run(budget).shared,
            keys,
            service.woken_by_run(budget),
        ),
        keys.len() <= budget,
    decreases budget,
{
    let (wheel, step) = service.choose_step();
    if budget == 0 || step is None {
        Seq::empty()
    } else {
        service.lemma_choose_step();
        service.lemma_step();
        let step = step->0;
        let stepped = service.stepped(wheel);
        let next = stepped.apply_step(step);
        let rest = law_steps_wake_each_task_once(next, (budget - 1) as nat);
        let woken = next.woken_by_run((budget - 1) as nat);
        lemma_run_serves(next, (budget - 1) as nat);
        assert(next.shared.timers.dom() =~= service.shared.timers.dom());
        assert forall|key: u64| next.shared.timers.contains_key(key)
            == #[trigger] service.shared.timers.contains_key(key) by {
            assert(next.shared.timers.dom().contains(key) == service.shared.timers.dom().contains(
                key,
            ));
        }
        if let Step::Fire(id) = step {
            assert(stepped.accounted(id));
            let key = stepped.wheel.timers[id].value;
            if service.shared.timers.contains_key(key) {
                let waker = service.shared.timers[key].waker.taken()->0;
                let keys = seq![key] + rest;
                assert(next.shared.timers.contains_key(key));
                assert(!rest.contains(key));
                assert(service.woken_by_run(budget) =~= seq![waker] + woken);
                assert forall|i: int, j: int|
                    0 <= i < keys.len() && 0 <= j < keys.len() && i != j implies keys[i]
                    != keys[j] by {
                    if i > 0 {
                        assert(rest.contains(rest[i - 1]));
                    }
                    if j > 0 {
                        assert(rest.contains(rest[j - 1]));
                    }
                }
                assert forall|i: int|
                    #![trigger keys[i]]
                    #![trigger service.woken_by_run(budget)[i]]
                    0 <= i < keys.len() implies service.shared.timers.contains_key(keys[i])
                    && service.shared.timers[keys[i]].waker.taken() == Some(
                    service.woken_by_run(budget)[i],
                ) by {
                    if i > 0 {
                        let other = rest[i - 1];
                        assert(rest.contains(other));
                        assert(next.shared.timers.contains_key(other));
                        assert(woken[i - 1] == service.woken_by_run(budget)[i]);
                    }
                }
                assert forall|other: u64| #[trigger] service.shared.timers.contains_key(
                    other,
                ) implies (keys.contains(other)
                    <==> !service.shared.timers[other].lifecycle.is_terminal()
                    && service.run(budget).shared.timers[other].lifecycle.is_terminal()) by {
                    assert(next.shared.timers.contains_key(other));
                    if other == key {
                        assert(keys[0] == key);
                    } else {
                        if rest.contains(other) {
                            assert(keys[rest.index_of(other) + 1] == other);
                        }
                        if keys.contains(other) {
                            assert(rest[keys.index_of(other) - 1] == other);
                        }
                    }
                }
                keys
            } else {
                assert(service.woken_by_run(budget) =~= woken);
                rest
            }
        } else {
            assert(service.woken_by_run(budget) =~= woken);
            rest
        }
    }
}

/// A turn wakes the task of each timer that it ends once, with the waker that the timer held
/// before the turn, and no other task. It ends at most as many timers as it takes steps.
pub proof fn law_turn_wakes_each_task_once<W>(
    service: ServiceModel<W>,
    now: Instant,
    count: nat,
    mid: ServiceModel<W>,
    budget: nat,
) -> (keys: Seq<u64>)
    requires
        service.wf(),
        observation::publishable(service.shared.genesis, now),
        count <= service.shared.queue.operations.len(),
        service.observe(now).drains(count, mid),
    ensures
        wakes_once(
            service.shared,
            mid.run(budget).settle().shared,
            keys,
            mid.woken_by_run(budget),
        ),
        keys.len() <= budget,
{
    let observed = service.observe(now);
    service.lemma_observe(now);
    observed.lemma_drains(count, mid);
    lemma_drains_serves(observed, count, mid);
    let keys = law_steps_wake_each_task_once(mid, budget);
    let woken = mid.woken_by_run(budget);
    assert forall|key: u64| mid.shared.timers.contains_key(key)
        == #[trigger] service.shared.timers.contains_key(key) by {
        assert(mid.shared.timers.dom().contains(key) == observed.shared.timers.dom().contains(key));
    }
    assert forall|i: int|
        #![trigger keys[i]]
        #![trigger woken[i]]
        0 <= i < keys.len() implies service.shared.timers.contains_key(keys[i])
        && service.shared.timers[keys[i]].waker.taken() == Some(woken[i]) by {
        assert(keys.contains(keys[i]));
        assert(mid.shared.timers.contains_key(keys[i]));
        assert(observed.shared.timers.contains_key(keys[i]));
    }
    assert forall|key: u64| #[trigger] service.shared.timers.contains_key(key) implies (
    keys.contains(key) <==> !service.shared.timers[key].lifecycle.is_terminal()
        && mid.run(budget).settle().shared.timers[key].lifecycle.is_terminal()) by {
        assert(mid.shared.timers.contains_key(key));
        assert(observed.shared.timers.contains_key(key));
    }
    keys
}

/// What a turn does to one timer: one that ends has fired at the published reading, its deadline
/// having come.
pub open spec fn ends_in_time<W>(
    before: SharedModel<W>,
    after: SharedModel<W>,
    key: u64,
) -> bool {
    !before.timers[key].lifecycle.is_terminal() && after.timers[key].lifecycle.is_terminal() ==> {
        &&& after.timers[key].lifecycle is Fired
        &&& after.timers[key].fired_nanos == after.observed
        &&& before.timers[key].deadline@.elapsed(after.published())
    }
}

/// A turn keeps the invariant and only moves timers on, it fires none early, and the clock never
/// moves backwards: the published reading is the later of the new one and the previous one. The
/// oldest operations leave the queue, and the others stay in order.
pub proof fn law_turn_serves<W>(
    service: ServiceModel<W>,
    now: Instant,
    count: nat,
    mid: ServiceModel<W>,
    budget: nat,
)
    requires
        service.wf(),
        observation::publishable(service.shared.genesis, now),
        count <= service.shared.queue.operations.len(),
        service.observe(now).drains(count, mid),
    ensures
        mid.run(budget).settle().wf(),
        served(service.shared, mid.run(budget).settle().shared),
        mid.run(budget).settle().shared.published() == instant::later_of(now, service.last_now),
        service.shared.published().nanos <= mid.run(budget).settle().shared.published().nanos,
        mid.run(budget).settle().shared.queue == service.shared.queue.skip(count as int),
        forall|key: u64| #[trigger]
            service.shared.timers.contains_key(key) ==> ends_in_time(
                service.shared,
                mid.run(budget).settle().shared,
                key,
            ),
{
    let observed = service.observe(now);
    service.lemma_observe(now);
    observed.lemma_drains(count, mid);
    lemma_drains_serves(observed, count, mid);
    mid.lemma_run(budget);
    lemma_run_serves(mid, budget);
    mid.run(budget).lemma_settle();
    let after = mid.run(budget).settle();
    assert forall|key: u64| #[trigger] service.shared.timers.contains_key(key) implies moved_on(
        service.shared.timers[key],
        after.shared.timers[key],
    ) && ends_in_time(service.shared, after.shared, key) by {
        assert(observed.shared.timers.contains_key(key));
        assert(mid.shared.timers.dom().contains(key));
        assert(mid.shared.timers.contains_key(key));
        law_steps_fire_in_time(mid, budget, key);
    }
}

// What a turn completes.

/// Enough steps leave nothing due: as many as the entries can take.
pub proof fn law_enough_steps_leave_nothing_due<W>(service: ServiceModel<W>, budget: nat)
    requires
        service.wf(),
        budget >= wheel_laws::work(service.wheel.timers),
    ensures
        !service.run(budget).wheel.has_due(service.last_now),
    decreases budget,
{
    let (wheel, step) = service.choose_step();
    service.lemma_choose_step();
    if let Some(step) = step {
        let stepped = service.stepped(wheel);
        let next = stepped.apply_step(step);
        service.lemma_step();
        match step {
            Step::Fire(id) => {
                wheel_laws::lemma_fire_lowers_work(wheel, id);
            },
            Step::Examined => {
                wheel_laws::lemma_examined_lowers_work(service.wheel, wheel);
            },
        }
        law_enough_steps_leave_nothing_due(next, (budget - 1) as nat);
    } else if budget == 0 {
        wheel_laws::law_due_work_is_done(service.wheel, service.last_now);
    }
}

/// Whether the clock has reached a deadline, rounded up to a whole tick. A deadline beyond the last
/// tick is not rounded.
pub open spec fn rounded_due(genesis: Instant, deadline: Deadline, now: Instant) -> bool {
    deadline matches Deadline::At(instant) && match ticks::ceil_tick(genesis, instant) {
        Some(tick) => tick <= ticks::floor_tick(genesis, now),
        None => instant.nanos <= now.nanos,
    }
}

/// Whether a live timer has been served as far as it can be: it has fired if its rounded deadline
/// has come, and if it has not fired, it is registered and its deadline has not come, or less than
/// a tick ago.
pub open spec fn completes<W>(before: SharedModel<W>, after: SharedModel<W>, key: u64) -> bool {
    let state = after.timers[key];
    !before.timers[key].lifecycle.is_terminal() ==> {
        &&& after.timers.contains_key(key)
        &&& state.deadline == before.timers[key].deadline
        &&& rounded_due(after.genesis, state.deadline@, after.published()) ==> state.lifecycle
            is Fired
        &&& state.lifecycle is Fired || state.lifecycle is Registered
        &&& state.lifecycle is Registered ==> (state.deadline@ matches Deadline::At(deadline)
            ==> after.published().nanos < deadline.nanos + ticks::TICK_NANOS)
    }
}

/// A turn that may process the whole queue, and take seven steps for each registered timer and
/// each queued operation, leaves no timer behind: every timer whose rounded deadline has come has
/// fired.
pub proof fn law_sufficient_turn_completes_due_timers<W>(
    service: ServiceModel<W>,
    now: Instant,
    mid: ServiceModel<W>,
    budget: nat,
    key: u64,
)
    requires
        service.wf(),
        observation::publishable(service.shared.genesis, now),
        service.observe(now).drains(service.shared.queue.operations.len(), mid),
        budget >= 7 * (service.wheel.timers.dom().len() + service.shared.queue.operations.len()),
        service.shared.timers.contains_key(key),
    ensures
        completes(service.shared, mid.run(budget).settle().shared, key),
{
    let count = service.shared.queue.operations.len();
    let observed = service.observe(now);
    law_turn_serves(service, now, count, mid, budget);
    service.lemma_observe(now);
    observed.lemma_drains(count, mid);
    observed.lemma_drains_entries(count, mid);
    mid.lemma_run(budget);
    wheel_laws::law_work_is_bounded(mid.wheel);
    law_enough_steps_leave_nothing_due(mid, budget);
    let ran = mid.run(budget);
    let after = ran.settle();
    assert(after.shared.timers.dom().contains(key));
    assert(after.shared.timers.contains_key(key));
    let state = after.shared.timers[key];
    if state.lifecycle is Submitted {
        let i = choose|i: int| #[trigger]
            queue::registers(after.shared.queue.operations, i, key);
        assert(queue::registers(after.shared.queue.operations, i, key));
    }
    if state.lifecycle is Registered {
        let id = state.slot->0;
        assert(ran.is_entry_of(id, key));
        assert(ran.accounted(id));
        wheel_laws::law_nothing_due_is_left(ran.wheel, ran.last_now, id);
    }
}

/// The delay of a timer that has fired is ready when it is polled next.
pub proof fn law_fired_timer_completes_its_delay<W>(
    shared: SharedModel<W>,
    delay: Delay,
    wall: Instant,
    waker: Waker<W>,
)
    requires
        delay.wf(shared),
        delay.state is Some,
        shared.timers[delay.state->0].lifecycle is Fired,
    ensures
        delay.poll_outcome(shared, wall, waker).result == Poll::<Result<(), TimerClosed>>::Ready(
            Ok(()),
        ),
{
}

// What tasks do between turns.

/// Polling a delay between turns keeps the service's invariant.
pub proof fn law_poll_keeps_service<W>(
    service: ServiceModel<W>,
    delay: Delay,
    wall: Instant,
    waker: Waker<W>,
)
    requires
        service.wf(),
        delay.wf(service.shared),
        delay.submits(service.shared, wall) ==> service.shared.next_key < u64::MAX,
    ensures
        (ServiceModel {
            shared: delay.shared_after_poll(service.shared, wall, waker),
            ..service
        }).wf(),
{
    let shared = service.shared;
    let after = ServiceModel { shared: delay.shared_after_poll(shared, wall, waker), ..service };
    let before_ops = shared.queue.operations;
    let after_ops = after.shared.queue.operations;
    if delay.submits(shared, wall) {
        delay::shared_lemma_submit(shared, delay.deadline, waker);
    } else if delay.rewakes(shared, waker) {
        delay::shared_lemma_rewake(shared, delay.state->0, waker);
    } else if delay.state is Some {
        delay::shared_lemma_release(shared, delay.state->0);
    }
    assert forall|key: u64| #[trigger] after.shared.timers.contains_key(key)
        && after.shared.timers[key].lifecycle is Registered implies after.is_entry_of(
        after.shared.timers[key].slot->0,
        key,
    ) by {
        assert(shared.timers.contains_key(key));
        assert(service.is_entry_of(shared.timers[key].slot->0, key));
    }
    assert forall|id: usize| #[trigger] after.wheel.timers.contains_key(id) implies after.accounted(
        id,
    ) by {
        assert(service.accounted(id));
        let key = service.wheel.timers[id].value;
        if shared.queue.accepting && !shared.timers.contains_key(key) {
            let i = choose|i: int| #[trigger] queue::cancels(before_ops, i, key, id);
            assert(queue::cancels(after_ops, i, key, id));
        }
        if queue::awaits(after_ops, key) {
            let i = choose|i: int| #[trigger] queue::registers(after_ops, i, key);
            assert(queue::registers(before_ops, i, key));
        }
    }
}

/// Giving a delay up between turns keeps the service's invariant.
pub proof fn law_drop_keeps_service<W>(service: ServiceModel<W>, delay: Delay)
    requires
        service.wf(),
        delay.wf(service.shared),
    ensures
        (ServiceModel { shared: delay.shared_after_drop(service.shared), ..service }).wf(),
{
    let shared = service.shared;
    let after = ServiceModel { shared: delay.shared_after_drop(shared), ..service };
    let before_ops = shared.queue.operations;
    let after_ops = after.shared.queue.operations;
    if let Some(key) = delay.state {
        delay::shared_lemma_release(shared, key);
        if shared.timers[key].lifecycle is Registered {
            let slot = shared.timers[key].slot->0;
            delay::shared_lemma_cancel(shared.release(key), key, slot);
            if shared.queue.accepting {
                assert(queue::cancels(after_ops, before_ops.len() as int, key, slot));
            }
        }
    }
    assert forall|key: u64| #[trigger] after.shared.timers.contains_key(key)
        && after.shared.timers[key].lifecycle is Registered implies after.is_entry_of(
        after.shared.timers[key].slot->0,
        key,
    ) by {
        assert(shared.timers.contains_key(key));
        assert(service.is_entry_of(shared.timers[key].slot->0, key));
    }
    assert forall|id: usize| #[trigger] after.wheel.timers.contains_key(id) implies after.accounted(
        id,
    ) by {
        assert(service.accounted(id));
        let key = service.wheel.timers[id].value;
        if shared.queue.accepting && !shared.timers.contains_key(key) {
            let i = choose|i: int| #[trigger] queue::cancels(before_ops, i, key, id);
            assert(queue::cancels(after_ops, i, key, id));
        }
        if queue::awaits(after_ops, key) {
            let i = choose|i: int| #[trigger] queue::registers(after_ops, i, key);
            assert(queue::registers(before_ops, i, key));
        }
    }
}

/// Polling or giving up one delay does not disturb another one: it stays in order, and nothing
/// happens to its timer.
pub proof fn law_delays_do_not_disturb_each_other<W>(
    shared: SharedModel<W>,
    delay: Delay,
    other: Delay,
    wall: Instant,
    waker: Waker<W>,
)
    requires
        shared.wf(),
        delay.wf(shared),
        other.wf(shared),
        other.state is Some ==> other.state != delay.state,
    ensures
        other.wf(delay.shared_after_poll(shared, wall, waker)),
        other.wf(delay.shared_after_drop(shared)),
        other.state matches Some(key) ==> {
            &&& delay.shared_after_poll(shared, wall, waker).timers[key] == shared.timers[key]
            &&& delay.shared_after_drop(shared).timers[key] == shared.timers[key]
        },
{
    if let Some(key) = other.state {
        assert(shared.timers.contains_key(key));
    }
}

/// Whether a completed delay has completed at a reading that the handle's clock has reached.
pub open spec fn completion_is_past<W>(
    delay: Delay,
    shared: SharedModel<W>,
    wall: Instant,
) -> bool {
    delay.fired_at matches Some(at) ==> at.nanos <= shared.observation(wall).nanos
}

/// A delay never completes early: when it is ready, it has a deadline, and the deadline has come
/// at the handle's clock.
///
/// A delay that had completed before, with a system-clock service, is polled at a clock that has
/// not moved backwards since.
pub proof fn law_delay_never_completes_early<W>(
    shared: SharedModel<W>,
    delay: Delay,
    wall: Instant,
    waker: Waker<W>,
)
    requires
        shared.wf(),
        delay.wf(shared),
        shared.clock_mode is System ==> completion_is_past(delay, shared, wall),
    ensures
        completion_is_past(
            delay.polled(shared, wall, waker),
            delay.shared_after_poll(shared, wall, waker),
            wall,
        ),
        delay.poll_outcome(shared, wall, waker).result == Poll::<Result<(), TimerClosed>>::Ready(
            Ok(()),
        ) ==> delay.deadline.elapsed(shared.observation(wall)),
{
    if let Some(key) = delay.state {
        assert(shared.timers.contains_key(key));
    }
}

/// A delay reports a closed service only when the service takes no more delays.
pub proof fn law_delay_closes_only_with_its_service<W>(
    shared: SharedModel<W>,
    delay: Delay,
    wall: Instant,
    waker: Waker<W>,
)
    requires
        shared.wf(),
        delay.wf(shared),
        delay.poll_outcome(shared, wall, waker).result == Poll::<Result<(), TimerClosed>>::Ready(
            Err(TimerClosed),
        ),
    ensures
        shared.refuses(),
{
    if let Some(key) = delay.state {
        assert(shared.timers.contains_key(key));
    }
}

/// A service that runs and takes operations never reports that it has closed.
pub proof fn law_running_service_reports_no_close<W>(
    service: ServiceModel<W>,
    delay: Delay,
    wall: Instant,
    waker: Waker<W>,
)
    requires
        service.wf(),
        service.shared.queue.accepting,
        delay.wf(service.shared),
    ensures
        delay.poll_outcome(service.shared, wall, waker).result != Poll::<
            Result<(), TimerClosed>,
        >::Ready(Err(TimerClosed)),
{
    if let Some(key) = delay.state {
        assert(service.shared.timers.contains_key(key));
    }
}

/// A delay that is first polled after its deadline completes without the service, even when the
/// service has closed.
pub proof fn law_elapsed_deadline_needs_no_service<W>(
    shared: SharedModel<W>,
    deadline: Deadline,
    wall: Instant,
    waker: Waker<W>,
)
    requires
        deadline.elapsed(shared.observation(wall)),
    ensures
        Delay::fresh(deadline).poll_outcome(shared, wall, waker).result == Poll::<
            Result<(), TimerClosed>,
        >::Ready(Ok(())),
        Delay::fresh(deadline).shared_after_poll(shared, wall, waker) == shared,
{
}

/// A delay that is first polled after the service has closed, and before its deadline, is closed
/// at once.
pub proof fn law_closed_service_refuses_delays<W>(
    shared: SharedModel<W>,
    deadline: Deadline,
    wall: Instant,
    waker: Waker<W>,
)
    requires
        shared.closed || !shared.queue.accepting,
        !deadline.elapsed(shared.observation(wall)),
    ensures
        Delay::fresh(deadline).poll_outcome(shared, wall, waker).result == Poll::<
            Result<(), TimerClosed>,
        >::Ready(Err(TimerClosed)),
        Delay::fresh(deadline).poll_outcome(shared, wall, waker).wake is None,
        Delay::fresh(deadline).shared_after_poll(shared, wall, waker) == shared,
{
}

/// Results repeat: once a delay is ready, every later poll returns the same and changes nothing.
pub proof fn law_results_repeat<W>(
    shared: SharedModel<W>,
    delay: Delay,
    wall: Instant,
    waker: Waker<W>,
    later: SharedModel<W>,
    later_wall: Instant,
    later_waker: Waker<W>,
)
    requires
        shared.wf(),
        delay.wf(shared),
        delay.poll_outcome(shared, wall, waker).result is Ready,
    ensures
        ({
            let polled = delay.polled(shared, wall, waker);
            let outcome = polled.poll_outcome(later, later_wall, later_waker);
            &&& outcome.result == delay.poll_outcome(shared, wall, waker).result
            &&& outcome.wake is None
            &&& polled.polled(later, later_wall, later_waker) == polled
            &&& polled.shared_after_poll(later, later_wall, later_waker) == later
            &&& polled.shared_after_drop(later) == later
        }),
{
    if let Some(key) = delay.state {
        assert(shared.timers.contains_key(key));
    }
}

/// A task that polls again with an equivalent waker replaces nothing.
pub proof fn law_same_waker_is_reused<W>(
    shared: SharedModel<W>,
    delay: Delay,
    wall: Instant,
    waker: Waker<W>,
)
    requires
        shared.wf(),
        delay.wf(shared),
        delay.state is Some,
        delay.registered_waker == Some(waker.identity),
        !shared.timers[delay.state->0].lifecycle.is_terminal(),
    ensures
        delay.poll_outcome(shared, wall, waker).result is Pending,
        delay.poll_outcome(shared, wall, waker).released == (Released {
            previous: None,
            unused: Some(waker),
        }),
        delay.shared_after_poll(shared, wall, waker) == shared,
        delay.polled(shared, wall, waker) == delay,
{
}

/// A pending delay is never forgotten: after a poll that returns pending, the service holds the
/// task's latest waker with the delay's timer, and will register it or has done so.
pub proof fn law_pending_delay_is_known<W>(
    service: ServiceModel<W>,
    delay: Delay,
    wall: Instant,
    waker: Waker<W>,
)
    requires
        service.wf(),
        delay.wf(service.shared),
        delay.submits(service.shared, wall) ==> service.shared.next_key < u64::MAX,
        delay.poll_outcome(service.shared, wall, waker).result is Pending,
    ensures
        ({
            let shared = delay.shared_after_poll(service.shared, wall, waker);
            let key = delay.polled(service.shared, wall, waker).state->0;
            let state = shared.timers[key];
            &&& delay.polled(service.shared, wall, waker).state is Some
            &&& shared.timers.contains_key(key)
            &&& state.deadline@ == delay.deadline
            &&& state.waker.taken() matches Some(held) && held.identity == waker.identity
            &&& queue::awaits(shared.queue.operations, key) || state.lifecycle is Registered
                && service.is_entry_of(state.slot->0, key)
        }),
{
    law_poll_keeps_service(service, delay, wall, waker);
    let shared = delay.shared_after_poll(service.shared, wall, waker);
    let after = ServiceModel { shared, ..service };
    let key = delay.polled(service.shared, wall, waker).state->0;
    assert(shared.timers.contains_key(key));
    if shared.timers[key].lifecycle is Registered {
        assert(after.is_entry_of(shared.timers[key].slot->0, key));
    }
}

/// A waker that a task replaces runs no more: it is handed back, and the timer holds the new one.
pub proof fn law_replaced_waker_is_handed_back<W>(
    shared: SharedModel<W>,
    delay: Delay,
    wall: Instant,
    waker: Waker<W>,
)
    requires
        shared.wf(),
        delay.wf(shared),
        delay.rewakes(shared, waker),
    ensures
        delay.poll_outcome(shared, wall, waker).released == (Released {
            previous: shared.timers[delay.state->0].waker.taken(),
            unused: None,
        }),
        delay.shared_after_poll(shared, wall, waker).timers[delay.state->0].waker.taken() == Some(
            waker,
        ),
{
    assert(shared.timers.contains_key(delay.state->0));
}

// Cancellation.

/// A delay that was given up before the service saw its registration never becomes active: the
/// registration changes neither the wheel nor any timer.
pub proof fn law_cancelled_submission_is_not_linked<W>(
    service: ServiceModel<W>,
    operation: RegisterOp,
    next: ServiceModel<W>,
)
    requires
        service.shared.queue.operations.len() > 0,
        service.shared.queue.operations[0] == Operation::Register(operation),
        !service.shared.timers.contains_key(operation.key),
        service.processes(next),
    ensures
        next.wheel == service.wheel,
        next.shared.timers == service.shared.timers,
{
}

/// A delay that is given up between the linking of its timer and the publication of the
/// registration leaves nothing behind: the wheel is as it was before.
pub proof fn law_cancelled_link_is_undone<W>(
    service: ServiceModel<W>,
    operation: RegisterOp,
    id: usize,
)
    requires
        service.wheel.wf(),
        service.shared.lifecycle(operation.key) is Submitted,
        !service.wheel.timers.contains_key(id),
    ensures
        ({
            let linked = service.link(operation, id);
            let dropped = ServiceModel { shared: linked.shared.release(operation.key), ..linked };
            dropped.publish(operation.key, id) == (ServiceModel {
                shared: service.shared.release(operation.key),
                ..service
            })
        }),
{
    wheel_laws::law_remove_undoes_insert(
        service.wheel,
        id,
        operation.deadline,
        operation.key,
        service.last_now,
    );
    let linked = service.link(operation, id);
    assert(linked.shared.timers.remove(operation.key) =~= service.shared.timers.remove(
        operation.key,
    ));
}

/// Giving up a submitted delay queues nothing; giving up a registered one queues the removal of
/// its entry, and until then the entry stays.
pub proof fn law_drop_queues_removal_once<W>(service: ServiceModel<W>, delay: Delay)
    requires
        service.wf(),
        delay.wf(service.shared),
        delay.state is Some,
        service.shared.queue.accepting,
    ensures
        ({
            let key = delay.state->0;
            let before = service.shared.queue.operations;
            let after = delay.shared_after_drop(service.shared).queue.operations;
            if service.shared.timers[key].lifecycle is Registered {
                let slot = service.shared.timers[key].slot->0;
                &&& service.is_entry_of(slot, key)
                &&& after == before.push(Operation::Cancel { key, slot })
            } else {
                after == before
            }
        }),
        !delay.shared_after_drop(service.shared).timers.contains_key(delay.state->0),
{
    let key = delay.state->0;
    assert(service.shared.timers.contains_key(key));
}

/// An entry whose delay was given up does nothing but use up a step when it comes due.
pub proof fn law_cancelled_entry_fires_silently<W>(service: ServiceModel<W>, id: usize)
    requires
        service.wheel.timers.contains_key(id),
        !service.shared.timers.contains_key(service.wheel.timers[id].value),
    ensures
        service.fire(id).shared == service.shared,
        service.woken_by_fire(id) is None,
{
}

/// Processing the cancellation of a linked entry unlinks that entry and no other one.
pub proof fn law_cancellation_reclaims_its_entry<W>(
    service: ServiceModel<W>,
    key: u64,
    slot: usize,
    other: usize,
)
    requires
        service.is_entry_of(slot, key),
        other != slot,
    ensures
        !service.cancel(key, slot).wheel.timers.contains_key(slot),
        service.cancel(key, slot).wheel.timers.contains_key(other)
            == service.wheel.timers.contains_key(other),
        service.cancel(key, slot).shared == service.shared,
{
}

/// A late cancellation does not hit a timer that has been given the same entry since.
pub proof fn law_stale_cancellation_is_harmless<W>(
    service: ServiceModel<W>,
    key: u64,
    slot: usize,
)
    requires
        !service.is_entry_of(slot, key),
    ensures
        service.cancel(key, slot) == service,
{
}

/// No entry outlives its delay for long: once every queued operation has been processed, each
/// entry belongs to a registered timer, and no two entries belong to the same one.
pub proof fn law_no_stale_entries<W>(service: ServiceModel<W>, id: usize, other: usize)
    requires
        service.wf(),
        service.shared.queue.accepting,
        service.shared.queue.operations.len() == 0,
        service.wheel.timers.contains_key(id),
        service.wheel.timers.contains_key(other),
    ensures
        service.shared.timers.contains_key(service.wheel.timers[id].value),
        service.shared.timers[service.wheel.timers[id].value].lifecycle is Registered,
        service.wheel.timers[id].value == service.wheel.timers[other].value ==> id == other,
{
    assert(service.accounted(id) && service.accounted(other));
}

// Waiting.

/// A reactor waits only when there is nothing to do: the plan is to wait exactly when no timer
/// work is due and no operation is queued.
pub proof fn law_reactor_waits_only_when_idle<W>(service: ServiceModel<W>)
    requires
        service.wf(),
    ensures
        service.wait_plan() is Immediate <==> service.wheel.has_due(service.last_now)
            || !service.shared.queue.idle(),
        service.shared.queue.operations.len() > 0 ==> service.wait_plan() is Immediate,
{
    lemma_poll_is_ahead(service);
}

/// When nothing is due, the reported instant lies ahead.
proof fn lemma_poll_is_ahead<W>(service: ServiceModel<W>)
    requires
        service.wf(),
    ensures
        service.is_busy() <==> service.wheel.has_due(service.last_now),
{
    let wheel = service.wheel;
    if !wheel.has_due(service.last_now) {
        if let Some(boundary) = wheel.next_boundary() {
            assert(wheel.is_next_boundary(boundary));
        }
    }
}

/// A waiting reactor is in time for every timer: the plan's deadline lies ahead, and no entry's
/// deadline is rounded up to an earlier instant. A reactor that waits indefinitely has no entry
/// with a deadline.
///
/// Deadlines that are rounded up beyond the last instant of the clock are left out.
pub proof fn law_wait_is_in_time<W>(service: ServiceModel<W>, id: usize)
    requires
        service.wf(),
        !(service.wait_plan() is Immediate),
        service.wheel.timers.contains_key(id),
        service.wheel.timers[id].deadline matches Deadline::At(deadline) && (service.wheel.ceil(
            deadline,
        ) matches Some(tick) ==> ticks::tick_nanos(service.wheel.genesis, tick) <= LAST_NANOS),
    ensures
        service.wait_plan() matches WaitPlan::Until(instant) && {
            let deadline = service.wheel.timers[id].deadline->At_0;
            &&& service.last_now.nanos < instant.nanos
            &&& match service.wheel.ceil(deadline) {
                Some(tick) => instant.nanos <= ticks::tick_nanos(service.wheel.genesis, tick),
                None => instant.nanos <= deadline.nanos,
            }
        },
{
    lemma_poll_is_ahead(service);
    wheel_laws::law_next_poll_is_in_time(service.wheel, service.last_now, id);
}

/// No operation is missed by a reactor that waits: its waker is registered, and the next
/// operation hands out an equivalent one.
pub proof fn law_waiting_reactor_is_woken<W>(service: ServiceModel<W>, waker: Waker<W>)
    requires
        service.wf(),
        !(service.wait_plan() is Immediate),
    ensures
        service.prepared(waker).shared.queue.woken_by_send() matches Some(woken)
            && woken.identity == waker.identity,
{
    queue::law_armed_reactor_is_woken(service.shared.queue, waker);
}

// Fairness.

/// Neither kind of entries starves the other: when both have work, two steps in a row serve one
/// of each.
pub proof fn law_kinds_take_turns<W>(service: ServiceModel<W>)
    requires
        service.wf(),
        service.wheel.occupied(Location::Immediate),
        service.wheel.step_non_immediate(service.last_now).1 is Some,
    ensures
        ({
            let (wheel, step) = service.choose_step();
            let next = service.stepped(wheel).apply_step(step->0);
            &&& step is Some
            &&& next.choose_step().1 is Some
            &&& if service.prefer_non_immediate {
                &&& (wheel, step) == service.wheel.step_non_immediate(service.last_now)
                &&& next.choose_step() == (next.wheel, next.wheel.step_immediate())
            } else {
                &&& (wheel, step) == (service.wheel, service.wheel.step_immediate())
                &&& next.choose_step() == next.wheel.step_non_immediate(service.last_now)
            }
        }),
{
    let (wheel, step) = service.choose_step();
    let next = service.stepped(wheel).apply_step(step->0);
    service.lemma_choose_step();
    service.wheel.lemma_step_non_immediate(service.last_now);
    let first = service.wheel.queues[Location::Immediate][0];
    assert(service.wheel.timers.contains_key(first));
    if service.prefer_non_immediate {
        lemma_immediate_entries_stay(service.wheel, service.last_now);
    } else {
        service.wheel.lemma_same_queues(next.wheel);
        if service.wheel.draining is Some {
            let boundary = service.wheel.draining->0;
            assert(next.wheel.queues[boundary.location()]
                == service.wheel.queues[boundary.location()]);
        }
    }
}

/// A step on the other entries takes none of the immediate ones.
proof fn lemma_immediate_entries_stay(wheel: WheelModel, now: Instant)
    requires
        wheel.wf(),
        wheel.reached(now),
        wheel.occupied(Location::Immediate),
    ensures
        wheel.step_non_immediate(now).0.occupied(Location::Immediate),
{
    wheel.lemma_step_non_immediate(now);
}

// Closing.

/// Closing the service ends every delay that waits: its next poll reports the closed service.
/// A delay that had fired still completes.
pub proof fn law_close_ends_every_delay<W>(
    service: ServiceModel<W>,
    delay: Delay,
    wall: Instant,
    waker: Waker<W>,
)
    requires
        service.wf(),
        delay.wf(service.shared),
        delay.state is Some,
    ensures
        delay.wf(service.closed()),
        delay.poll_outcome(service.closed(), wall, waker).result == (
        if service.shared.timers[delay.state->0].lifecycle is Fired {
            Poll::<Result<(), TimerClosed>>::Ready(Ok(()))
        } else {
            Poll::Ready(Err(TimerClosed))
        }),
{
    let key = delay.state->0;
    assert(service.shared.timers.contains_key(key));
    assert(service.closed().timers.contains_key(key));
}

/// The timers whose wakers run when the registered ones among `keys` are closed, in order.
spec fn drained_keys<W>(service: ServiceModel<W>, keys: Seq<u64>) -> Seq<u64>
    decreases keys.len(),
{
    if keys.len() == 0 {
        Seq::empty()
    } else {
        let before = drained_keys(service, keys.drop_last());
        if service.woken_by_close(keys.last(), Lifecycle::Registered) is Some {
            before.push(keys.last())
        } else {
            before
        }
    }
}

/// The timers whose wakers run when queued registrations are discarded, in order.
spec fn discarded_keys<W>(service: ServiceModel<W>, operations: Seq<Operation>) -> Seq<u64>
    decreases operations.len(),
{
    if operations.len() == 0 {
        Seq::empty()
    } else {
        let before = discarded_keys(service, operations.drop_last());
        match operations.last() {
            Operation::Register(operation) => if service.woken_by_close(
                operation.key,
                Lifecycle::Submitted,
            ) is Some {
                before.push(operation.key)
            } else {
                before
            },
            Operation::Cancel { .. } => before,
        }
    }
}

/// Whether the wakers of `woken` are those of the timers `keys`, all in state `from`, in order and
/// once each.
spec fn are_wakers_of<W>(
    service: ServiceModel<W>,
    keys: Seq<u64>,
    from: Lifecycle,
    woken: Seq<Waker<W>>,
) -> bool {
    &&& keys.no_duplicates()
    &&& keys.len() == woken.len()
    &&& forall|i: int|
        #![trigger keys[i]]
        #![trigger woken[i]]
        0 <= i < keys.len() ==> service.woken_by_close(keys[i], from) == Some(woken[i])
}

/// Draining the wheel wakes the task of each registered timer once.
proof fn lemma_drained_keys_wake<W>(service: ServiceModel<W>, keys: Seq<u64>)
    requires
        forall|i: int, j: int|
            0 <= i < j < keys.len() && service.shared.timers.contains_key(keys[i]) ==> keys[i]
                != keys[j],
    ensures
        are_wakers_of(
            service,
            drained_keys(service, keys),
            Lifecycle::Registered,
            service.woken_by_drain(keys),
        ),
        forall|key: u64| #[trigger]
            drained_keys(service, keys).contains(key) ==> keys.contains(key),
        forall|key: u64| #[trigger]
            keys.contains(key) && service.woken_by_close(key, Lifecycle::Registered) is Some
                ==> drained_keys(service, keys).contains(key),
    decreases keys.len(),
{
    if keys.len() > 0 {
        let shorter = keys.drop_last();
        let last = keys.last();
        let before = drained_keys(service, shorter);
        let after = drained_keys(service, keys);
        lemma_drained_keys_wake(service, shorter);
        assert forall|key: u64| #[trigger] keys.contains(key) implies shorter.contains(key) || key
            == last by {
            let i = keys.index_of(key);
            if i < shorter.len() {
                assert(shorter[i] == key);
            }
        }
        assert forall|key: u64| #[trigger] shorter.contains(key) implies keys.contains(key) by {
            assert(keys[shorter.index_of(key)] == key);
        }
        if service.woken_by_close(last, Lifecycle::Registered) is Some {
            assert(after == before.push(last));
            assert(!before.contains(last)) by {
                if before.contains(last) {
                    let i = shorter.index_of(last);
                    assert(keys[i] == keys[keys.len() - 1]);
                }
            }
            assert(after[before.len() as int] == last);
            assert forall|key: u64| #[trigger] before.contains(key) implies after.contains(key) by {
                assert(after[before.index_of(key)] == key);
            }
            assert forall|key: u64| #[trigger] after.contains(key) implies keys.contains(key) by {
                let i = after.index_of(key);
                if i < before.len() {
                    assert(before[i] == key);
                    assert(before.contains(key));
                } else {
                    assert(keys[keys.len() - 1] == key);
                }
            }
        }
    }
}

/// Discarding queued registrations wakes the task of each submitted delay once.
proof fn lemma_discarded_keys_wake<W>(service: ServiceModel<W>, operations: Seq<Operation>)
    requires
        forall|i: int, j: int, key: u64| #[trigger]
            queue::registers(operations, i, key) && #[trigger] queue::registers(
                operations,
                j,
                key,
            ) ==> i == j,
    ensures
        are_wakers_of(
            service,
            discarded_keys(service, operations),
            Lifecycle::Submitted,
            service.woken_by_discard(operations),
        ),
        forall|key: u64| #[trigger]
            discarded_keys(service, operations).contains(key) ==> queue::awaits(operations, key),
        forall|key: u64| #[trigger]
            queue::awaits(operations, key) && service.woken_by_close(key, Lifecycle::Submitted)
                is Some ==> discarded_keys(service, operations).contains(key),
    decreases operations.len(),
{
    if operations.len() > 0 {
        let shorter = operations.drop_last();
        let at = operations.len() - 1;
        let before = discarded_keys(service, shorter);
        let after = discarded_keys(service, operations);
        assert forall|i: int, key: u64| #[trigger] queue::registers(
            shorter,
            i,
            key,
        ) implies queue::registers(operations, i, key) by {}
        lemma_discarded_keys_wake(service, shorter);
        assert forall|key: u64| #[trigger] queue::awaits(shorter, key) implies queue::awaits(
            operations,
            key,
        ) by {
            let i = choose|i: int| #[trigger] queue::registers(shorter, i, key);
            assert(queue::registers(operations, i, key));
        }
        assert forall|key: u64| #[trigger] queue::awaits(operations, key) implies queue::awaits(
            shorter,
            key,
        ) || queue::registers(operations, at, key) by {
            let i = choose|i: int| #[trigger] queue::registers(operations, i, key);
            if i < at {
                assert(queue::registers(shorter, i, key));
            }
        }
        if let Operation::Register(operation) = operations.last() {
            let last = operation.key;
            assert(queue::registers(operations, at, last));
            assert(queue::awaits(operations, last));
            if service.woken_by_close(last, Lifecycle::Submitted) is Some {
                assert(after == before.push(last));
                assert(!before.contains(last)) by {
                    if before.contains(last) {
                        let i = choose|i: int| #[trigger] queue::registers(shorter, i, last);
                        assert(queue::registers(operations, i, last));
                    }
                }
                assert(after[before.len() as int] == last);
                assert forall|key: u64| #[trigger] before.contains(key) implies after.contains(
                    key,
                ) by {
                    assert(after[before.index_of(key)] == key);
                }
                assert forall|key: u64| #[trigger] after.contains(key) implies queue::awaits(
                    operations,
                    key,
                ) by {
                    let i = after.index_of(key);
                    if i < before.len() {
                        assert(before[i] == key);
                        assert(before.contains(key));
                    }
                }
            }
        }
    }
}

/// Closing the service wakes the task of each delay that waits once, with the waker that its timer
/// held, and no other task.
pub proof fn law_close_wakes_each_task_once<W>(
    service: ServiceModel<W>,
    drained: Seq<u64>,
) -> (keys: Seq<u64>)
    requires
        service.wf(),
        service.wheel.is_drain(drained),
    ensures
        wakes_once(
            service.shared,
            service.closed(),
            keys,
            service.woken_by_drain(drained) + service.woken_by_discard(
                service.shared.queue.operations,
            ),
        ),
{
    let operations = service.shared.queue.operations;
    let first = drained_keys(service, drained);
    let second = discarded_keys(service, operations);
    let keys = first + second;
    let woken = service.woken_by_drain(drained) + service.woken_by_discard(operations);
    service.lemma_drained_keys(drained);
    lemma_drained_keys_wake(service, drained);
    lemma_discarded_keys_wake(service, operations);
    assert forall|i: int|
        #![trigger keys[i]]
        #![trigger woken[i]]
        0 <= i < keys.len() implies service.shared.timers.contains_key(keys[i])
        && service.shared.timers[keys[i]].waker.taken() == Some(woken[i]) && (if i < first.len() {
        service.shared.timers[keys[i]].lifecycle is Registered
    } else {
        service.shared.timers[keys[i]].lifecycle is Submitted
    }) by {
        if i < first.len() {
            assert(keys[i] == first[i]);
            assert(woken[i] == service.woken_by_drain(drained)[i]);
        } else {
            assert(keys[i] == second[i - first.len()]);
            assert(woken[i] == service.woken_by_discard(operations)[i - first.len()]);
        }
    }
    assert forall|i: int, j: int|
        0 <= i < keys.len() && 0 <= j < keys.len() && i != j implies keys[i] != keys[j] by {
        if i < first.len() && j < first.len() {
            assert(first[i] != first[j]);
        } else if i >= first.len() && j >= first.len() {
            assert(second[i - first.len()] != second[j - first.len()]);
        }
    }
    assert forall|key: u64| #[trigger] service.shared.timers.contains_key(key) implies (
    keys.contains(key) <==> !service.shared.timers[key].lifecycle.is_terminal()
        && service.closed().timers[key].lifecycle.is_terminal()) by {
        if service.shared.timers[key].lifecycle is Registered {
            service.lemma_registered_is_drained(key, drained);
            assert(first.contains(key));
            assert(keys[first.index_of(key)] == key);
        } else if service.shared.timers[key].lifecycle is Submitted {
            assert(queue::awaits(operations, key));
            assert(second.contains(key));
            assert(keys[first.len() + second.index_of(key)] == key);
        } else if keys.contains(key) {
            let i = keys.index_of(key);
            assert(keys[i] == key);
        }
    }
    keys
}

/// A handle never reads an earlier clock than the service has published.
pub proof fn law_handles_read_no_earlier_clock<W>(shared: SharedModel<W>, wall: Instant)
    ensures
        shared.published().nanos <= shared.observation(wall).nanos,
{
}

} // verus!
