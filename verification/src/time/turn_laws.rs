//! How far a turn gets, and how long a reactor may wait before the next one.

use vstd::prelude::*;

use crate::time::deadline::Deadline;
use crate::time::delay::Delay;
use crate::time::delay_laws;
use crate::time::entries::Location;
use crate::time::geometry;
use crate::time::geometry::HORIZON;
use crate::time::instant::{Instant, LAST_NANOS};
use crate::time::model::{Step, WheelModel};
use crate::time::poll::{Poll, TimerClosed};
use crate::time::queue;
use crate::time::queue::{Operation, RegisterOp};
use crate::time::service_laws;
use crate::time::service_model;
use crate::time::service_model::{ServiceModel, WaitPlan};
use crate::time::ticks;
use crate::time::waker::Waker;
use crate::time::wheel_laws;

verus! {

// Progress.

/// A step is taken exactly when something is due.
pub proof fn law_step_is_taken_when_due<W>(service: ServiceModel<W>)
    requires
        service.wf(),
    ensures
        service.choose_step().1 is Some <==> service.wheel.has_due(service.last_now),
        service.choose_step().1 matches Some(Step::Fire(id)) ==> {
            &&& service.wheel.timers.contains_key(id)
            &&& service.wheel.timers[id].deadline matches Deadline::At(deadline) && deadline.nanos
                <= service.last_now.nanos
            &&& service.choose_step().0.timers == service.wheel.timers
        },
{
    service.lemma_choose_step();
    service.wheel.lemma_step_non_immediate(service.last_now);
    wheel_laws::law_due_work_is_done(service.wheel, service.last_now);
}

/// Which step is taken: one of the preferred kind when there is one, and else one of the other
/// kind.
pub proof fn law_preferred_kind_is_served<W>(service: ServiceModel<W>)
    requires
        service.wf(),
    ensures
        ({
            let immediate = service.wheel.step_immediate();
            let other = service.wheel.step_non_immediate(service.last_now);
            let (wheel, step) = service.choose_step();
            &&& immediate is Some <==> service.wheel.queues[Location::Immediate].len() > 0
            &&& service.prefer_non_immediate && other.1 is Some ==> (wheel, step) == other
            &&& service.prefer_non_immediate && other.1 is None ==> step == immediate
            &&& !service.prefer_non_immediate && immediate is Some ==> step == immediate && wheel
                == service.wheel
            &&& !service.prefer_non_immediate && immediate is None ==> (wheel, step) == other
        }),
{
    service.wheel.lemma_step_non_immediate(service.last_now);
}

/// A service on which nothing is due stays as it is once its wheel has advanced.
proof fn lemma_idle_run_changes_nothing<W>(service: ServiceModel<W>, budget: nat)
    requires
        service.wf(),
        service.choose_step().1 is None,
    ensures
        ({
            let idle = ServiceModel { wheel: service.choose_step().0, ..service };
            &&& idle.run(budget) == idle
            &&& idle.woken_by_run(budget) == Seq::<Waker<W>>::empty()
        }),
{
    let wheel = service.choose_step().0;
    let idle = ServiceModel { wheel, ..service };
    service.lemma_choose_step();
    service.wheel.lemma_step_non_immediate(service.last_now);
    assert(wheel == service.wheel.advance(service.wheel.floor(service.last_now)));
    assert(wheel.advance(wheel.floor(service.last_now)) == wheel);
    assert(idle.choose_step() == (wheel, None::<Step>));
}

/// A budget can be split: turning with a budget of `first + second` steps is turning with `first`
/// steps and then with `second` ones, and the same tasks are woken in the same order. Whether a
/// turn goes on depends on nothing but the budget and on what is due.
pub proof fn law_budget_can_be_split<W>(service: ServiceModel<W>, first: nat, second: nat)
    requires
        service.wf(),
    ensures
        service.run(first + second) == service.run(first).run(second),
        service.woken_by_run(first + second) == service.woken_by_run(first) + service.run(
            first,
        ).woken_by_run(second),
    decreases first,
{
    if first == 0 {
        assert(Seq::<Waker<W>>::empty() + service.woken_by_run(second)
            =~= service.woken_by_run(second));
    } else {
        let (wheel, step) = service.choose_step();
        match step {
            None => {
                lemma_idle_run_changes_nothing(service, second);
                assert(Seq::<Waker<W>>::empty() + Seq::<Waker<W>>::empty() =~= Seq::empty());
            },
            Some(step) => {
                let next = service.stepped(wheel).apply_step(step);
                service.lemma_step();
                law_budget_can_be_split(next, (first - 1) as nat, second);
                let head = service_model::waker_seq(service.stepped(wheel).woken_by_step(step));
                let body = next.woken_by_run((first - 1) as nat);
                let tail = next.run((first - 1) as nat).woken_by_run(second);
                assert((first - 1) as nat + second == (first + second - 1) as nat);
                assert(head + (body + tail) =~= head + body + tail);
            },
        }
    }
}

/// Whether `count` steps in a row lead to `after`, each of them with something due.
pub open spec fn takes<W>(service: ServiceModel<W>, count: nat, after: ServiceModel<W>) -> bool
    decreases count,
{
    if count == 0 {
        after == service
    } else {
        let (wheel, step) = service.choose_step();
        &&& service.wheel.has_due(service.last_now)
        &&& step matches Some(step) && takes(
            service.stepped(wheel).apply_step(step),
            (count - 1) as nat,
            after,
        )
    }
}

/// A turn stops only when its budget is used up or nothing is due: it takes exactly `budget`
/// steps, or it leaves nothing due. Each step brings the entries nearer to their firing, so the
/// work that is left has shrunk by the budget, however many entries that are not due there are.
pub proof fn law_turn_uses_its_budget<W>(service: ServiceModel<W>, budget: nat)
    requires
        service.wf(),
    ensures
        !service.run(budget).wheel.has_due(service.last_now) || takes(
            service,
            budget,
            service.run(budget),
        ),
        service.run(budget).wheel.has_due(service.last_now) ==> wheel_laws::work(
            service.run(budget).wheel.timers,
        ) + budget <= wheel_laws::work(service.wheel.timers),
        budget > 0 && service.wheel.has_due(service.last_now) ==> wheel_laws::work(
            service.run(budget).wheel.timers,
        ) < wheel_laws::work(service.wheel.timers),
        wheel_laws::work(service.run(budget).wheel.timers) <= wheel_laws::work(
            service.wheel.timers,
        ),
    decreases budget,
{
    if budget > 0 {
        let (wheel, step) = service.choose_step();
        service.lemma_choose_step();
        law_step_is_taken_when_due(service);
        if let Some(step) = step {
            let next = service.stepped(wheel).apply_step(step);
            service.lemma_step();
            match step {
                Step::Fire(id) => {
                    wheel_laws::lemma_fire_lowers_work(wheel, id);
                },
                Step::Examined => {
                    wheel_laws::lemma_examined_lowers_work(service.wheel, wheel);
                },
            }
            law_turn_uses_its_budget(next, (budget - 1) as nat);
        }
    }
}

/// A turn takes no more steps than its budget: what it does is what some number of steps does, at
/// most `budget`, and stopping early it only advances the wheel.
pub proof fn law_turn_keeps_to_its_budget<W>(service: ServiceModel<W>, budget: nat) -> (count: nat)
    requires
        service.wf(),
    ensures
        count <= budget,
        exists|last: ServiceModel<W>| #[trigger]
            takes(service, count, last) && {
                let after = service.run(budget);
                &&& after.shared == last.shared
                &&& after.wheel.timers == last.wheel.timers
                &&& after.last_now == last.last_now
                &&& after == last || count < budget && !after.wheel.has_due(service.last_now)
            },
    decreases budget,
{
    let (wheel, step) = service.choose_step();
    if budget == 0 {
        assert(takes(service, 0, service));
        0
    } else {
        service.lemma_choose_step();
        law_step_is_taken_when_due(service);
        match step {
            None => {
                assert(takes(service, 0, service));
                0
            },
            Some(step) => {
                let next = service.stepped(wheel).apply_step(step);
                service.lemma_step();
                let count = law_turn_keeps_to_its_budget(next, (budget - 1) as nat);
                let last = choose|last: ServiceModel<W>| #[trigger]
                    takes(next, count, last) && {
                        let after = next.run((budget - 1) as nat);
                        &&& after.shared == last.shared
                        &&& after.wheel.timers == last.wheel.timers
                        &&& after.last_now == last.last_now
                        &&& after == last || count < budget - 1 && !after.wheel.has_due(
                            next.last_now,
                        )
                    };
                assert(takes(next, count, last));
                assert(takes(service, count + 1, last));
                count + 1
            },
        }
    }
}

/// The service after `turns` rounds of at most `budget` steps each.
pub open spec fn after_rounds<W>(service: ServiceModel<W>, budget: nat, turns: nat) -> ServiceModel<
    W,
>
    decreases turns,
{
    if turns == 0 {
        service
    } else {
        after_rounds(service, budget, (turns - 1) as nat).run(budget)
    }
}

/// Whatever the budget, turning again and again leaves nothing due: as many rounds as the entries
/// can take steps are enough.
pub proof fn law_every_budget_gets_there<W>(service: ServiceModel<W>, budget: nat, turns: nat)
    requires
        service.wf(),
        budget > 0,
        turns >= wheel_laws::work(service.wheel.timers),
    ensures
        !after_rounds(service, budget, turns).wheel.has_due(service.last_now),
{
    lemma_rounds_progress(service, budget, turns);
    let last = after_rounds(service, budget, turns);
    if last.wheel.has_due(service.last_now) {
        law_turn_uses_its_budget(last, 1);
    }
}

/// Each round leaves nothing due, or less to do.
proof fn lemma_rounds_progress<W>(service: ServiceModel<W>, budget: nat, turns: nat)
    requires
        service.wf(),
        budget > 0,
    ensures
        after_rounds(service, budget, turns).wf(),
        after_rounds(service, budget, turns).last_now == service.last_now,
        !after_rounds(service, budget, turns).wheel.has_due(service.last_now) || wheel_laws::work(
            after_rounds(service, budget, turns).wheel.timers,
        ) + turns <= wheel_laws::work(service.wheel.timers),
    decreases turns,
{
    if turns > 0 {
        let before = after_rounds(service, budget, (turns - 1) as nat);
        lemma_rounds_progress(service, budget, (turns - 1) as nat);
        before.lemma_run(budget);
        law_turn_uses_its_budget(before, budget);
        if !before.wheel.has_due(service.last_now) {
            law_step_is_taken_when_due(before);
            before.lemma_choose_step();
        }
    }
}

/// A turn on which nothing is due wakes nobody and changes no timer; it only lets the wheel catch
/// up with the clock.
pub proof fn law_idle_turn_changes_nothing<W>(service: ServiceModel<W>, budget: nat)
    requires
        service.wf(),
        !service.wheel.has_due(service.last_now),
    ensures
        service.run(budget).shared == service.shared,
        service.run(budget).wheel.timers == service.wheel.timers,
        service.woken_by_run(budget).len() == 0,
        !service.run(budget).wheel.has_due(service.last_now),
        service.run(budget).settle().shared == service.shared,
        service.run(budget).settle().wheel.timers == service.wheel.timers,
        service.run(budget).settle().wheel.position == ticks::floor_tick(
            service.wheel.genesis,
            service.last_now,
        ),
{
    law_step_is_taken_when_due(service);
    service.lemma_choose_step();
}

/// A turn that leaves nothing due leaves the wheel at the clock reading; one that leaves something
/// due does not move it further. Settling touches no entry.
pub proof fn law_settled_wheel_is_at_the_clock<W>(service: ServiceModel<W>)
    requires
        service.wf(),
    ensures
        service.settle().shared == service.shared,
        service.settle().last_now == service.last_now,
        service.settle().prefer_non_immediate == service.prefer_non_immediate,
        service.settle().wheel.timers == service.wheel.timers,
        service.settle().wheel.queues == service.wheel.queues,
        service.settle().wheel.draining == service.wheel.draining,
        service.settle().wheel.position == if service.wheel.has_due(service.last_now) {
            service.wheel.position
        } else {
            ticks::floor_tick(service.wheel.genesis, service.last_now)
        },
{
}

/// How many operations a turn takes from the queue: as many as the budget admits, or all of them.
/// They leave in the order in which they came.
pub proof fn law_batch_is_the_budget_or_all<W>(service: ServiceModel<W>, limit: int)
    requires
        limit >= 0,
    ensures
        ({
            let before = service.shared.queue.operations;
            let count = service.shared.queue.batch(limit);
            &&& count == limit || count == before.len()
            &&& count <= limit && count <= before.len()
            &&& service.shared.queue.skip(count).operations == before.subrange(
                count,
                before.len() as int,
            )
        }),
{
}

/// A step takes from a queue the entry that has waited there longest, and a new entry goes to the
/// back: entries of one queue leave it in the order in which they came.
pub proof fn law_entries_leave_in_order(wheel: WheelModel, now: Instant)
    requires
        wheel.wf(),
        wheel.reached(now),
    ensures
        wheel.step_immediate() matches Some(Step::Fire(id)) ==> wheel.timers[id].location
            is Immediate && wheel.queues[Location::Immediate].index_of(id) == 0,
        wheel.step_non_immediate(now).1 matches Some(Step::Fire(id)) ==> wheel.queues[
            wheel.timers[id].location].index_of(id) == 0,
        forall|id: usize, deadline: Deadline, value: u64, location: Location|
            #![trigger wheel.attach(id, deadline, value, location)]
            {
                let after = wheel.attach(id, deadline, value, location);
                &&& after.queues[location] == wheel.queues[location].push(id)
                &&& after.timers[id].deadline == deadline
                &&& after.timers[id].value == value
                &&& after.timers[id].location == location
                &&& after.timers.remove(id) == wheel.timers.remove(id)
                &&& after.position == wheel.position
                &&& after.genesis == wheel.genesis
            },
{
    wheel.lemma_step_non_immediate(now);
    if let Some(Step::Fire(id)) = wheel.step_immediate() {
        assert(wheel.queues[Location::Immediate][0] == id);
        assert(wheel.timers.contains_key(id));
        assert(wheel.queues[Location::Immediate].contains(id));
    }
    if let Some(Step::Fire(id)) = wheel.step_non_immediate(now).1 {
        let location = wheel.timers[id].location;
        assert(wheel.queues[location].contains(id));
        if wheel.draining is Some {
            assert(wheel.queues[wheel.draining->0.location()][0] == id);
        } else if wheel.wheel_ready(now) {
            let boundary = wheel.next_boundary()->0;
            assert(wheel.is_next_boundary(boundary));
            assert(wheel.queues[boundary.location()][0] == id);
        } else {
            let deadline = wheel.first_overflow()->0;
            assert(wheel.is_first_overflow(deadline));
            assert(wheel.queues[Location::Overflow(deadline)][0] == id);
        }
        assert(wheel.queues[location][0] == id);
    }
    assert forall|id: usize, deadline: Deadline, value: u64, location: Location|
        #![trigger wheel.attach(id, deadline, value, location)]
        wheel.attach(id, deadline, value, location).timers.remove(id) == wheel.timers.remove(
            id,
        ) by {
        assert(wheel.attach(id, deadline, value, location).timers.remove(id)
            =~= wheel.timers.remove(id));
    }
}

/// Taking an entry out leaves every other entry as it was, and in its place in the queue.
pub proof fn law_removal_keeps_the_others(wheel: WheelModel, id: usize, location: Location)
    requires
        wheel.wf(),
        wheel.timers.contains_key(id),
    ensures
        wheel.detach(id).timers == wheel.timers.remove(id),
        wheel.detach(id).position == wheel.position,
        wheel.detach(id).genesis == wheel.genesis,
        location != wheel.timers[id].location ==> wheel.detach(id).queues[location]
            == wheel.queues[location],
        ({
            let queue = wheel.queues[wheel.timers[id].location];
            let at = queue.index_of(id);
            &&& 0 <= at < queue.len()
            &&& wheel.detach(id).queues[wheel.timers[id].location] == queue.take(at) + queue.skip(
                at + 1,
            )
        }),
{
    wheel.lemma_detach(id);
    let queue = wheel.queues[wheel.timers[id].location];
    let at = queue.index_of(id);
    assert(wheel.detach(id).queues[wheel.timers[id].location] =~= queue.take(at) + queue.skip(
        at + 1,
    ));
}

/// Entries in slots fire in the order of their ticks: when a slot's entry fires at its tick, no
/// entry in a slot has an earlier one.
pub proof fn law_ticks_fire_in_order(wheel: WheelModel, now: Instant, id: usize, other: usize)
    requires
        wheel.wf(),
        wheel.reached(now),
        wheel.step_non_immediate(now).1 == Some(Step::Fire(id)),
        wheel.timers[id].location matches Location::Wheel { level, slot } && level == 0,
        wheel.timers.contains_key(other),
        wheel.timers[other].location is Wheel,
    ensures
        ticks::ceil_tick(wheel.genesis, wheel.timers[id].deadline->At_0) matches Some(first)
            && ticks::ceil_tick(wheel.genesis, wheel.timers[other].deadline->At_0) matches Some(
            second,
        ) && first <= second,
{
    wheel.lemma_step_non_immediate(now);
    let place = wheel.timers[other].location;
    let (level, slot) = (place->Wheel_level, place->Wheel_slot);
    wheel.lemma_entry_start(other, level, slot);
    assert(wheel.queues[place].contains(other));
    let mine = wheel.timers[id].location;
    wheel.lemma_entry_start(id, mine->Wheel_level, mine->Wheel_slot);
    if wheel.draining is Some {
        assert(wheel.queues[wheel.draining->0.location()][0] == id);
        wheel_laws::law_drained_slot_starts_first(wheel, level, slot);
    } else if wheel.wheel_ready(now) {
        let boundary = wheel.next_boundary()->0;
        assert(wheel.is_next_boundary(boundary));
        assert(wheel.queues[boundary.location()][0] == id);
        assert(wheel.not_after(boundary, level, slot));
    } else {
        let deadline = wheel.first_overflow()->0;
        assert(wheel.is_first_overflow(deadline));
        assert(wheel.queues[Location::Overflow(deadline)][0] == id);
    }
}

/// An entry goes where it has the fewest steps before it: into the lowest level whose revolution
/// still covers its tick, beyond the horizon only when no level does, and among the due ones only
/// when it is due.
pub proof fn law_entries_start_in_the_lowest_level(
    wheel: WheelModel,
    deadline: Instant,
    now: Instant,
)
    requires
        wheel.wf(),
        wheel.reached(now),
    ensures
        match wheel.classify(Deadline::At(deadline), now) {
            Location::Immediate => deadline.nanos <= now.nanos,
            Location::Never => false,
            Location::Overflow(instant) => {
                &&& instant == deadline
                &&& now.nanos < deadline.nanos
                &&& ticks::ceil_tick(wheel.genesis, deadline) matches Some(tick) ==> tick
                    - wheel.position >= HORIZON
            },
            Location::Wheel { level, slot } => {
                &&& now.nanos < deadline.nanos
                &&& ticks::ceil_tick(wheel.genesis, deadline) matches Some(tick) && {
                    let ahead = tick - wheel.position;
                    &&& 0 <= ahead < geometry::width(level + 1)
                    &&& level > 0 ==> geometry::width(level as int) <= ahead
                    &&& slot == (tick / geometry::width(level as int)) % 64
                }
            },
        },
        wheel.classify(Deadline::Never, now) is Never,
{
    if now.nanos < deadline.nanos {
        ticks::lemma_pending_tick_is_ahead(wheel.genesis, deadline, now);
        if let Some(tick) = wheel.ceil(deadline) {
            if tick - wheel.position < HORIZON {
                geometry::lemma_placement(wheel.position, tick);
            }
        }
    }
}

/// Which ticks a slot covers: level `l` has slots of `64^l` ticks, so a revolution of one level is
/// one slot of the next.
pub proof fn law_levels_nest(level: int)
    requires
        0 <= level < geometry::LEVELS,
    ensures
        geometry::width(0) == 1,
        geometry::width(level + 1) == geometry::width(level) * geometry::SLOTS,
        geometry::width(geometry::LEVELS as int) == HORIZON,
        geometry::SLOTS == 64,
        geometry::LEVELS == 6,
        ticks::TICK_NANOS == 1_000_000,
{
}

/// The clock is rounded down to a tick and deadlines are rounded up: a tick that the clock has
/// reached starts at most one tick before it, and the tick of a deadline starts less than one tick
/// after it.
pub proof fn law_rounding_is_to_the_next_tick(genesis: Instant, instant: Instant)
    requires
        genesis.nanos <= instant.nanos,
    ensures
        ({
            let floor = ticks::floor_tick(genesis, instant);
            &&& 0 <= floor <= u64::MAX
            &&& genesis.nanos + floor * 1_000_000 <= instant.nanos
            &&& floor < u64::MAX ==> instant.nanos < genesis.nanos + (floor + 1) * 1_000_000
        }),
        match ticks::ceil_tick(genesis, instant) {
            Some(tick) => {
                &&& 0 <= tick <= u64::MAX
                &&& instant.nanos <= genesis.nanos + tick * 1_000_000
                &&& genesis.nanos + (tick - 1) * 1_000_000 < instant.nanos
            },
            None => instant.nanos > genesis.nanos + u64::MAX * 1_000_000 || instant.nanos
                > LAST_NANOS,
        },
{
}

/// A deadline beyond the horizon is looked at again at the first tick from which it fits into the
/// wheel, and no later than it is due.
pub proof fn law_promotion_is_when_it_fits(genesis: Instant, deadline: Instant)
    requires
        genesis.nanos <= deadline.nanos,
        ticks::ceil_tick(genesis, deadline) matches Some(tick) && tick >= HORIZON,
    ensures
        ({
            let tick = ticks::ceil_tick(genesis, deadline)->0;
            let promotion = ticks::promotion_instant(genesis, deadline);
            &&& promotion.nanos == genesis.nanos + (tick - HORIZON + 1) * 1_000_000
            &&& promotion.nanos <= deadline.nanos
        }),
{
}

/// Batches can be split: processing `first + second` operations is processing `first` of them and
/// then `second`, and a batch of one is one operation.
pub proof fn law_batches_can_be_split<W>(
    service: ServiceModel<W>,
    first: nat,
    second: nat,
    last: ServiceModel<W>,
)
    ensures
        service.drains(first + second, last) <==> exists|mid: ServiceModel<W>|
            service.drains(first, mid) && #[trigger] mid.drains(second, last),
        service.drains(1, last) <==> service.processes(last),
        service.drains(0, last) <==> last == service,
    decreases first,
{
    reveal_with_fuel(ServiceModel::drains, 2);
    if first == 0 {
        assert(service.drains(0, service));
    } else {
        let fewer = (first - 1) as nat;
        assert((first + second - 1) as nat == fewer + second);
        if service.drains(first + second, last) {
            let next = choose|next: ServiceModel<W>| #[trigger]
                service.processes(next) && next.drains(fewer + second, last);
            law_batches_can_be_split(next, fewer, second, last);
            let mid = choose|mid: ServiceModel<W>|
                next.drains(fewer, mid) && #[trigger] mid.drains(second, last);
            assert(service.processes(next) && next.drains(fewer, mid));
            assert(service.drains(first, mid) && mid.drains(second, last));
        }
        if exists|mid: ServiceModel<W>|
            service.drains(first, mid) && #[trigger] mid.drains(second, last) {
            let mid = choose|mid: ServiceModel<W>|
                service.drains(first, mid) && #[trigger] mid.drains(second, last);
            let next = choose|next: ServiceModel<W>| #[trigger]
                service.processes(next) && next.drains(fewer, mid);
            law_batches_can_be_split(next, fewer, second, last);
            assert(next.drains(fewer, mid) && mid.drains(second, last));
            assert(service.processes(next) && next.drains(fewer + second, last));
        }
    }
    if service.processes(last) {
        assert(last.drains(0, last));
    }
}

/// Closing wakes tasks in order: one more key, or one more queued registration, adds the waker of
/// its timer at the end when the timer still waits, and nothing otherwise.
pub proof fn law_close_wakes_in_order<W>(
    service: ServiceModel<W>,
    keys: Seq<u64>,
    operations: Seq<Operation>,
    key: u64,
    deadline: Deadline,
)
    requires
        service.wf(),
        service.shared.timers.contains_key(key),
    ensures
        ({
            let state = service.shared.timers[key];
            let waker = state.waker.waker->0;
            &&& service.woken_by_drain(keys.push(key)) == if state.lifecycle is Registered {
                service.woken_by_drain(keys).push(waker)
            } else {
                service.woken_by_drain(keys)
            }
            &&& service.woken_by_discard(
                operations.push(Operation::Register(RegisterOp { deadline, key })),
            ) == if state.lifecycle is Submitted {
                service.woken_by_discard(operations).push(waker)
            } else {
                service.woken_by_discard(operations)
            }
        }),
        service.woken_by_drain(Seq::empty()).len() == 0,
        service.woken_by_discard(Seq::empty()).len() == 0,
{
    let operation = Operation::Register(RegisterOp { deadline, key });
    assert(keys.push(key).drop_last() =~= keys);
    assert(operations.push(operation).drop_last() =~= operations);
    assert(service.woken_by_drain(keys) + Seq::empty() =~= service.woken_by_drain(keys));
    assert(service.woken_by_discard(operations) + Seq::empty() =~= service.woken_by_discard(
        operations,
    ));
    if service.shared.timers[key].lifecycle is Registered
        || service.shared.timers[key].lifecycle is Submitted {
        let waker = service.shared.timers[key].waker.waker->0;
        assert(service.woken_by_drain(keys) + seq![waker] =~= service.woken_by_drain(keys).push(
            waker,
        ));
        assert(service.woken_by_discard(operations) + seq![waker]
            =~= service.woken_by_discard(operations).push(waker));
    }
}

/// An entry that moves on goes to the back of the queue in which it belongs now; its deadline and
/// what it stands for stay, and so does every other entry.
pub proof fn law_moved_entry_goes_to_the_back(wheel: WheelModel, id: usize, now: Instant)
    requires
        wheel.wf(),
        wheel.timers.contains_key(id),
    ensures
        ({
            let after = wheel.relocate(id, now);
            let entry = wheel.timers[id];
            let place = wheel.classify(entry.deadline, now);
            &&& after.timers.contains_key(id)
            &&& after.timers[id].deadline == entry.deadline
            &&& after.timers[id].value == entry.value
            &&& after.timers[id].location == place
            &&& after.timers.remove(id) == wheel.timers.remove(id)
            &&& after.queues[place].len() > 0 && after.queues[place].last() == id
            &&& after.position == wheel.position
            &&& after.genesis == wheel.genesis
        }),
{
    assert(wheel.relocate(id, now).timers.remove(id) =~= wheel.timers.remove(id));
}

/// Slots come before deadlines beyond the horizon, and of those the earliest comes first: a far
/// entry fires only when no slot has started, and when no far deadline is earlier.
pub proof fn law_far_deadlines_come_last(wheel: WheelModel, now: Instant, id: usize, other: usize)
    requires
        wheel.wf(),
        wheel.reached(now),
        wheel.step_non_immediate(now).1 == Some(Step::Fire(id)),
        wheel.timers[id].location is Overflow,
        wheel.timers.contains_key(other),
    ensures
        wheel.draining is None,
        wheel.timers[other].location is Overflow ==> wheel.timers[id].deadline->At_0.nanos
            <= wheel.timers[other].deadline->At_0.nanos,
        wheel.timers[other].location is Wheel ==> !delay_laws::entry_is_ready(wheel, other, now),
{
    wheel.lemma_step_non_immediate(now);
    assert(wheel.placed(wheel.timers[id]));
    assert(wheel.placed(wheel.timers[other]));
    let place = wheel.timers[other].location;
    assert(wheel.queues[place].contains(other));
    if wheel.draining is Some {
        assert(wheel.queues[wheel.draining->0.location()][0] == id);
    } else if wheel.wheel_ready(now) {
        let boundary = wheel.next_boundary()->0;
        assert(wheel.is_next_boundary(boundary));
        assert(wheel.queues[boundary.location()][0] == id);
    } else {
        let first = wheel.first_overflow()->0;
        assert(wheel.is_first_overflow(first));
        assert(wheel.queues[Location::Overflow(first)][0] == id);
        match place {
            Location::Wheel { level, slot } => {
                wheel.lemma_entry_start(other, level, slot);
                wheel.lemma_first_slot(level, slot);
            },
            Location::Overflow(far) => {
                assert(wheel.queues[Location::Overflow(far)].len() > 0);
            },
            _ => {},
        }
    }
}

/// What a step does: firing takes the entry out, and examining only moves it on.
pub proof fn law_steps_fire_or_examine<W>(service: ServiceModel<W>, id: usize, wheel: WheelModel)
    ensures
        service.apply_step(Step::Fire(id)) == service.fire(id),
        service.apply_step(Step::Examined) == service,
        service.woken_by_step(Step::Fire(id)) == service.woken_by_fire(id),
        service.woken_by_step(Step::Examined) is None,
        service.stepped(wheel).prefer_non_immediate == !service.prefer_non_immediate,
        service.stepped(wheel).wheel == wheel,
        service.stepped(wheel).shared == service.shared,
        service.stepped(wheel).last_now == service.last_now,
{
}

/// A tick starts a whole number of ticks after the genesis, and every tick that the clock can show
/// has an instant. Instants up to the genesis belong to its own tick.
pub proof fn law_ticks_start_on_the_millisecond(genesis: Instant, tick: int, early: Instant)
    requires
        tick >= 0,
        early.nanos <= genesis.nanos,
    ensures
        ticks::tick_nanos(genesis, tick) == genesis.nanos + tick * 1_000_000,
        ticks::instant_for_tick(genesis, tick) is Some <==> genesis.nanos + tick * 1_000_000
            <= LAST_NANOS,
        ticks::instant_for_tick(genesis, tick) matches Some(instant) ==> instant.nanos
            == genesis.nanos + tick * 1_000_000,
        ticks::floor_tick(genesis, early) == 0,
        ticks::ceil_tick(genesis, early) == Some(0int),
        forall|deadline: Instant|
            ticks::ceil_tick(genesis, deadline) is None ==> #[trigger] ticks::promotion_instant(
                genesis,
                deadline,
            ) == deadline,
{
}

// Waiting.

/// When a boundary tick has been reached.
proof fn lemma_tick_is_reached(genesis: Instant, tick: int, now: Instant)
    requires
        genesis.nanos <= now.nanos,
        0 <= tick <= u64::MAX,
    ensures
        tick <= ticks::floor_tick(genesis, now) <==> ticks::tick_nanos(genesis, tick) <= now.nanos,
{
}

/// A wheel that reports an instant has work then and none before: nothing is due at any instant of
/// the clock between the reading and the reported one, and something is due there. When nothing
/// is reported, nothing ever is due at an instant of the clock.
pub proof fn law_reported_instant_is_the_first(wheel: WheelModel, now: Instant, other: Instant)
    requires
        wheel.wf(),
        wheel.reached(now),
        !wheel.has_due(now),
        now.nanos <= other.nanos,
    ensures
        match wheel.next_poll_at(now) {
            Some(instant) => {
                &&& wheel.has_due(instant)
                &&& now.nanos < instant.nanos
                &&& other.nanos < instant.nanos && other.nanos <= LAST_NANOS ==> !wheel.has_due(
                    other,
                )
            },
            None => other.nanos <= LAST_NANOS ==> !wheel.has_due(other),
        },
{
    if let Some(boundary) = wheel.next_boundary() {
        assert(wheel.is_next_boundary(boundary));
        lemma_tick_is_reached(wheel.genesis, boundary.tick as int, now);
        lemma_tick_is_reached(wheel.genesis, boundary.tick as int, other);
        if let Some(instant) = wheel.next_poll_at(now) {
            if wheel.genesis.nanos <= instant.nanos {
                lemma_tick_is_reached(wheel.genesis, boundary.tick as int, instant);
            }
        }
    }
}

/// Which entry a reported instant is for: one with a deadline, whose slot starts then, or which
/// then comes within the horizon. Its slot holds the entry's own tick.
pub proof fn law_reported_instant_is_for_an_entry(wheel: WheelModel, now: Instant) -> (id: usize)
    requires
        wheel.wf(),
        wheel.reached(now),
        !wheel.has_due(now),
        wheel.next_poll_at(now) is Some,
    ensures
        ({
            let instant = wheel.next_poll_at(now)->0;
            let entry = wheel.timers[id];
            &&& wheel.timers.contains_key(id)
            &&& entry.deadline matches Deadline::At(deadline) && match entry.location {
                Location::Wheel { level, slot } => ticks::ceil_tick(
                    wheel.genesis,
                    deadline,
                ) matches Some(tick) && {
                    let start = (tick / geometry::width(level as int)) * geometry::width(
                        level as int,
                    );
                    &&& instant.nanos == wheel.genesis.nanos + start * 1_000_000
                    &&& start <= tick < start + geometry::width(level as int)
                },
                Location::Overflow(far) => {
                    &&& far == deadline
                    &&& instant.nanos <= deadline.nanos
                    &&& instant == ticks::promotion_instant(wheel.genesis, deadline)
                },
                _ => false,
            }
        }),
{
    let instant = wheel.next_poll_at(now)->0;
    let from_wheel = match wheel.next_boundary() {
        Some(boundary) => ticks::instant_for_tick(wheel.genesis, boundary.tick as int),
        None => None,
    };
    if from_wheel == Some(instant) {
        let boundary = wheel.next_boundary()->0;
        assert(wheel.is_next_boundary(boundary));
        let id = wheel.queues[boundary.location()][0];
        assert(wheel.timers.contains_key(id));
        wheel.lemma_entry_start(id, boundary.level, boundary.slot);
        id
    } else {
        let deadline = wheel.first_overflow()->0;
        assert(wheel.is_first_overflow(deadline));
        let id = wheel.queues[Location::Overflow(deadline)][0];
        assert(wheel.timers.contains_key(id));
        assert(wheel.placed(wheel.timers[id]));
        ticks::lemma_promotion_precedes_deadline(wheel.genesis, deadline);
        id
    }
}

/// A plan to wait is not early: when a service plans to wait until an instant, something is due on
/// its wheel then, and nothing at any instant of the clock before. A turn before the planned
/// instant would take no step, and one at that instant takes one.
pub proof fn law_wait_is_not_early<W>(service: ServiceModel<W>, other: Instant)
    requires
        service.wf(),
        service.wait_plan() is Until,
        service.last_now.nanos <= other.nanos,
    ensures
        service.wait_plan() matches WaitPlan::Until(instant) && {
            &&& service.wheel.has_due(instant)
            &&& service.last_now.nanos < instant.nanos
            &&& other.nanos < instant.nanos && other.nanos <= LAST_NANOS
                ==> !service.wheel.has_due(other)
            &&& (ServiceModel { last_now: instant, ..service }).choose_step().1 is Some
            &&& other.nanos < instant.nanos && other.nanos <= LAST_NANOS ==> (ServiceModel {
                last_now: other,
                ..service
            }).choose_step().1 is None
        },
{
    service_laws::law_reactor_waits_only_when_idle(service);
    law_reported_instant_is_the_first(service.wheel, service.last_now, other);
    let instant = service.wait_plan()->Until_0;
    wheel_laws::law_due_work_is_done(service.wheel, service.last_now);
}

/// A reactor waits for one of the entries: the planned instant is the start of the slot that holds
/// the entry's tick, or the instant at which the entry comes within the horizon. For an entry in
/// the lowest level it is the entry's own tick, so the reactor is woken once for it.
pub proof fn law_wait_is_for_an_entry<W>(service: ServiceModel<W>) -> (id: usize)
    requires
        service.wf(),
        service.wait_plan() is Until,
    ensures
        ({
            let instant = service.wait_plan()->Until_0;
            let entry = service.wheel.timers[id];
            &&& service.wheel.timers.contains_key(id)
            &&& entry.deadline matches Deadline::At(deadline) && match entry.location {
                Location::Wheel { level, slot } => ticks::ceil_tick(
                    service.wheel.genesis,
                    deadline,
                ) matches Some(tick) && {
                    let start = (tick / geometry::width(level as int)) * geometry::width(
                        level as int,
                    );
                    &&& instant.nanos == service.wheel.genesis.nanos + start * 1_000_000
                    &&& level == 0 ==> instant.nanos == service.wheel.genesis.nanos + tick
                        * 1_000_000
                    &&& deadline.nanos < instant.nanos + geometry::width(level as int)
                        * 1_000_000
                },
                Location::Overflow(far) => instant.nanos <= deadline.nanos && instant
                    == ticks::promotion_instant(service.wheel.genesis, deadline),
                _ => false,
            }
        }),
{
    service_laws::law_reactor_waits_only_when_idle(service);
    let id = law_reported_instant_is_for_an_entry(service.wheel, service.last_now);
    assert(service.wheel.placed(service.wheel.timers[id]));
    if let Location::Wheel { level, slot } = service.wheel.timers[id].location {
        service.wheel.lemma_entry_start(id, level, slot);
        if service.wheel.timers[id].deadline->At_0.nanos > service.wheel.genesis.nanos {
            law_rounding_is_to_the_next_tick(
                service.wheel.genesis,
                service.wheel.timers[id].deadline->At_0,
            );
        }
    }
    id
}

/// A reactor waits indefinitely exactly when nothing is queued and nothing will be due at any
/// instant of the clock; in particular when no entry has a deadline.
pub proof fn law_indefinite_wait<W>(service: ServiceModel<W>, other: Instant)
    requires
        service.wf(),
        service.last_now.nanos <= other.nanos <= LAST_NANOS,
    ensures
        service.wait_plan() is Indefinite ==> !service.wheel.has_due(other)
            && service.shared.queue.operations.len() == 0 && service.shared.queue.accepting,
        service.shared.queue.accepting && service.shared.queue.operations.len() == 0 && (forall|
            id: usize,
        | #[trigger]
            service.wheel.timers.contains_key(id) ==> service.wheel.timers[id].deadline is Never)
            ==> service.wait_plan() is Indefinite,
{
    service_laws::law_reactor_waits_only_when_idle(service);
    if service.wait_plan() is Indefinite {
        law_reported_instant_is_the_first(service.wheel, service.last_now, other);
    }
    if forall|id: usize| #[trigger]
        service.wheel.timers.contains_key(id) ==> service.wheel.timers[id].deadline is Never {
        wheel_laws::law_idle_wheel_reports_nothing(service.wheel, service.last_now);
    }
}

/// Preparing to wait changes nothing but the reactor's waker, and no waker is lost: the offered
/// one is held or handed back, and the one that was held is held still or handed back. A reactor
/// that may not wait leaves no waker behind with queued operations, and its own is handed back.
pub proof fn law_preparing_touches_only_the_waker<W>(service: ServiceModel<W>, waker: Waker<W>)
    requires
        service.wf(),
    ensures
        ({
            let after = service.prepared(waker);
            let released = service.released_by_prepare(waker);
            let held = service.shared.queue.reactor_waker;
            let holds = after.shared.queue.reactor_waker;
            &&& after.wheel == service.wheel
            &&& after.last_now == service.last_now
            &&& after.prefer_non_immediate == service.prefer_non_immediate
            &&& after.shared.timers == service.shared.timers
            &&& after.shared.queue.operations == service.shared.queue.operations
            &&& after.shared.queue.accepting == service.shared.queue.accepting
            &&& after.shared.observed == service.shared.observed
            &&& after.shared.genesis == service.shared.genesis
            &&& after.shared.clock_mode == service.shared.clock_mode
            &&& after.shared.next_key == service.shared.next_key
            &&& after.shared.closed == service.shared.closed
            &&& released.unused == Some(waker) || released.unused is None && holds == Some(waker)
            &&& released.previous == held || released.previous is None && holds == held
            &&& !(service.wait_plan() is Immediate) ==> (holds matches Some(holds)
                && holds.identity == waker.identity)
            &&& service.wait_plan() is Immediate ==> released.unused == Some(waker)
        }),
{
}

/// A delay completes once its deadline has come: when every operation has been processed and
/// nothing is due, the next poll of a delay whose rounded deadline the clock has reached is ready,
/// and so is that of every delay whose deadline lies a whole tick back.
pub proof fn law_due_delay_completes<W>(
    service: ServiceModel<W>,
    delay: Delay,
    deadline: Instant,
    wall: Instant,
    waker: Waker<W>,
)
    requires
        service.wf(),
        service.shared.queue.accepting,
        service.shared.queue.operations.len() == 0,
        !service.wheel.has_due(service.last_now),
        delay.wf(service.shared),
        delay.fired_at is None,
        !delay.closed,
        delay.deadline == Deadline::At(deadline),
        deadline.nanos + 1_000_000 <= service.last_now.nanos || (ticks::ceil_tick(
            service.wheel.genesis,
            deadline,
        ) matches Some(tick) && service.wheel.genesis.nanos + tick * 1_000_000
            <= service.last_now.nanos),
    ensures
        delay.poll_outcome(service.shared, wall, waker).result == Poll::<
            Result<(), TimerClosed>,
        >::Ready(Ok(())),
        delay.polled(service.shared, wall, waker).fired_at matches Some(at) && deadline.nanos
            <= at.nanos,
{
    if let Some(key) = delay.state {
        let state = service.shared.timers[key];
        assert(service.shared.timers.contains_key(key));
        if state.lifecycle is Submitted {
            assert(queue::awaits(service.shared.queue.operations, key));
        }
        if state.lifecycle is Registered {
            let id = state.slot->0;
            assert(service.is_entry_of(id, key));
            assert(service.accounted(id));
            wheel_laws::law_nothing_due_is_left(service.wheel, service.last_now, id);
        }
    } else if let Some(tick) = ticks::ceil_tick(service.wheel.genesis, deadline) {
        if service.wheel.genesis.nanos <= deadline.nanos {
            law_rounding_is_to_the_next_tick(service.wheel.genesis, deadline);
        }
    }
}

} // verus!
