//! What a timing wheel promises.

use vstd::prelude::*;

use crate::time::deadline::Deadline;
use crate::time::entries::Location;
use crate::time::geometry;
use crate::time::geometry::{LEVELS, SLOTS};
use crate::time::instant::{Instant, LAST_NANOS};
use crate::time::model;
use crate::time::model::{Entry, Step, WheelModel};
use crate::time::ticks;

verus! {

/// No entry fires early: whatever a step fires has a deadline that has come.
pub proof fn law_never_fires_early(wheel: WheelModel, now: Instant, id: usize)
    requires
        wheel.wf(),
        wheel.reached(now),
        wheel.step_immediate() == Some(Step::Fire(id)) || wheel.step_non_immediate(now).1 == Some(
            Step::Fire(id),
        ),
    ensures
        wheel.timers.contains_key(id),
        wheel.timers[id].deadline.elapsed(now),
{
    if wheel.step_immediate() == Some(Step::Fire(id)) {
        assert(wheel.timers.contains_key(wheel.queues[Location::Immediate][0]));
    } else {
        wheel.lemma_step_non_immediate(now);
    }
}

/// No entry is more than a tick late: when no work is left at `now`, the clock has not reached the
/// tick that a deadline was rounded up to, so a deadline that has come lies less than one tick
/// back. A deadline beyond the horizon, or beyond the last tick, has not come.
pub proof fn law_nothing_due_is_left(wheel: WheelModel, now: Instant, id: usize)
    requires
        wheel.wf(),
        wheel.reached(now),
        !wheel.has_due(now),
        wheel.timers.contains_key(id),
    ensures
        wheel.timers[id].deadline matches Deadline::At(deadline) ==> {
            &&& now.nanos < deadline.nanos + ticks::TICK_NANOS
            &&& match wheel.ceil(deadline) {
                Some(tick) => wheel.floor(now) < tick,
                None => now.nanos < deadline.nanos,
            }
            &&& wheel.timers[id].location is Overflow ==> now.nanos < deadline.nanos
        },
{
    let entry = wheel.timers[id];
    assert(wheel.placed(entry));
    assert(wheel.queues[entry.location].contains(id));
    if let Location::Wheel { level, slot } = entry.location {
        wheel.lemma_entry_start(id, level, slot);
        wheel.lemma_first_slot(level, slot);
    } else if let Location::Overflow(deadline) = entry.location {
        lemma_some_far_is_first(wheel, deadline);
        let first = wheel.first_overflow()->0;
        assert(wheel.is_first_overflow(first));
        assert(wheel.queues[Location::Overflow(deadline)].len() > 0);
        let far = wheel.queues[Location::Overflow(first)][0];
        assert(wheel.placed(wheel.timers[far]));
        ticks::lemma_promotion_precedes_deadline(wheel.genesis, first);
        ticks::lemma_pending_tick_is_ahead(wheel.genesis, deadline, now);
    }
}

/// A reactor that waits until the reported instant is in time for every entry: the instant lies
/// ahead, and no entry's deadline is rounded up to an earlier one. Without a reported instant, no
/// entry has a deadline.
///
/// Deadlines that are rounded up beyond the last instant of the clock are left out.
pub proof fn law_next_poll_is_in_time(wheel: WheelModel, now: Instant, id: usize)
    requires
        wheel.wf(),
        wheel.reached(now),
        !wheel.has_due(now),
        wheel.timers.contains_key(id),
        wheel.timers[id].deadline matches Deadline::At(deadline) && (wheel.ceil(
            deadline,
        ) matches Some(tick) ==> ticks::tick_nanos(wheel.genesis, tick) <= LAST_NANOS),
    ensures
        wheel.next_poll_at(now) matches Some(instant) && {
            let deadline = wheel.timers[id].deadline->At_0;
            &&& now.nanos < instant.nanos
            &&& match wheel.ceil(deadline) {
                Some(tick) => instant.nanos <= ticks::tick_nanos(wheel.genesis, tick),
                None => instant.nanos <= deadline.nanos,
            }
        },
{
    let entry = wheel.timers[id];
    let deadline = entry.deadline->At_0;
    assert(wheel.placed(entry));
    assert(wheel.queues[entry.location].contains(id));
    if let Location::Wheel { level, slot } = entry.location {
        wheel.lemma_entry_start(id, level, slot);
        wheel.lemma_first_slot(level, slot);
    } else if let Location::Overflow(far) = entry.location {
        lemma_some_far_is_first(wheel, far);
        let first = wheel.first_overflow()->0;
        assert(wheel.is_first_overflow(first));
        assert(wheel.queues[Location::Overflow(far)].len() > 0);
        let other = wheel.queues[Location::Overflow(first)][0];
        assert(wheel.placed(wheel.timers[other]));
        ticks::lemma_promotion_precedes_deadline(wheel.genesis, first);
    }
    if let Some(boundary) = wheel.next_boundary() {
        assert(wheel.is_next_boundary(boundary));
    }
}

/// When nothing is due and an instant is reported, an entry waits for it: without one, no entry
/// has a deadline.
pub proof fn law_idle_wheel_reports_nothing(wheel: WheelModel, now: Instant)
    requires
        wheel.wf(),
        wheel.reached(now),
        forall|id: usize| #[trigger]
            wheel.timers.contains_key(id) ==> wheel.timers[id].deadline is Never,
    ensures
        wheel.next_poll_at(now) is None,
{
    if wheel.occupied(Location::Immediate) {
        let id = wheel.queues[Location::Immediate][0];
        assert(wheel.timers.contains_key(id) && wheel.placed(wheel.timers[id]));
    }
    if let Some(boundary) = wheel.draining {
        let id = wheel.queues[boundary.location()][0];
        assert(wheel.timers.contains_key(id) && wheel.placed(wheel.timers[id]));
    }
    if let Some(boundary) = wheel.next_boundary() {
        assert(wheel.is_next_boundary(boundary));
        let id = wheel.queues[boundary.location()][0];
        assert(wheel.timers.contains_key(id) && wheel.placed(wheel.timers[id]));
    }
    if let Some(deadline) = wheel.first_overflow() {
        assert(wheel.is_first_overflow(deadline));
        let id = wheel.queues[Location::Overflow(deadline)][0];
        assert(wheel.timers.contains_key(id) && wheel.placed(wheel.timers[id]));
    }
}

/// Of the deadlines beyond the horizon, one is the earliest.
proof fn lemma_some_far_is_first(wheel: WheelModel, deadline: Instant)
    requires
        wheel.wf(),
        wheel.occupied(Location::Overflow(deadline)),
    ensures
        wheel.first_overflow() is Some,
{
    let first = lemma_earliest_far(wheel, deadline, wheel.timers.dom());
    assert(wheel.is_first_overflow(first)) by {
        assert forall|other: Instant| #[trigger]
            wheel.queues[Location::Overflow(other)].len() > 0 implies first.nanos <= other.nanos by {
            let id = wheel.queues[Location::Overflow(other)][0];
            assert(wheel.timers.contains_key(id));
            assert(wheel.timers.dom().contains(id));
        }
    }
}

/// While nothing is due, no deadline beyond the horizon has come within it.
pub proof fn law_earliest_far_deadline(wheel: WheelModel, deadline: Instant, now: Instant)
    requires
        wheel.wf(),
        wheel.reached(now),
        !wheel.has_due(now),
        wheel.occupied(Location::Overflow(deadline)),
    ensures
        now.nanos < ticks::promotion_instant(wheel.genesis, deadline).nanos,
{
    lemma_some_far_is_first(wheel, deadline);
    let first = wheel.first_overflow()->0;
    assert(wheel.is_first_overflow(first));
    assert(wheel.queues[Location::Overflow(deadline)].len() > 0);
    let id = wheel.queues[Location::Overflow(first)][0];
    assert(wheel.placed(wheel.timers[id]));
}

/// Of a deadline beyond the horizon and those of some entries, one is the earliest.
proof fn lemma_earliest_far(wheel: WheelModel, deadline: Instant, ids: Set<usize>) -> (first:
    Instant)
    requires
        wheel.wf(),
        wheel.occupied(Location::Overflow(deadline)),
        ids.finite(),
        ids.subset_of(wheel.timers.dom()),
    ensures
        wheel.occupied(Location::Overflow(first)),
        first.nanos <= deadline.nanos,
        forall|id: usize| #[trigger]
            ids.contains(id) && wheel.timers[id].location is Overflow ==> first.nanos
                <= wheel.timers[id].location->Overflow_0.nanos,
    decreases ids.len(),
{
    if ids.len() == 0 {
        assert(ids =~= Set::empty());
        deadline
    } else {
        let id = ids.choose();
        let first = lemma_earliest_far(wheel, deadline, ids.remove(id));
        assert(wheel.timers.contains_key(id));
        if wheel.timers[id].location is Overflow {
            let other = wheel.timers[id].location->Overflow_0;
            assert(wheel.queues[wheel.timers[id].location].contains(id));
            if other.nanos < first.nanos {
                other
            } else {
                first
            }
        } else {
            first
        }
    }
}

/// Removing an entry undoes its insertion.
pub proof fn law_remove_undoes_insert(
    wheel: WheelModel,
    id: usize,
    deadline: Deadline,
    value: u64,
    now: Instant,
)
    requires
        wheel.wf(),
        !wheel.timers.contains_key(id),
    ensures
        wheel.attach(id, deadline, value, wheel.classify(deadline, now)).detach(id) == wheel,
{
    let location = wheel.classify(deadline, now);
    let queue = wheel.queues[location];
    let longer = queue.push(id);
    assert forall|i: int| 0 <= i < queue.len() implies #[trigger] queue[i] != id by {
        assert(wheel.timers.contains_key(wheel.queues[location][i]));
    }
    assert(longer.contains(id)) by {
        assert(longer[queue.len() as int] == id);
    }
    assert(longer.index_of(id) == queue.len());
    assert(model::without(longer, id) =~= queue);
    let back = wheel.attach(id, deadline, value, location).detach(id);
    assert(back.timers =~= wheel.timers);
    assert(back.queues =~= wheel.queues) by {
        assert(wheel.queues.contains_key(location));
    }
    if let Some(boundary) = wheel.draining {
        assert(wheel.occupied(boundary.location()));
    }
}

/// A slot that is being drained stays selected until it is empty, whatever entries are stepped
/// on, added or removed.
pub proof fn law_selected_slot_stays_selected(wheel: WheelModel, now: Instant, id: usize)
    requires
        wheel.wf(),
        wheel.draining is Some,
    ensures
        ({
            let boundary = wheel.draining->0;
            let next = wheel.step_non_immediate(now).0;
            &&& next.position == wheel.position
            &&& next.draining == wheel.draining || next.draining is None && next.queues[
                boundary.location()].len() == 0
            &&& wheel.detach(id).draining == wheel.draining || wheel.detach(id).draining is None
                && wheel.detach(id).queues[boundary.location()].len() == 0
        }),
        forall|deadline: Deadline, value: u64, location: Location| #[trigger]
            wheel.attach(id, deadline, value, location).draining == wheel.draining,
{
    let boundary = wheel.draining->0;
    let first = wheel.queues[boundary.location()][0];
    let (next, step) = wheel.step_draining(now);
    if boundary.level != 0 && !wheel.timers[first].deadline.elapsed(now) {
        assert(wheel.timers.contains_key(first));
        wheel.lemma_entry_start(first, boundary.level, boundary.slot);
        let tick = wheel.ceil(wheel.timers[first].deadline->At_0)->0;
        geometry::lemma_descends(wheel.position, boundary.level as int, tick);
        geometry::lemma_placement(wheel.position, tick);
        assert(next == wheel.relocate(first, now));
    }
}

/// No occupied slot starts before the one that is being drained.
pub proof fn law_drained_slot_starts_first(wheel: WheelModel, level: usize, slot: usize)
    requires
        wheel.wf(),
        wheel.draining is Some,
        level < LEVELS,
        slot < SLOTS,
        wheel.occupied(Location::Wheel { level, slot }),
    ensures
        wheel.draining->0.tick <= geometry::occurrence(
            wheel.position,
            level as int,
            slot as int,
        ),
{
    wheel.lemma_slot_start(level, slot);
}

// Bounded work.

/// How many steps an entry can still take: one for each tier that it can descend, and one to
/// fire.
pub open spec fn entry_work(entry: Entry) -> nat {
    (model::tier(entry.location) + 1) as nat
}

/// How many steps the entries can still take.
pub open spec fn work(timers: Map<usize, Entry>) -> nat
    decreases timers.dom().len(),
    when timers.dom().finite()
{
    if timers.dom().len() == 0 {
        0
    } else {
        let id = timers.dom().choose();
        entry_work(timers[id]) + work(timers.remove(id))
    }
}

/// Any entry's share can be taken out of the sum.
pub proof fn lemma_work_remove(timers: Map<usize, Entry>, id: usize)
    requires
        timers.dom().finite(),
        timers.contains_key(id),
    ensures
        work(timers) == entry_work(timers[id]) + work(timers.remove(id)),
    decreases timers.dom().len(),
{
    let chosen = timers.dom().choose();
    if timers.dom().len() == 0 {
        assert(timers.dom() =~= Set::empty());
    }
    assert(timers.dom().contains(chosen));
    if chosen != id {
        assert(timers.remove(chosen).dom() =~= timers.dom().remove(chosen));
        assert(timers.remove(id).dom() =~= timers.dom().remove(id));
        lemma_work_remove(timers.remove(chosen), id);
        lemma_work_remove(timers.remove(id), chosen);
        assert(timers.remove(chosen).remove(id) =~= timers.remove(id).remove(chosen));
    }
}

/// Each entry takes at most seven steps: one for each level, one from beyond the horizon.
pub proof fn law_work_is_bounded(wheel: WheelModel)
    requires
        wheel.wf(),
    ensures
        work(wheel.timers) <= (LEVELS + 1) * wheel.timers.dom().len(),
{
    assert forall|id: usize| #[trigger] wheel.timers.contains_key(id) implies entry_work(
        wheel.timers[id],
    ) <= LEVELS + 1 by {
        assert(wheel.placed(wheel.timers[id]));
    }
    lemma_work_bound(wheel.timers);
}

/// The sum of bounded shares is bounded.
proof fn lemma_work_bound(timers: Map<usize, Entry>)
    requires
        timers.dom().finite(),
        forall|id: usize| #[trigger]
            timers.contains_key(id) ==> entry_work(timers[id]) <= LEVELS + 1,
    ensures
        work(timers) <= (LEVELS + 1) * timers.dom().len(),
    decreases timers.dom().len(),
{
    if timers.dom().len() > 0 {
        let id = timers.dom().choose();
        assert(timers.dom().contains(id));
        assert(timers.contains_key(id));
        assert(timers.remove(id).dom() =~= timers.dom().remove(id));
        lemma_work_bound(timers.remove(id));
    }
}

/// A step that only examines an entry leaves less to do.
pub proof fn lemma_examined_lowers_work(wheel: WheelModel, next: WheelModel)
    requires
        wheel.wf(),
        wheel.lowers_one(next),
        next.wf(),
    ensures
        work(next.timers) < work(wheel.timers),
{
    let id = choose|id: usize| #[trigger]
        wheel.timers.contains_key(id) && model::tier(next.timers[id].location) < model::tier(
            wheel.timers[id].location,
        ) && next.timers == wheel.timers.insert(
            id,
            Entry { location: next.timers[id].location, ..wheel.timers[id] },
        );
    assert(next.timers.contains_key(id));
    assert(next.placed(next.timers[id]));
    assert(wheel.placed(wheel.timers[id]));
    lemma_work_remove(wheel.timers, id);
    lemma_work_remove(next.timers, id);
    assert(next.timers.remove(id) =~= wheel.timers.remove(id));
}

/// Firing an entry leaves less to do.
pub proof fn lemma_fire_lowers_work(wheel: WheelModel, id: usize)
    requires
        wheel.wf(),
        wheel.timers.contains_key(id),
    ensures
        work(wheel.detach(id).timers) < work(wheel.timers),
{
    assert(wheel.placed(wheel.timers[id]));
    lemma_work_remove(wheel.timers, id);
}

/// While something is due, a step does something.
pub proof fn law_due_work_is_done(wheel: WheelModel, now: Instant)
    requires
        wheel.wf(),
        wheel.reached(now),
    ensures
        wheel.has_due(now) <==> wheel.step_immediate() is Some || wheel.step_non_immediate(
            now,
        ).1 is Some,
{
}

} // verus!
