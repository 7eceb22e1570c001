//! What a timing wheel is, apart from how it is stored.

use vstd::prelude::*;

use crate::time::deadline::Deadline;
use crate::time::entries::Location;
use crate::time::geometry;
use crate::time::geometry::{HORIZON, LEVELS, SLOTS};
use crate::time::instant::Instant;
use crate::time::ticks;

verus! {

/// The start of a slot occurrence that the wheel has selected for draining.
#[derive(Clone, Copy, Debug, PartialEq, Eq, Structural)]
pub struct WheelBoundary {
    /// The first tick of the occurrence.
    pub tick: u64,
    /// The level of the slot.
    pub level: usize,
    /// The slot within its level.
    pub slot: usize,
}

/// One unit of timer work.
#[derive(Clone, Copy, Debug, PartialEq, Eq, Structural)]
pub enum Step {
    /// One entry moved to a lower tier without becoming ready.
    Examined,
    /// This entry is ready to be removed and fired.
    Fire(usize),
}

/// What the wheel knows of one entry.
pub struct Entry {
    /// When the entry is due.
    pub deadline: Deadline,
    /// What the entry stands for.
    pub value: u64,
    /// The queue that holds the entry.
    pub location: Location,
}

/// The state of a timing wheel.
#[verifier::ext_equal]
pub struct WheelModel {
    /// The instant at which tick 0 starts.
    pub genesis: Instant,
    /// The tick up to which the wheel has advanced.
    pub position: int,
    /// The slot that is being drained.
    pub draining: Option<WheelBoundary>,
    /// The entries by id.
    pub timers: Map<usize, Entry>,
    /// The entry ids at each location, in the order in which they will be taken.
    pub queues: Map<Location, Seq<usize>>,
}

/// Whether `slot` is set in an occupancy word.
pub open spec fn bit(bits: u64, slot: int) -> bool {
    (bits >> (slot as u64)) & 1u64 == 1u64
}

/// Whether the wheel has such a location.
pub open spec fn valid_location(location: Location) -> bool {
    location matches Location::Wheel { level, slot } ==> level < LEVELS && slot < SLOTS
}

/// A queue without one of its elements.
pub open spec fn without(queue: Seq<usize>, id: usize) -> Seq<usize> {
    queue.remove(queue.index_of(id))
}

impl WheelBoundary {
    /// The slot of this boundary.
    pub open spec fn location(self) -> Location {
        Location::Wheel { level: self.level, slot: self.slot }
    }
}

impl WheelModel {
    /// A wheel without entries.
    pub open spec fn empty(genesis: Instant) -> WheelModel {
        WheelModel {
            genesis,
            position: 0,
            draining: None,
            timers: Map::empty(),
            queues: Map::total(|location: Location| Seq::empty()),
        }
    }

    /// Whether the location holds entries.
    pub open spec fn occupied(self, location: Location) -> bool {
        self.queues[location].len() > 0
    }

    /// The last tick that the clock has reached.
    pub open spec fn floor(self, now: Instant) -> int {
        ticks::floor_tick(self.genesis, now)
    }

    /// The tick that a deadline is rounded up to.
    pub open spec fn ceil(self, deadline: Instant) -> Option<int> {
        ticks::ceil_tick(self.genesis, deadline)
    }

    /// Where an entry with this deadline belongs.
    pub open spec fn classify(self, deadline: Deadline, now: Instant) -> Location {
        match deadline {
            Deadline::Never => Location::Never,
            Deadline::At(instant) => if instant.nanos <= now.nanos {
                Location::Immediate
            } else {
                match self.ceil(instant) {
                    None => Location::Overflow(instant),
                    Some(tick) => if tick < self.position {
                        Location::Immediate
                    } else if tick - self.position >= HORIZON {
                        Location::Overflow(instant)
                    } else {
                        let level = geometry::level_of(tick - self.position);
                        Location::Wheel {
                            level: level as usize,
                            slot: geometry::slot_of(tick, level) as usize,
                        }
                    },
                }
            },
        }
    }

    /// The wheel with one more entry, at the back of its queue.
    pub open spec fn attach(
        self,
        id: usize,
        deadline: Deadline,
        value: u64,
        location: Location,
    ) -> WheelModel {
        WheelModel {
            timers: self.timers.insert(id, Entry { deadline, value, location }),
            queues: self.queues.insert(location, self.queues[location].push(id)),
            ..self
        }
    }

    /// The wheel without one of its entries. A drained slot that this empties is drained no
    /// longer.
    pub open spec fn detach(self, id: usize) -> WheelModel {
        let location = self.timers[id].location;
        let rest = without(self.queues[location], id);
        WheelModel {
            timers: self.timers.remove(id),
            queues: self.queues.insert(location, rest),
            draining: match self.draining {
                Some(boundary) => if rest.len() == 0 && boundary.location() == location {
                    None
                } else {
                    Some(boundary)
                },
                None => None,
            },
            ..self
        }
    }

    /// The wheel after an entry has been classified anew and moved to the back of the queue in
    /// which it now belongs.
    pub open spec fn relocate(self, id: usize, now: Instant) -> WheelModel {
        let entry = self.timers[id];
        self.detach(id).attach(
            id,
            entry.deadline,
            entry.value,
            self.classify(entry.deadline, now),
        )
    }

    /// Whether `boundary` stands for an occupied slot and the tick at which it starts next.
    pub open spec fn is_boundary(self, boundary: WheelBoundary) -> bool {
        &&& boundary.level < LEVELS
        &&& boundary.slot < SLOTS
        &&& self.occupied(boundary.location())
        &&& boundary.tick == geometry::occurrence(
            self.position,
            boundary.level as int,
            boundary.slot as int,
        )
    }

    /// Whether `boundary` comes before a slot, or is that slot: it starts earlier, or at the same
    /// tick and in a lower level.
    pub open spec fn not_after(self, boundary: WheelBoundary, level: usize, slot: usize) -> bool {
        let start = geometry::occurrence(self.position, level as int, slot as int);
        ||| boundary.tick < start
        ||| boundary.tick == start && (boundary.level < level || boundary.level == level
            && boundary.slot == slot)
    }

    /// Whether `boundary` is the occupied slot that starts first; of slots that start at the
    /// same tick, the one of the lowest level.
    pub open spec fn is_next_boundary(self, boundary: WheelBoundary) -> bool {
        &&& self.is_boundary(boundary)
        &&& forall|level: usize, slot: usize|
            #![trigger self.queues[Location::Wheel { level, slot }]]
            level < LEVELS && slot < SLOTS && self.occupied(Location::Wheel { level, slot })
                ==> self.not_after(boundary, level, slot)
    }

    /// The occupied slot that starts first.
    pub open spec fn next_boundary(self) -> Option<WheelBoundary> {
        if exists|boundary: WheelBoundary| self.is_next_boundary(boundary) {
            Some(choose|boundary: WheelBoundary| self.is_next_boundary(boundary))
        } else {
            None
        }
    }

    /// Whether `deadline` is the earliest one beyond the horizon.
    pub open spec fn is_first_overflow(self, deadline: Instant) -> bool {
        &&& self.occupied(Location::Overflow(deadline))
        &&& forall|other: Instant| #[trigger]
            self.queues[Location::Overflow(other)].len() > 0 ==> deadline.nanos <= other.nanos
    }

    /// The earliest deadline beyond the horizon.
    pub open spec fn first_overflow(self) -> Option<Instant> {
        if exists|deadline: Instant| self.is_first_overflow(deadline) {
            Some(choose|deadline: Instant| self.is_first_overflow(deadline))
        } else {
            None
        }
    }

    /// Whether a deadline beyond the horizon can be promoted or fired.
    pub open spec fn overflow_ready(self, deadline: Instant, now: Instant) -> bool {
        ticks::promotion_instant(self.genesis, deadline).nanos <= now.nanos
    }

    /// Whether a slot starts at a tick that the clock has reached.
    pub open spec fn wheel_ready(self, now: Instant) -> bool {
        self.next_boundary() matches Some(boundary) && boundary.tick <= self.floor(now)
    }

    /// Whether the earliest deadline beyond the horizon can be promoted or fired.
    pub open spec fn far_ready(self, now: Instant) -> bool {
        self.first_overflow() matches Some(deadline) && self.overflow_ready(deadline, now)
    }

    /// Whether a step would do something.
    pub open spec fn has_due(self, now: Instant) -> bool {
        ||| self.occupied(Location::Immediate)
        ||| self.draining is Some
        ||| self.wheel_ready(now)
        ||| self.far_ready(now)
    }

    /// The wheel at another position.
    pub open spec fn advance(self, position: int) -> WheelModel {
        WheelModel { position, ..self }
    }

    /// The wheel at the start of a slot that it now drains.
    pub open spec fn select(self, boundary: WheelBoundary) -> WheelModel {
        WheelModel { position: boundary.tick as int, draining: Some(boundary), ..self }
    }

    /// One step on the entries that were due when they were classified.
    pub open spec fn step_immediate(self) -> Option<Step> {
        if self.occupied(Location::Immediate) {
            Some(Step::Fire(self.queues[Location::Immediate][0]))
        } else {
            None
        }
    }

    /// One step on the slot that is being drained: its first entry is ready, or it moves to a
    /// lower level.
    pub open spec fn step_draining(self, now: Instant) -> (WheelModel, Step) {
        let boundary = self.draining->0;
        let id = self.queues[boundary.location()][0];
        if boundary.level == 0 || self.timers[id].deadline.elapsed(now) {
            (self, Step::Fire(id))
        } else {
            (self.relocate(id, now), Step::Examined)
        }
    }

    /// One step on every other entry: the slot that is being drained comes first, then the slot
    /// that starts first, then the earliest deadline beyond the horizon.
    pub open spec fn step_non_immediate(self, now: Instant) -> (WheelModel, Option<Step>) {
        if self.draining is Some {
            let (next, step) = self.step_draining(now);
            (next, Some(step))
        } else if self.wheel_ready(now) {
            let (next, step) = self.select(self.next_boundary()->0).step_draining(now);
            (next, Some(step))
        } else if self.far_ready(now) {
            let deadline = self.first_overflow()->0;
            let id = self.queues[Location::Overflow(deadline)][0];
            if deadline.nanos <= now.nanos {
                (self, Some(Step::Fire(id)))
            } else {
                (self.advance(self.floor(now)).relocate(id, now), Some(Step::Examined))
            }
        } else {
            (self.advance(self.floor(now)), None)
        }
    }

    /// The instant at which the wheel next has to be looked at.
    pub open spec fn next_poll_at(self, now: Instant) -> Option<Instant> {
        if self.has_due(now) {
            Some(now)
        } else {
            let wheel = match self.next_boundary() {
                Some(boundary) => ticks::instant_for_tick(self.genesis, boundary.tick as int),
                None => None,
            };
            let overflow = match self.first_overflow() {
                Some(deadline) => Some(ticks::promotion_instant(self.genesis, deadline)),
                None => None,
            };
            match (wheel, overflow) {
                (Some(a), Some(b)) => Some(if a.nanos <= b.nanos { a } else { b }),
                (Some(a), None) => Some(a),
                (None, b) => b,
            }
        }
    }

    /// Whether `ids` are the ids of the entries, in increasing order.
    pub open spec fn lists_ids(self, ids: Seq<usize>) -> bool {
        &&& forall|i: int, j: int| 0 <= i < j < ids.len() ==> ids[i] < ids[j]
        &&& forall|i: int| 0 <= i < ids.len() ==> self.timers.contains_key(#[trigger] ids[i])
        &&& forall|id: usize| #[trigger] self.timers.contains_key(id) ==> ids.contains(id)
    }

    /// Whether `values` are the values of the entries, in the order of their ids.
    pub open spec fn is_drain(self, values: Seq<u64>) -> bool {
        exists|ids: Seq<usize>| #[trigger]
            self.lists_ids(ids) && values == ids.map_values(|id: usize| self.timers[id].value)
    }

    /// Whether an entry lies where its deadline belongs.
    pub open spec fn placed(self, entry: Entry) -> bool {
        match entry.location {
            Location::Immediate => entry.deadline is At,
            Location::Never => entry.deadline is Never,
            Location::Overflow(instant) => {
                &&& entry.deadline == Deadline::At(instant)
                &&& self.genesis.nanos < instant.nanos
            },
            Location::Wheel { level, slot } => {
                &&& level < LEVELS
                &&& slot < SLOTS
                &&& entry.deadline is At
                &&& self.ceil(entry.deadline->At_0) matches Some(tick) && {
                    &&& slot == geometry::slot_of(tick, level as int)
                    &&& geometry::in_revolution(self.position, level as int, tick)
                }
            },
        }
    }

    /// Whether the queues hold exactly the entries, each one once and where it says.
    pub open spec fn queued(self) -> bool {
        &&& forall|location: Location| #[trigger] self.queues.contains_key(location)
        &&& forall|location: Location|
            #![trigger self.queues[location]]
            self.queues[location].no_duplicates() && (!valid_location(location)
                ==> self.queues[location].len() == 0)
        &&& forall|location: Location, i: int|
            #![trigger self.queues[location][i]]
            0 <= i < self.queues[location].len() ==> {
                &&& self.timers.contains_key(self.queues[location][i])
                &&& self.timers[self.queues[location][i]].location == location
            }
        &&& forall|id: usize| #[trigger]
            self.timers.contains_key(id) ==> self.queues[self.timers[id].location].contains(id)
    }

    /// The invariant of a timing wheel.
    pub open spec fn wf(self) -> bool {
        &&& 0 <= self.position <= u64::MAX
        &&& self.timers.dom().finite()
        &&& self.queued()
        &&& forall|id: usize| #[trigger]
            self.timers.contains_key(id) ==> self.placed(self.timers[id])
        &&& self.draining matches Some(boundary) ==> {
            &&& boundary.level < LEVELS
            &&& boundary.slot < SLOTS
            &&& boundary.tick == self.position
            &&& self.occupied(boundary.location())
            &&& self.position == geometry::occurrence(
                self.position,
                boundary.level as int,
                boundary.slot as int,
            )
        }
    }

    /// Whether `found` is the first of the occupied slots in lower levels than `level`, and of
    /// those of `level` whose bit is clear in `bits`.
    pub open spec fn is_first_seen(
        self,
        found: Option<WheelBoundary>,
        level: usize,
        bits: u64,
    ) -> bool {
        &&& found matches Some(boundary) ==> self.is_boundary(boundary) && boundary.level <= level
        &&& forall|l: usize, slot: usize|
            #![trigger self.queues[Location::Wheel { level: l, slot }]]
            l < LEVELS && slot < SLOTS && self.occupied(Location::Wheel { level: l, slot }) && (l
                < level || l == level && !bit(bits, slot as int))
                ==> (found matches Some(boundary) && self.not_after(boundary, l, slot))
    }

    /// Whether the clock may read `now`: the wheel has not advanced past it, and what the wheel
    /// counts as due has come.
    pub open spec fn reached(self, now: Instant) -> bool {
        &&& self.genesis.nanos <= now.nanos
        &&& self.position <= self.floor(now)
        &&& forall|id: usize| #[trigger]
            self.timers.contains_key(id) && self.timers[id].location is Immediate
                ==> self.timers[id].deadline.elapsed(now)
    }
}

// Lemmas on slots and boundaries.

impl WheelModel {
    /// The slot of a wheel entry starts at the slot's next occurrence, no later than the tick
    /// that the entry's deadline was rounded up to.
    pub proof fn lemma_entry_start(self, id: usize, level: usize, slot: usize)
        requires
            self.wf(),
            self.timers.contains_key(id),
            self.timers[id].location == (Location::Wheel { level, slot }),
        ensures
            level < LEVELS,
            slot < SLOTS,
            self.timers[id].deadline is At,
            self.ceil(self.timers[id].deadline->At_0) matches Some(tick) && {
                let start = geometry::occurrence(self.position, level as int, slot as int);
                &&& start == geometry::slot_start(tick, level as int)
                &&& self.position <= start <= tick <= u64::MAX
                &&& tick < start + geometry::width(level as int)
            },
    {
        assert(self.placed(self.timers[id]));
        let tick = self.ceil(self.timers[id].deadline->At_0)->0;
        geometry::lemma_occurrence(self.position, level as int, tick);
    }

    /// An occupied slot starts at a tick.
    pub proof fn lemma_slot_start(self, level: usize, slot: usize)
        requires
            self.wf(),
            level < LEVELS,
            slot < SLOTS,
            self.occupied(Location::Wheel { level, slot }),
        ensures
            self.position <= geometry::occurrence(self.position, level as int, slot as int)
                <= u64::MAX,
    {
        let id = self.queues[Location::Wheel { level, slot }][0];
        self.lemma_entry_start(id, level, slot);
    }

    /// There is at most one first slot.
    pub proof fn lemma_next_boundary(self, boundary: WheelBoundary)
        requires
            self.is_next_boundary(boundary),
        ensures
            self.next_boundary() == Some(boundary),
    {
        let chosen = self.next_boundary()->0;
        assert(self.is_next_boundary(chosen));
        assert(self.not_after(boundary, chosen.level, chosen.slot));
        assert(self.not_after(chosen, boundary.level, boundary.slot));
    }

    /// There is at most one earliest deadline beyond the horizon.
    pub proof fn lemma_first_overflow(self, deadline: Instant)
        requires
            self.is_first_overflow(deadline),
        ensures
            self.first_overflow() == Some(deadline),
    {
        let chosen = self.first_overflow()->0;
        assert(self.is_first_overflow(chosen));
        assert(self.queues[Location::Overflow(deadline)].len() > 0);
        assert(self.queues[Location::Overflow(chosen)].len() > 0);
    }
}

// What every operation keeps.

impl WheelModel {
    /// Classification puts an entry where its deadline belongs.
    pub proof fn lemma_classify(self, deadline: Deadline, value: u64, now: Instant)
        requires
            0 <= self.position,
        ensures
            valid_location(self.classify(deadline, now)),
            self.placed(Entry { deadline, value, location: self.classify(deadline, now) }),
    {
        if let Deadline::At(instant) = deadline {
            if let Some(tick) = self.ceil(instant) {
                if self.position <= tick < self.position + HORIZON {
                    geometry::lemma_placement(self.position, tick);
                }
            }
        }
    }

    /// A new entry where its deadline belongs keeps the invariant.
    pub proof fn lemma_attach(self, id: usize, deadline: Deadline, value: u64, location: Location)
        requires
            self.wf(),
            !self.timers.contains_key(id),
            valid_location(location),
            self.placed(Entry { deadline, value, location }),
        ensures
            self.attach(id, deadline, value, location).wf(),
    {
        let after = self.attach(id, deadline, value, location);
        let queue = self.queues[location];
        assert forall|i: int| 0 <= i < queue.len() implies #[trigger] queue[i] != id by {
            assert(self.timers.contains_key(self.queues[location][i]));
        }
        assert forall|place: Location, i: int|
            #![trigger after.queues[place][i]]
            0 <= i < after.queues[place].len() implies after.timers.contains_key(
            after.queues[place][i],
        ) && after.timers[after.queues[place][i]].location == place by {
            if place != location || i < queue.len() {
                assert(after.queues[place][i] == self.queues[place][i]);
            }
        }
        assert forall|other: usize| #[trigger] after.timers.contains_key(other) implies
            after.queues[after.timers[other].location].contains(other) by {
            if other == id {
                assert(queue.push(id).last() == id);
            } else {
                let place = self.timers[other].location;
                let i = self.queues[place].index_of(other);
                assert(self.queues[place].contains(other));
                assert(after.queues[place][i] == other);
            }
        }
        assert forall|other: usize| #[trigger] after.timers.contains_key(other) implies
            after.placed(after.timers[other]) by {
            if other != id {
                assert(self.placed(self.timers[other]));
            }
        }
        if let Some(boundary) = self.draining {
            let _ = self.queues[boundary.location()];
        }
    }

    /// A new entry that counts as due has come.
    pub proof fn lemma_attach_reached(
        self,
        id: usize,
        deadline: Deadline,
        value: u64,
        now: Instant,
    )
        requires
            self.wf(),
            self.reached(now),
        ensures
            self.attach(id, deadline, value, self.classify(deadline, now)).reached(now),
    {
        let location = self.classify(deadline, now);
        if location is Immediate && !deadline.elapsed(now) {
            ticks::lemma_pending_tick_is_ahead(self.genesis, deadline->At_0, now);
        }
        let after = self.attach(id, deadline, value, location);
        assert forall|other: usize| #[trigger] after.timers.contains_key(other)
            && after.timers[other].location is Immediate implies after.timers[other].deadline.elapsed(
            now,
        ) by {
            if other != id {
                assert(self.timers.contains_key(other));
            }
        }
    }

    /// What counts as due at one clock reading counts as due at a later one.
    pub proof fn lemma_reached_later(self, earlier: Instant, later: Instant)
        requires
            self.reached(earlier),
            earlier.nanos <= later.nanos,
        ensures
            self.reached(later),
    {
        ticks::lemma_floor_is_monotone(self.genesis, earlier, later);
    }

    /// The entries that stay keep the invariant when one is taken out.
    pub proof fn lemma_detach(self, id: usize)
        requires
            self.wf(),
            self.timers.contains_key(id),
        ensures
            self.detach(id).wf(),
            valid_location(self.timers[id].location),
            self.queues[self.timers[id].location].contains(id),
    {
        let after = self.detach(id);
        let location = self.timers[id].location;
        let queue = self.queues[location];
        let rest = without(queue, id);
        let at = queue.index_of(id);
        assert(queue.contains(id));
        assert forall|i: int| 0 <= i < rest.len() implies #[trigger] rest[i] == queue[if i < at {
            i
        } else {
            i + 1
        }] && rest[i] != id by {}
        assert forall|place: Location, i: int|
            #![trigger after.queues[place][i]]
            0 <= i < after.queues[place].len() implies after.timers.contains_key(
            after.queues[place][i],
        ) && after.timers[after.queues[place][i]].location == place by {
            if place == location {
                assert(rest[i] == self.queues[place][if i < at {
                    i
                } else {
                    i + 1
                }]);
            } else {
                assert(after.queues[place][i] == self.queues[place][i]);
            }
        }
        assert forall|other: usize| #[trigger] after.timers.contains_key(other) implies
            after.queues[after.timers[other].location].contains(other) by {
            let place = self.timers[other].location;
            let i = self.queues[place].index_of(other);
            assert(self.queues[place].contains(other));
            if place == location {
                assert(rest[if i < at {
                    i
                } else {
                    i - 1
                }] == other);
            } else {
                assert(after.queues[place][i] == other);
            }
        }
        assert forall|other: usize| #[trigger] after.timers.contains_key(other) implies
            after.placed(after.timers[other]) by {
            assert(self.placed(self.timers[other]));
        }
        assert(rest.no_duplicates());
        if let Some(boundary) = after.draining {
            let _ = self.queues[boundary.location()];
        }
    }

    /// Moving an entry to where its deadline belongs now keeps the invariant.
    pub proof fn lemma_relocate(self, id: usize, now: Instant)
        requires
            self.wf(),
            self.timers.contains_key(id),
        ensures
            self.relocate(id, now).wf(),
            valid_location(self.classify(self.timers[id].deadline, now)),
            self.detach(id).classify(self.timers[id].deadline, now) == self.classify(
                self.timers[id].deadline,
                now,
            ),
    {
        let entry = self.timers[id];
        self.lemma_detach(id);
        self.lemma_classify(entry.deadline, entry.value, now);
        self.detach(id).lemma_attach(
            id,
            entry.deadline,
            entry.value,
            self.classify(entry.deadline, now),
        );
    }

    /// While no slot is being drained, the wheel can advance up to the first occupied slot.
    pub proof fn lemma_advance(self, position: int)
        requires
            self.wf(),
            self.draining is None,
            self.position <= position <= u64::MAX,
            self.next_boundary() matches Some(boundary) ==> position <= boundary.tick,
        ensures
            self.advance(position).wf(),
    {
        let after = self.advance(position);
        assert forall|id: usize| #[trigger] after.timers.contains_key(id) implies after.placed(
            after.timers[id],
        ) by {
            assert(self.placed(self.timers[id]));
            if let Location::Wheel { level, slot } = self.timers[id].location {
                self.lemma_entry_start(id, level, slot);
                self.lemma_first_slot(level, slot);
            }
        }
        assert forall|location: Location, i: int|
            #![trigger after.queues[location][i]]
            0 <= i < after.queues[location].len() implies after.timers.contains_key(
            after.queues[location][i],
        ) && after.timers[after.queues[location][i]].location == location by {
            assert(after.queues[location][i] == self.queues[location][i]);
        }
    }

    /// An occupied slot does not start before the first one.
    pub proof fn lemma_first_slot(self, level: usize, slot: usize)
        requires
            self.wf(),
            level < LEVELS,
            slot < SLOTS,
            self.occupied(Location::Wheel { level, slot }),
        ensures
            self.next_boundary() matches Some(boundary) && self.is_next_boundary(boundary)
                && boundary.tick <= geometry::occurrence(
                self.position,
                level as int,
                slot as int,
            ),
    {
        let found = self.lemma_scan(384);
        let boundary = found->0;
        let _ = self.queues[Location::Wheel { level, slot }];
        assert(self.is_next_boundary(boundary));
        self.lemma_next_boundary(boundary);
    }

    /// Of the occupied slots among the first `count` ones, one starts first.
    proof fn lemma_scan(self, count: int) -> (found: Option<WheelBoundary>)
        requires
            self.wf(),
            0 <= count <= 384,
        ensures
            found matches Some(boundary) ==> self.is_boundary(boundary) && boundary.level * 64
                + boundary.slot < count,
            forall|level: usize, slot: usize|
                #![trigger self.queues[Location::Wheel { level, slot }]]
                level < LEVELS && slot < SLOTS && level * 64 + slot < count && self.occupied(
                    Location::Wheel { level, slot },
                ) ==> (found matches Some(boundary) && self.not_after(boundary, level, slot)),
        decreases count,
    {
        if count == 0 {
            None
        } else {
            let before = self.lemma_scan(count - 1);
            let level = ((count - 1) / 64) as usize;
            let slot = ((count - 1) % 64) as usize;
            if self.occupied(Location::Wheel { level, slot }) {
                self.lemma_slot_start(level, slot);
                let tick = geometry::occurrence(self.position, level as int, slot as int) as u64;
                if let Some(boundary) = before {
                    if boundary.level == level && boundary.tick == tick {
                        geometry::lemma_occurrence_is_injective(
                            self.position,
                            level as int,
                            slot as int,
                            boundary.slot as int,
                        );
                    }
                    if boundary.tick <= tick {
                        before
                    } else {
                        Some(WheelBoundary { tick, level, slot })
                    }
                } else {
                    Some(WheelBoundary { tick, level, slot })
                }
            } else {
                before
            }
        }
    }
}

// Steps.

/// How far an entry at this location is from being ready: a step that only examines an entry
/// brings it to a lower tier.
pub open spec fn tier(location: Location) -> int {
    match location {
        Location::Immediate => 0,
        Location::Wheel { level, slot } => level as int,
        Location::Overflow(_) => LEVELS as int,
        Location::Never => LEVELS as int,
    }
}

impl WheelModel {
    /// Whether `next` differs from this wheel in one entry, which lies in a lower tier there.
    pub open spec fn lowers_one(self, next: WheelModel) -> bool {
        &&& next.timers.dom() == self.timers.dom()
        &&& exists|id: usize| #[trigger]
            self.timers.contains_key(id) && tier(next.timers[id].location) < tier(
                self.timers[id].location,
            ) && next.timers == self.timers.insert(
                id,
                Entry { location: next.timers[id].location, ..self.timers[id] },
            )
    }

    /// Selecting the first occupied slot keeps the invariant.
    pub proof fn lemma_select(self, boundary: WheelBoundary)
        requires
            self.wf(),
            self.draining is None,
            self.next_boundary() == Some(boundary),
        ensures
            self.select(boundary).wf(),
    {
        assert(self.is_next_boundary(boundary));
        let after = self.advance(boundary.tick as int);
        let id = self.queues[boundary.location()][0];
        self.lemma_slot_start(boundary.level, boundary.slot);
        self.lemma_advance(boundary.tick as int);
        self.lemma_entry_start(id, boundary.level, boundary.slot);
        after.lemma_entry_start(id, boundary.level, boundary.slot);
        let selected = self.select(boundary);
        assert forall|id: usize| #[trigger] selected.timers.contains_key(id) implies selected.placed(
            selected.timers[id],
        ) by {
            assert(after.placed(after.timers[id]));
        }
        assert forall|location: Location, i: int|
            #![trigger selected.queues[location][i]]
            0 <= i < selected.queues[location].len() implies selected.timers.contains_key(
            selected.queues[location][i],
        ) && selected.timers[selected.queues[location][i]].location == location by {
            assert(selected.queues[location][i] == self.queues[location][i]);
        }
    }

    /// A step on the drained slot keeps the invariant, fires only what is due, and otherwise
    /// moves one entry to a lower level.
    pub proof fn lemma_step_draining(self, now: Instant)
        requires
            self.wf(),
            self.reached(now),
            self.draining is Some,
        ensures
            ({
                let (next, step) = self.step_draining(now);
                let id = self.queues[self.draining->0.location()][0];
                &&& self.timers.contains_key(id)
                &&& self.timers[id].location == self.draining->0.location()
                &&& next.wf()
                &&& next.reached(now)
                &&& next.position == self.position
                &&& match step {
                    Step::Fire(fired) => {
                        &&& fired == id
                        &&& next == self
                        &&& self.timers[fired].deadline.elapsed(now)
                    },
                    Step::Examined => {
                        &&& next == self.relocate(id, now)
                        &&& self.lowers_one(next)
                    },
                }
            }),
    {
        let boundary = self.draining->0;
        let id = self.queues[boundary.location()][0];
        self.lemma_entry_start(id, boundary.level, boundary.slot);
        let deadline = self.timers[id].deadline->At_0;
        let tick = self.ceil(deadline)->0;
        if boundary.level == 0 {
            ticks::lemma_reached_tick_is_due(self.genesis, deadline, now);
        } else if !self.timers[id].deadline.elapsed(now) {
            geometry::lemma_descends(self.position, boundary.level as int, tick);
            self.lemma_relocate(id, now);
            let next = self.relocate(id, now);
            assert(next.timers =~= self.timers.insert(
                id,
                Entry { location: next.timers[id].location, ..self.timers[id] },
            ));
            assert(next.timers.dom() =~= self.timers.dom());
            geometry::lemma_placement(self.position, tick);
            assert(self.lowers_one(next));
        }
    }

    /// A step keeps the invariant, fires only what is due, and otherwise moves one entry to a
    /// lower tier; without either, nothing is left to do.
    pub proof fn lemma_step_non_immediate(self, now: Instant)
        requires
            self.wf(),
            self.reached(now),
        ensures
            ({
                let (next, step) = self.step_non_immediate(now);
                &&& next.wf()
                &&& next.reached(now)
                &&& self.position <= next.position
                &&& match step {
                    Some(Step::Fire(id)) => {
                        &&& self.timers.contains_key(id)
                        &&& self.timers[id].deadline.elapsed(now)
                        &&& next.timers == self.timers
                        &&& next.queues == self.queues
                        &&& !(self.timers[id].location is Immediate)
                    },
                    Some(Step::Examined) => self.lowers_one(next),
                    None => {
                        &&& next == self.advance(self.floor(now))
                        &&& !next.wheel_ready(now)
                        &&& !next.far_ready(now)
                        &&& next.draining is None
                    },
                }
            }),
    {
        if self.draining is Some {
            self.lemma_step_draining(now);
        } else if self.wheel_ready(now) {
            let boundary = self.next_boundary()->0;
            assert(self.is_next_boundary(boundary));
            self.lemma_slot_start(boundary.level, boundary.slot);
            self.lemma_select(boundary);
            self.select(boundary).lemma_step_draining(now);
        } else {
            self.lemma_advance(self.floor(now));
            let after = self.advance(self.floor(now));
            if self.far_ready(now) {
                let deadline = self.first_overflow()->0;
                assert(self.is_first_overflow(deadline));
                let id = self.queues[Location::Overflow(deadline)][0];
                assert(self.placed(self.timers[id]));
                if deadline.nanos > now.nanos {
                    ticks::lemma_promoted_within_horizon(self.genesis, deadline, now);
                    let tick = self.ceil(deadline)->0;
                    after.lemma_relocate(id, now);
                    geometry::lemma_placement(after.position, tick);
                    let next = after.relocate(id, now);
                    assert(next.timers =~= self.timers.insert(
                        id,
                        Entry { location: next.timers[id].location, ..self.timers[id] },
                    ));
                    assert(next.timers.dom() =~= self.timers.dom());
                    assert(self.lowers_one(next));
                }
            } else {
                self.lemma_advance_keeps_boundary(self.floor(now));
                self.lemma_same_far(after);
            }
        }
    }

    /// Advancing does not change which slot starts first.
    pub proof fn lemma_advance_keeps_boundary(self, position: int)
        requires
            self.wf(),
            self.draining is None,
            self.position <= position <= u64::MAX,
            self.next_boundary() matches Some(boundary) ==> position <= boundary.tick,
        ensures
            self.advance(position).next_boundary() == self.next_boundary(),
    {
        let after = self.advance(position);
        self.lemma_advance(position);
        assert forall|level: usize, slot: usize|
            #![trigger self.queues[Location::Wheel { level, slot }]]
            level < LEVELS && slot < SLOTS && self.occupied(
                Location::Wheel { level, slot },
            ) implies geometry::occurrence(self.position, level as int, slot as int)
            == geometry::occurrence(position, level as int, slot as int) by {
            let id = self.queues[Location::Wheel { level, slot }][0];
            self.lemma_entry_start(id, level, slot);
            after.lemma_entry_start(id, level, slot);
        }
        if let Some(boundary) = self.next_boundary() {
            assert(self.is_next_boundary(boundary));
            assert(after.is_next_boundary(boundary)) by {
                let _ = self.queues[boundary.location()];
                assert forall|level: usize, slot: usize|
                    #![trigger after.queues[Location::Wheel { level, slot }]]
                    level < LEVELS && slot < SLOTS && after.occupied(
                        Location::Wheel { level, slot },
                    ) implies after.not_after(boundary, level, slot) by {
                    let _ = self.queues[Location::Wheel { level, slot }];
                    assert(self.not_after(boundary, level, slot));
                }
            }
            after.lemma_next_boundary(boundary);
        } else if let Some(boundary) = after.next_boundary() {
            assert(after.is_next_boundary(boundary));
            self.lemma_first_slot(boundary.level, boundary.slot);
        }
    }

    /// Which far deadline is the earliest depends on the far queues alone.
    pub proof fn lemma_same_far(self, other: WheelModel)
        requires
            self.queues == other.queues,
        ensures
            self.first_overflow() == other.first_overflow(),
    {
        self.lemma_same_queues(WheelModel { position: self.position, ..other });
        let moved = WheelModel { position: self.position, ..other };
        assert forall|deadline: Instant| moved.is_first_overflow(deadline)
            == #[trigger] other.is_first_overflow(deadline) by {}
        if let Some(deadline) = moved.first_overflow() {
            assert(moved.is_first_overflow(deadline));
            assert(other.is_first_overflow(deadline));
            other.lemma_first_overflow(deadline);
        } else if let Some(deadline) = other.first_overflow() {
            assert(other.is_first_overflow(deadline));
            assert(moved.is_first_overflow(deadline));
        }
    }

    /// Which slot starts first and which far deadline is the earliest depends on the position and
    /// on those queues alone.
    pub proof fn lemma_same_queues(self, other: WheelModel)
        requires
            self.position == other.position,
            forall|location: Location|
                #![trigger self.queues[location]]
                #![trigger other.queues[location]]
                location is Wheel || location is Overflow ==> self.queues[location]
                    == other.queues[location],
        ensures
            self.next_boundary() == other.next_boundary(),
            self.first_overflow() == other.first_overflow(),
    {
        assert forall|boundary: WheelBoundary| self.is_next_boundary(boundary)
            == #[trigger] other.is_next_boundary(boundary) by {
            let _ = self.queues[boundary.location()];
            assert forall|level: usize, slot: usize| self.queues[Location::Wheel { level, slot }]
                == #[trigger] other.queues[Location::Wheel { level, slot }] by {}
            if self.is_next_boundary(boundary) {
                assert(other.is_next_boundary(boundary));
            }
            if other.is_next_boundary(boundary) {
                assert(self.is_next_boundary(boundary));
            }
        }
        assert forall|deadline: Instant| self.is_first_overflow(deadline)
            == #[trigger] other.is_first_overflow(deadline) by {
            let _ = self.queues[Location::Overflow(deadline)];
            assert forall|instant: Instant| self.queues[Location::Overflow(instant)]
                == #[trigger] other.queues[Location::Overflow(instant)] by {}
            if self.is_first_overflow(deadline) {
                assert(other.is_first_overflow(deadline)) by {
                    assert forall|instant: Instant| #[trigger]
                        other.queues[Location::Overflow(instant)].len() > 0 implies deadline.nanos
                        <= instant.nanos by {
                        assert(self.queues[Location::Overflow(instant)].len() > 0);
                    }
                }
            }
            if other.is_first_overflow(deadline) {
                assert(self.is_first_overflow(deadline)) by {
                    assert forall|instant: Instant| #[trigger]
                        self.queues[Location::Overflow(instant)].len() > 0 implies deadline.nanos
                        <= instant.nanos by {
                        assert(other.queues[Location::Overflow(instant)].len() > 0);
                    }
                }
            }
        }
        if let Some(boundary) = self.next_boundary() {
            assert(self.is_next_boundary(boundary));
            assert(other.is_next_boundary(boundary));
            other.lemma_next_boundary(boundary);
        } else if let Some(boundary) = other.next_boundary() {
            assert(other.is_next_boundary(boundary));
            assert(self.is_next_boundary(boundary));
        }
        if let Some(deadline) = self.first_overflow() {
            assert(self.is_first_overflow(deadline));
            assert(other.is_first_overflow(deadline));
            other.lemma_first_overflow(deadline);
        } else if let Some(deadline) = other.first_overflow() {
            assert(other.is_first_overflow(deadline));
            assert(self.is_first_overflow(deadline));
        }
    }

    /// Once nothing but immediate entries is left to do, it stays so while immediate entries are
    /// taken out.
    pub proof fn lemma_rest_stays_idle(self, id: usize, now: Instant)
        requires
            self.wf(),
            self.timers.contains_key(id),
            self.timers[id].location is Immediate,
            self.step_non_immediate(now) == (self, None::<Step>),
        ensures
            self.detach(id).step_non_immediate(now) == (self.detach(id), None::<Step>),
    {
        let after = self.detach(id);
        self.lemma_same_queues(after);
        assert(self.advance(self.floor(now)).position == self.floor(now));
        assert(after.advance(after.floor(now)) == after);
    }
}

} // verus!
