//! Hierarchical timing wheel.
//!
//! Finite deadlines are stored in six levels of intrusive slot lists. Deadlines beyond the moving
//! horizon of the wheel stay in an ordered overflow map until they can be promoted; elapsed and
//! unrepresentable deadlines use separate lists.
//!
//! [`Wheel`]'s view is a [`WheelModel`]; every contract is stated on it.

use slab::Slab;
use vstd::prelude::*;

use crate::time::deadline::Deadline;
use crate::time::entries;
use crate::time::entries::{List, Location, Node, MAX_ENTRIES};
use crate::time::geometry;
use crate::time::geometry::{HORIZON, LEVELS, SLOTS};
use crate::time::instant::Instant;
use crate::time::model;
use crate::time::model::{Entry, Step, WheelBoundary, WheelModel};
use crate::time::overflow::Overflow;
use crate::time::ticks;

verus! {

/// Slab-backed timer entries partitioned by deadline range.
pub struct Wheel {
    // Once selected, this boundary stays minimal until its slot is empty. `position` does not
    // advance while it is set.
    draining: Option<WheelBoundary>,
    entries: Slab<Node>,
    genesis: Instant,
    immediate: List,
    never: List,
    // Bit `slot` is set when that level's slot list is non-empty.
    occupancy: [u64; LEVELS],
    overflow: Overflow,
    position: u64,
    slots: [[List; SLOTS]; LEVELS],
    // The order of the entries in each list.
    queues: Ghost<Map<Location, Seq<usize>>>,
}

/// Whether the node at position `i` of `queue` points to its neighbours.
pub open spec fn joined(nodes: Map<usize, Node>, queue: Seq<usize>, i: int) -> bool {
    &&& nodes[queue[i]].prev == if i == 0 {
        None
    } else {
        Some(queue[i - 1])
    }
    &&& nodes[queue[i]].next == if i == queue.len() - 1 {
        None
    } else {
        Some(queue[i + 1])
    }
}

/// Whether the nodes of `queue` form the doubly linked list that `list` holds the ends of.
pub open spec fn chained(
    nodes: Map<usize, Node>,
    queue: Seq<usize>,
    location: Location,
    list: List,
) -> bool {
    &&& list.head == if queue.len() == 0 {
        None
    } else {
        Some(queue[0])
    }
    &&& list.tail == if queue.len() == 0 {
        None
    } else {
        Some(queue[queue.len() - 1])
    }
    &&& queue.no_duplicates()
    &&& forall|i: int|
        #![trigger queue[i]]
        0 <= i < queue.len() ==> {
            &&& nodes.contains_key(queue[i])
            &&& nodes[queue[i]].location == Some(location)
        }
    &&& forall|i: int| 0 <= i < queue.len() ==> #[trigger] joined(nodes, queue, i)
}

impl View for Wheel {
    type V = WheelModel;

    closed spec fn view(&self) -> WheelModel {
        WheelModel {
            genesis: self.genesis,
            position: self.position as int,
            draining: self.draining,
            timers: Map::new(
                |id: usize| self.nodes().contains_key(id) && self.nodes()[id].location is Some,
                |id: usize|
                    Entry {
                        deadline: self.nodes()[id].deadline,
                        value: self.nodes()[id].value,
                        location: self.nodes()[id].location->0,
                    },
            ),
            queues: self.queues@,
        }
    }
}

impl Wheel {
    /// The stored nodes.
    closed spec fn nodes(self) -> Map<usize, Node> {
        entries::slab_contents(self.entries)
    }

    /// The ends of the list at a location.
    closed spec fn list_at(self, location: Location) -> List {
        match location {
            Location::Immediate => self.immediate,
            Location::Wheel { level, slot } => self.slots@[level as int]@[slot as int],
            Location::Overflow(deadline) => if self.overflow@.contains_key(deadline.nanos) {
                self.overflow@[deadline.nanos]
            } else {
                List { head: None, tail: None }
            },
            Location::Never => self.never,
        }
    }

    /// Whether the lists, the occupancy words and the overflow map agree with the queues.
    closed spec fn linked(self) -> bool {
        &&& forall|location: Location| #[trigger] self.queues@.contains_key(location)
        &&& forall|location: Location|
            #![trigger self.queues@[location]]
            if model::valid_location(location) {
                chained(
                    self.nodes(),
                    self.queues@[location],
                    location,
                    self.list_at(location),
                )
            } else {
                self.queues@[location].len() == 0
            }
        &&& forall|deadline: Instant| #[trigger]
            self.queues@[Location::Overflow(deadline)].len() > 0
                <==> self.overflow@.contains_key(deadline.nanos)
        &&& forall|level: usize, slot: usize|
            #![trigger self.queues@[Location::Wheel { level, slot }]]
            level < LEVELS && slot < SLOTS ==> (model::bit(self.occupancy@[level as int], slot as int)
                <==> self.queues@[Location::Wheel { level, slot }].len() > 0)
        &&& forall|id: usize| #[trigger]
            self.nodes().contains_key(id) && self.nodes()[id].location is Some ==> {
                &&& model::valid_location(self.nodes()[id].location->0)
                &&& self.queues@[self.nodes()[id].location->0].contains(id)
            }
    }

    /// The invariant of the wheel.
    pub closed spec fn wf(self) -> bool {
        &&& self.linked()
        &&& forall|id: usize| #[trigger]
            self.nodes().contains_key(id) ==> self.nodes()[id].location is Some
        &&& self@.wf()
    }

    /// A wheel's model satisfies the model's invariant.
    pub proof fn lemma_wf(&self)
        requires
            self.wf(),
        ensures
            self@.wf(),
    {
    }

    /// The ends of the list at a location.
    fn list(&self, location: Location) -> (list: List)
        requires
            model::valid_location(location),
        ensures
            list == self.list_at(location),
    {
        match location {
            Location::Immediate => self.immediate,
            Location::Wheel { level, slot } => self.slots[level][slot],
            Location::Overflow(deadline) => match self.overflow.get(deadline) {
                Some(list) => list,
                None => List::empty(),
            },
            Location::Never => self.never,
        }
    }

    /// Replaces the ends of the list at a location, and keeps the occupancy words, the overflow
    /// map and the drained slot in step with it.
    fn set_list(&mut self, location: Location, list: List)
        requires
            model::valid_location(location),
            list.head is None <==> list.tail is None,
        ensures
            final(self).entries == old(self).entries,
            final(self).genesis == old(self).genesis,
            final(self).position == old(self).position,
            final(self).queues == old(self).queues,
            final(self).draining == match old(self).draining {
                Some(boundary) => if list.head is None && boundary.location() == location {
                    None
                } else {
                    Some(boundary)
                },
                None => None,
            },
            forall|other: Location|
                #![trigger final(self).list_at(other)]
                model::valid_location(other) ==> final(self).list_at(other) == if other
                    == location {
                    list
                } else {
                    old(self).list_at(other)
                },
            forall|deadline: Instant| #[trigger]
                final(self).overflow@.contains_key(deadline.nanos) <==> if location
                    == Location::Overflow(deadline) {
                    list.head is Some
                } else {
                    old(self).overflow@.contains_key(deadline.nanos)
                },
            forall|level: usize, slot: usize|
                #![trigger model::bit(final(self).occupancy@[level as int], slot as int)]
                level < LEVELS && slot < SLOTS ==> model::bit(
                    final(self).occupancy@[level as int],
                    slot as int,
                ) == if location == (Location::Wheel { level, slot }) {
                    list.head is Some
                } else {
                    model::bit(old(self).occupancy@[level as int], slot as int)
                },
    {
        match location {
            Location::Immediate => {
                self.immediate = list;
            },
            Location::Wheel { level, slot } => {
                self.slots[level][slot] = list;
                proof {
                    lemma_bit_updates(old(self).occupancy@[level as int], slot as u64);
                }
                if list.head.is_some() {
                    self.occupancy[level] = self.occupancy[level] | (1u64 << slot);
                } else {
                    self.occupancy[level] = self.occupancy[level] & !(1u64 << slot);
                    if let Some(boundary) = self.draining {
                        if boundary.level == level && boundary.slot == slot {
                            self.draining = None;
                        }
                    }
                }
            },
            Location::Overflow(deadline) => {
                if list.head.is_some() {
                    self.overflow.insert(deadline, list);
                } else {
                    self.overflow.remove(deadline);
                }
            },
            Location::Never => {
                self.never = list;
            },
        }
    }

    /// Appends a stored but unlinked entry to the list at a location.
    fn link_back(&mut self, id: usize, location: Location)
        requires
            model::valid_location(location),
            old(self).linked(),
            old(self).nodes().contains_key(id),
            old(self).nodes()[id].location is None,
        ensures
            final(self).linked(),
            final(self).nodes().dom() == old(self).nodes().dom(),
            forall|other: usize| #[trigger]
                final(self).nodes().contains_key(other) && other != id
                    ==> final(self).nodes()[other].location == old(
                    self,
                ).nodes()[other].location,
            final(self).nodes()[id].location == Some(location),
            final(self)@ == old(self)@.attach(
                id,
                old(self).nodes()[id].deadline,
                old(self).nodes()[id].value,
                location,
            ),
    {
        let ghost queue = self.queues@[location];
        let mut list: List = self.list(location);
        assert(chained(self.nodes(), queue, location, list));
        proof {
            lemma_chain_push(self.nodes(), queue, location, list, id);
        }
        if let Some(tail) = list.tail {
            let mut last: Node = entries::slab_index(&self.entries, tail);
            last.next = Some(id);
            entries::slab_set(&mut self.entries, tail, last);
        } else {
            list.head = Some(id);
        }
        let mut node: Node = entries::slab_index(&self.entries, id);
        node.location = Some(location);
        node.prev = list.tail;
        node.next = None;
        entries::slab_set(&mut self.entries, id, node);
        list.tail = Some(id);
        self.set_list(location, list);
        let ghost stored = *self;
        proof {
            self.queues@ = self.queues@.insert(location, queue.push(id));
            assert(stored.list_at(location) == list);
            lemma_relinked(*old(self), stored, *self, location, id);
        }
    }

    /// Takes a linked entry out of its list; it stays stored.
    fn unlink(&mut self, id: usize)
        requires
            old(self).linked(),
            old(self).nodes().contains_key(id),
            old(self).nodes()[id].location is Some,
        ensures
            final(self).linked(),
            final(self).nodes().dom() == old(self).nodes().dom(),
            forall|other: usize| #[trigger]
                final(self).nodes().contains_key(other) && other != id
                    ==> final(self).nodes()[other].location == old(
                    self,
                ).nodes()[other].location,
            final(self).nodes()[id].location is None,
            final(self).nodes()[id].deadline == old(self).nodes()[id].deadline,
            final(self).nodes()[id].value == old(self).nodes()[id].value,
            final(self)@ == old(self)@.detach(id),
    {
        let mut node: Node = entries::slab_index(&self.entries, id);
        let location: Location = node.location.unwrap();
        let prev: Option<usize> = node.prev;
        let next: Option<usize> = node.next;
        let mut list: List = self.list(location);
        let ghost queue = self.queues@[location];
        assert(chained(self.nodes(), queue, location, list));
        proof {
            lemma_chain_remove(self.nodes(), queue, location, list, id);
        }

        if let Some(before) = prev {
            let mut neighbour: Node = entries::slab_index(&self.entries, before);
            neighbour.next = next;
            entries::slab_set(&mut self.entries, before, neighbour);
        } else {
            list.head = next;
        }
        if let Some(after) = next {
            let mut neighbour: Node = entries::slab_index(&self.entries, after);
            neighbour.prev = prev;
            entries::slab_set(&mut self.entries, after, neighbour);
        } else {
            list.tail = prev;
        }

        node.location = None;
        node.prev = None;
        node.next = None;
        entries::slab_set(&mut self.entries, id, node);
        self.set_list(location, list);
        let ghost stored = *self;
        proof {
            self.queues@ = self.queues@.insert(location, model::without(queue, id));
            assert(stored.list_at(location) == list);
            lemma_relinked(*old(self), stored, *self, location, id);
        }
    }

    /// The occupied slot that starts first.
    fn next_wheel_boundary(&self) -> (next: Option<WheelBoundary>)
        requires
            self.wf(),
        ensures
            next == self@.next_boundary(),
    {
        let mut result: Option<WheelBoundary> = None;
        let mut level: usize = 0;
        proof {
            lemma_all_bits();
        }
        while level < LEVELS
            invariant
                self.wf(),
                level <= LEVELS,
                self@.is_first_seen(result, level, u64::MAX),
            decreases LEVELS - level,
        {
            let mut bits: u64 = self.occupancy[level];
            proof {
                assert(self.linked());
                lemma_all_bits();
            }
            while bits != 0
                invariant
                    self.wf(),
                    level < LEVELS,
                    self@.is_first_seen(result, level, bits),
                    forall|slot: int|
                        0 <= slot < 64 && #[trigger] model::bit(bits, slot) ==> model::bit(
                            self.occupancy@[level as int],
                            slot,
                        ),
                decreases bits,
            {
                let slot: usize = bits.trailing_zeros() as usize;
                proof {
                    lemma_lowest_bit(bits);
                    assert(self.linked());
                    assert(self@.queues[Location::Wheel { level, slot }].len() > 0);
                    self@.lemma_slot_start(level, slot);
                }
                let ghost found = result;
                match geometry::occurrence_start(self.position, level, slot) {
                    None => {},
                    Some(tick) => {
                        let earlier: bool = match result {
                            Some(current) => tick < current.tick,
                            None => true,
                        };
                        if earlier {
                            result = Some(WheelBoundary { tick, level, slot });
                        }
                    },
                }
                proof {
                    let rest = bits & ((bits - 1) as u64);
                    assert forall|l: usize, s: usize|
                        #![trigger self@.queues[Location::Wheel { level: l, slot: s }]]
                        l < LEVELS && s < SLOTS && self@.occupied(
                            Location::Wheel { level: l, slot: s },
                        ) && (l < level || l == level && !model::bit(rest, s as int)) implies (
                    result matches Some(boundary) && self@.not_after(boundary, l, s)) by {
                        if l == level && s == slot {
                            if let Some(boundary) = found {
                                if boundary.level == level && boundary.tick
                                    == geometry::occurrence(
                                    self@.position,
                                    level as int,
                                    slot as int,
                                ) {
                                    geometry::lemma_occurrence_is_injective(
                                        self@.position,
                                        level as int,
                                        slot as int,
                                        boundary.slot as int,
                                    );
                                }
                            }
                        } else {
                            assert(found matches Some(boundary) && self@.not_after(
                                boundary,
                                l,
                                s,
                            ));
                        }
                    }
                }
                bits = bits & (bits - 1);
            }
            proof {
                lemma_all_bits();
            }
            level = level + 1;
        }
        proof {
            match result {
                Some(boundary) => {
                    assert(self@.is_next_boundary(boundary));
                    self@.lemma_next_boundary(boundary);
                },
                None => {
                    if self@.next_boundary() is Some {
                        let boundary = self@.next_boundary()->0;
                        assert(self@.is_next_boundary(boundary));
                        assert(self@.queues[boundary.location()].len() > 0);
                    }
                },
            }
        }
        result
    }

    /// An empty wheel whose first tick starts at `genesis`.
    pub fn new(genesis: Instant) -> (wheel: Wheel)
        ensures
            wheel.wf(),
            wheel@ == WheelModel::empty(genesis),
    {
        let wheel = Wheel {
            draining: None,
            entries: entries::slab_new(),
            genesis,
            immediate: List::empty(),
            never: List::empty(),
            occupancy: [0u64; LEVELS],
            overflow: Overflow::new(),
            position: 0,
            slots: [[List { head: None, tail: None }; SLOTS]; LEVELS],
            queues: Ghost(Map::total(|location: Location| Seq::empty())),
        };
        proof {
            lemma_all_bits();
            wheel.lemma_all_empty();
            assert(wheel@.timers =~= Map::<usize, Entry>::empty());
        }
        wheel
    }

    /// Adds an entry and returns its id.
    ///
    /// The entry goes to the back of the queue that its deadline belongs to. The id stays the
    /// entry's until the entry is removed.
    pub fn insert(&mut self, deadline: Deadline, now: Instant, value: u64) -> (id: usize)
        requires
            old(self).wf(),
            old(self)@.timers.dom().len() < MAX_ENTRIES,
        ensures
            final(self).wf(),
            !old(self)@.timers.contains_key(id),
            final(self)@ == old(self)@.attach(
                id,
                deadline,
                value,
                old(self)@.classify(deadline, now),
            ),
    {
        let location: Location = self.classify(deadline, now);
        let node = Node { deadline, location: None, next: None, prev: None, value };
        assert(self@.timers.dom() =~= self.nodes().dom());
        let id: usize = entries::slab_insert(&mut self.entries, node);
        proof {
            old(self)@.lemma_classify(deadline, value, now);
            lemma_stored(*old(self), *self);
            old(self)@.lemma_attach(id, deadline, value, location);
        }
        self.link_back(id, location);
        id
    }

    /// The value of an entry, or `None` when there is no entry with this id.
    pub fn get(&self, id: usize) -> (value: Option<u64>)
        requires
            self.wf(),
        ensures
            match value {
                Some(value) => self@.timers.contains_key(id) && self@.timers[id].value == value,
                None => !self@.timers.contains_key(id),
            },
    {
        match entries::slab_get(&self.entries, id) {
            Some(node) => Some(node.value),
            None => None,
        }
    }

    /// Removes an entry and returns its value, or does nothing when there is no entry with this
    /// id.
    pub fn remove(&mut self, id: usize) -> (value: Option<u64>)
        requires
            old(self).wf(),
        ensures
            final(self).wf(),
            match value {
                Some(value) => {
                    &&& old(self)@.timers.contains_key(id)
                    &&& old(self)@.timers[id].value == value
                    &&& final(self)@ == old(self)@.detach(id)
                },
                None => {
                    &&& !old(self)@.timers.contains_key(id)
                    &&& final(self)@ == old(self)@
                },
            },
    {
        if !entries::slab_contains(&self.entries, id) {
            return None;
        }
        proof {
            self@.lemma_detach(id);
        }
        self.unlink(id);
        let ghost unlinked = *self;
        let node: Node = entries::slab_remove(&mut self.entries, id);
        proof {
            lemma_stored(unlinked, *self);
        }
        Some(node.value)
    }

    /// The number of entries.
    pub fn len(&self) -> (len: usize)
        requires
            self.wf(),
        ensures
            len == self@.timers.dom().len(),
    {
        proof {
            assert(self@.timers.dom() =~= self.nodes().dom());
        }
        entries::slab_len(&self.entries)
    }

    /// The slot that is being drained.
    pub fn draining(&self) -> (draining: Option<WheelBoundary>)
        ensures
            draining == self@.draining,
    {
        self.draining
    }

    /// The tick up to which the wheel has advanced.
    pub fn position(&self) -> (position: u64)
        ensures
            position == self@.position,
    {
        self.position
    }

    /// The next step on the entries that were due when they were classified.
    pub fn step_immediate(&self) -> (step: Option<Step>)
        requires
            self.wf(),
        ensures
            step == self@.step_immediate(),
    {
        proof {
            let queue = self.queues@[Location::Immediate];
            assert(chained(self.nodes(), queue, Location::Immediate, self.immediate));
        }
        match self.immediate.head {
            Some(id) => Some(Step::Fire(id)),
            None => None,
        }
    }

    /// One step on the entries that were due when they were classified, else on any other entry.
    pub fn step(&mut self, now: Instant) -> (step: Option<Step>)
        requires
            old(self).wf(),
            old(self)@.reached(now),
        ensures
            final(self).wf(),
            final(self)@.reached(now),
            match old(self)@.step_immediate() {
                Some(immediate) => step == Some(immediate) && final(self)@ == old(self)@,
                None => (final(self)@, step) == old(self)@.step_non_immediate(now),
            },
    {
        match self.step_immediate() {
            Some(step) => Some(step),
            None => self.step_non_immediate(now),
        }
    }

    /// One step on an entry that was not due when it was classified.
    ///
    /// The slot that is being drained comes first, then the occupied slot that starts first, then
    /// the earliest deadline beyond the horizon.
    pub fn step_non_immediate(&mut self, now: Instant) -> (step: Option<Step>)
        requires
            old(self).wf(),
            old(self)@.reached(now),
        ensures
            final(self).wf(),
            final(self)@.reached(now),
            (final(self)@, step) == old(self)@.step_non_immediate(now),
    {
        proof {
            self@.lemma_step_non_immediate(now);
        }
        if self.draining.is_some() {
            return Some(self.step_draining(now));
        }
        let now_tick: u64 = self.floor_tick(now);
        if let Some(boundary) = self.next_wheel_boundary() {
            if boundary.tick <= now_tick {
                proof {
                    self@.lemma_select(boundary);
                }
                let ghost before = *self;
                self.position = boundary.tick;
                self.draining = Some(boundary);
                proof {
                    lemma_repositioned(before, *self);
                }
                return Some(self.step_draining(now));
            }
        }
        proof {
            self@.lemma_advance(now_tick as int);
        }
        if let Some((deadline, id)) = self.first_overflow() {
            if self.overflow_ready(deadline, now) {
                if deadline.nanos <= now.nanos {
                    return Some(Step::Fire(id));
                }
                let ghost before = *self;
                self.position = now_tick;
                proof {
                    lemma_repositioned(before, *self);
                    self@.lemma_relocate(id, now);
                }
                self.relocate(id, now);
                return Some(Step::Examined);
            }
        }
        let ghost before = *self;
        self.position = now_tick;
        proof {
            lemma_repositioned(before, *self);
        }
        None
    }

    /// One step on the slot that is being drained.
    fn step_draining(&mut self, now: Instant) -> (step: Step)
        requires
            old(self).wf(),
            old(self)@.reached(now),
            old(self)@.draining is Some,
        ensures
            final(self).wf(),
            final(self)@.reached(now),
            (final(self)@, step) == old(self)@.step_draining(now),
    {
        proof {
            self@.lemma_step_draining(now);
        }
        let boundary: WheelBoundary = self.draining.unwrap();
        let location = Location::Wheel { level: boundary.level, slot: boundary.slot };
        let list: List = self.list(location);
        assert(chained(self.nodes(), self.queues@[location], location, list));
        let id: usize = list.head.unwrap();
        if boundary.level == 0 || self.deadline_elapsed(id, now) {
            return Step::Fire(id);
        }
        self.relocate(id, now);
        Step::Examined
    }

    /// Classifies an entry anew and moves it to the back of the queue in which it now belongs.
    fn relocate(&mut self, id: usize, now: Instant)
        requires
            old(self).wf(),
            old(self)@.timers.contains_key(id),
        ensures
            final(self).wf(),
            final(self)@ == old(self)@.relocate(id, now),
    {
        proof {
            self@.lemma_relocate(id, now);
            self@.lemma_detach(id);
        }
        self.unlink(id);
        let node: Node = entries::slab_index(&self.entries, id);
        let location: Location = self.classify(node.deadline, now);
        self.link_back(id, location);
    }

    /// Whether a step would do something.
    pub fn has_due(&self, now: Instant) -> (due: bool)
        requires
            self.wf(),
        ensures
            due == self@.has_due(now),
    {
        if !self.immediate_is_empty() || self.draining.is_some() {
            return true;
        }
        let now_tick: u64 = self.floor_tick(now);
        if let Some(boundary) = self.next_wheel_boundary() {
            if boundary.tick <= now_tick {
                return true;
            }
        }
        match self.first_overflow() {
            Some((deadline, _)) => self.overflow_ready(deadline, now),
            None => false,
        }
    }

    /// Advances the wheel to `now` when nothing is due.
    pub fn settle(&mut self, now: Instant)
        requires
            old(self).wf(),
            old(self)@.reached(now),
            !old(self)@.has_due(now),
        ensures
            final(self).wf(),
            final(self)@.reached(now),
            final(self)@ == old(self)@.advance(old(self)@.floor(now)),
    {
        proof {
            self@.lemma_advance(self@.floor(now));
        }
        self.position = self.floor_tick(now);
        proof {
            lemma_repositioned(*old(self), *self);
        }
    }

    /// The instant at which the wheel next has to be looked at: `now` when something is due,
    /// `None` when no entry has a deadline.
    pub fn next_poll_at(&self, now: Instant) -> (instant: Option<Instant>)
        requires
            self.wf(),
        ensures
            instant == self@.next_poll_at(now),
    {
        if self.has_due(now) {
            return Some(now);
        }
        let wheel: Option<Instant> = match self.next_wheel_boundary() {
            Some(boundary) => ticks::instant_at_tick(self.genesis, boundary.tick),
            None => None,
        };
        let overflow: Option<Instant> = match self.first_overflow() {
            Some((deadline, _)) => Some(ticks::promotion_at(self.genesis, deadline)),
            None => None,
        };
        match (wheel, overflow) {
            (Some(wheel), Some(overflow)) => Some(wheel.min(overflow)),
            (Some(wheel), None) => Some(wheel),
            (None, overflow) => overflow,
        }
    }

    /// Removes every entry and returns their values, in the order of their ids.
    pub fn drain(&mut self) -> (values: Vec<u64>)
        requires
            old(self).wf(),
        ensures
            final(self).wf(),
            final(self)@ == (WheelModel {
                position: old(self)@.position,
                ..WheelModel::empty(old(self)@.genesis)
            }),
            old(self)@.is_drain(values@),
    {
        self.draining = None;
        self.immediate = List::empty();
        self.never = List::empty();
        self.occupancy = [0u64; LEVELS];
        self.overflow.clear();
        self.slots = [[List { head: None, tail: None }; SLOTS]; LEVELS];
        let nodes: Vec<Node> = entries::slab_drain(&mut self.entries);
        proof {
            self.queues@ = Map::total(|location: Location| Seq::empty());
            lemma_all_bits();
            self.lemma_all_empty();
            assert(self@.timers =~= Map::<usize, Entry>::empty());
        }
        let mut values: Vec<u64> = Vec::new();
        let mut i: usize = 0;
        while i < nodes.len()
            invariant
                i <= nodes.len(),
                values.len() == i,
                forall|j: int| 0 <= j < i ==> #[trigger] values@[j] == nodes@[j].value,
            decreases nodes.len() - i,
        {
            values.push(nodes[i].value);
            i = i + 1;
        }
        proof {
            let before = old(self).nodes();
            let keys = choose|keys: Seq<usize>| #[trigger]
                entries::lists_keys(keys, before) && nodes@ == keys.map_values(
                    |key: usize| before[key],
                );
            assert(old(self)@.timers.dom() =~= before.dom());
            assert(values@ =~= keys.map_values(|id: usize| old(self)@.timers[id].value));
            assert(old(self)@.lists_ids(keys));
        }
        values
    }

    /// Where an entry with this deadline belongs.
    fn classify(&self, deadline: Deadline, now: Instant) -> (location: Location)
        ensures
            location == self@.classify(deadline, now),
            model::valid_location(location),
    {
        proof {
            self@.lemma_classify(deadline, 0, now);
        }
        let instant: Instant = match deadline {
            Deadline::At(instant) => instant,
            Deadline::Never => {
                return Location::Never;
            },
        };
        if instant.nanos <= now.nanos {
            return Location::Immediate;
        }
        let tick: u64 = match self.ceil_tick(instant) {
            Some(tick) => tick,
            None => {
                return Location::Overflow(instant);
            },
        };
        if tick < self.position {
            return Location::Immediate;
        }
        let delta: u64 = tick - self.position;
        if delta >= HORIZON {
            return Location::Overflow(instant);
        }
        let level: usize = geometry::level_for_delta(delta);
        let slot: usize = geometry::slot_for_tick(tick, level);
        Location::Wheel { level, slot }
    }

    /// Whether the deadline of an entry has come.
    fn deadline_elapsed(&self, id: usize, now: Instant) -> (elapsed: bool)
        requires
            self.wf(),
            self@.timers.contains_key(id),
        ensures
            elapsed == self@.timers[id].deadline.elapsed(now),
    {
        match entries::slab_index(&self.entries, id).deadline {
            Deadline::At(deadline) => deadline.nanos <= now.nanos,
            Deadline::Never => false,
        }
    }

    /// The last tick that an instant has reached.
    fn floor_tick(&self, instant: Instant) -> (tick: u64)
        ensures
            tick == self@.floor(instant),
    {
        ticks::floor_tick_at(self.genesis, instant)
    }

    /// The first tick that is not before an instant.
    fn ceil_tick(&self, instant: Instant) -> (tick: Option<u64>)
        ensures
            match tick {
                Some(tick) => self@.ceil(instant) == Some(tick as int),
                None => self@.ceil(instant) is None,
            },
    {
        ticks::ceil_tick_at(self.genesis, instant)
    }

    /// Whether a deadline beyond the horizon can be promoted or fired.
    fn overflow_ready(&self, deadline: Instant, now: Instant) -> (ready: bool)
        ensures
            ready == self@.overflow_ready(deadline, now),
    {
        ticks::promotion_at(self.genesis, deadline).nanos <= now.nanos
    }

    /// Whether no entry was due when it was classified.
    fn immediate_is_empty(&self) -> (empty: bool)
        requires
            self.wf(),
        ensures
            empty == !self@.occupied(Location::Immediate),
    {
        proof {
            let queue = self.queues@[Location::Immediate];
            assert(chained(self.nodes(), queue, Location::Immediate, self.immediate));
        }
        self.immediate.head.is_none()
    }

    /// The earliest deadline beyond the horizon, and the first entry that has it.
    fn first_overflow(&self) -> (first: Option<(Instant, usize)>)
        requires
            self.wf(),
        ensures
            match first {
                Some((deadline, id)) => {
                    &&& self@.first_overflow() == Some(deadline)
                    &&& self@.occupied(Location::Overflow(deadline))
                    &&& id == self@.queues[Location::Overflow(deadline)][0]
                    &&& self@.timers.contains_key(id)
                },
                None => self@.first_overflow() is None,
            },
    {
        match self.overflow.first() {
            None => {
                proof {
                    if let Some(deadline) = self@.first_overflow() {
                        assert(self@.is_first_overflow(deadline));
                        assert(self.queues@[Location::Overflow(deadline)].len() > 0);
                    }
                }
                None
            },
            Some((deadline, list)) => {
                proof {
                    let location = Location::Overflow(deadline);
                    let queue = self.queues@[location];
                    assert(chained(self.nodes(), queue, location, self.list_at(location)));
                    assert(queue.len() > 0);
                    assert(self@.timers.contains_key(queue[0]));
                    assert(self@.is_first_overflow(deadline)) by {
                        assert forall|other: Instant| #[trigger]
                            self@.queues[Location::Overflow(other)].len() > 0 implies deadline.nanos
                            <= other.nanos by {
                            assert(self.queues@[Location::Overflow(other)].len() > 0);
                            assert(self.overflow@.contains_key(other.nanos));
                        }
                    }
                    self@.lemma_first_overflow(deadline);
                }
                Some((deadline, list.head.unwrap()))
            },
        }
    }

    /// A wheel without entries and with empty lists is linked.
    proof fn lemma_all_empty(self)
        requires
            self.nodes() == Map::<usize, Node>::empty(),
            self.immediate == (List { head: None, tail: None }),
            self.never == (List { head: None, tail: None }),
            forall|level: int| 0 <= level < LEVELS ==> #[trigger] self.occupancy@[level] == 0,
            self.overflow@ == Map::<i128, List>::empty(),
            forall|level: int, slot: int|
                0 <= level < LEVELS && 0 <= slot < SLOTS ==> #[trigger] self.slots@[level]@[slot]
                    == (List { head: None, tail: None }),
            self.queues@ == Map::total(|location: Location| Seq::<usize>::empty()),
            self.draining is None,
        ensures
            self.wf(),
    {
        lemma_all_bits();
        assert(self@.timers.dom() =~= Set::empty());
        assert forall|location: Location| #![trigger self.queues@[location]]
            if model::valid_location(location) {
                chained(
                    self.nodes(),
                    self.queues@[location],
                    location,
                    self.list_at(location),
                )
            } else {
                self.queues@[location].len() == 0
            } by {
            assert(self.queues@[location].len() == 0);
        }
    }
}

/// Storing or dropping unlinked nodes does not change the wheel.
proof fn lemma_stored(before: Wheel, after: Wheel)
    requires
        before.linked(),
        after == (Wheel { entries: after.entries, ..before }),
        forall|id: usize| #[trigger]
            before.nodes().contains_key(id) && before.nodes()[id].location is Some
                ==> after.nodes().contains_key(id) && after.nodes()[id] == before.nodes()[id],
        forall|id: usize| #[trigger]
            after.nodes().contains_key(id) && after.nodes()[id].location is Some
                ==> before.nodes().contains_key(id) && before.nodes()[id].location is Some,
    ensures
        after.linked(),
        after@ == before@,
{
    assert forall|location: Location| #![trigger after.queues@[location]]
        if model::valid_location(location) {
            chained(after.nodes(), after.queues@[location], location, after.list_at(location))
        } else {
            after.queues@[location].len() == 0
        } by {
        let queue = before.queues@[location];
        if model::valid_location(location) {
            assert(chained(before.nodes(), queue, location, before.list_at(location)));
            assert(after.list_at(location) == before.list_at(location));
            assert forall|i: int| 0 <= i < queue.len() implies #[trigger] joined(
                after.nodes(),
                queue,
                i,
            ) by {
                assert(joined(before.nodes(), queue, i));
                assert(after.nodes()[queue[i]] == before.nodes()[queue[i]]);
            }
        }
    }
    assert(after@.timers =~= before@.timers);
}

/// The lists do not depend on the position or on the drained slot.
proof fn lemma_repositioned(before: Wheel, after: Wheel)
    requires
        before.linked(),
        after == (Wheel { position: after.position, draining: after.draining, ..before }),
    ensures
        after.linked(),
        after@ == (WheelModel {
            position: after.position as int,
            draining: after.draining,
            ..before@
        }),
{
    assert forall|location: Location| #![trigger after.queues@[location]]
        if model::valid_location(location) {
            chained(after.nodes(), after.queues@[location], location, after.list_at(location))
        } else {
            after.queues@[location].len() == 0
        } by {
        let _ = before.queues@[location];
        assert(after.list_at(location) == before.list_at(location));
    }
    assert(after@.timers =~= before@.timers);
}

/// A full word has every bit set, and an empty one none.
proof fn lemma_all_bits()
    ensures
        forall|slot: int| 0 <= slot < 64 ==> #[trigger] model::bit(u64::MAX, slot),
        forall|slot: int| 0 <= slot < 64 ==> !#[trigger] model::bit(0, slot),
{
    assert forall|slot: int| 0 <= slot < 64 implies #[trigger] model::bit(u64::MAX, slot) by {
        let s = slot as u64;
        assert((0xffff_ffff_ffff_ffffu64 >> s) & 1u64 == 1u64) by (bit_vector)
            requires
                s < 64,
        ;
    }
    assert forall|slot: int| 0 <= slot < 64 implies !#[trigger] model::bit(0, slot) by {
        let s = slot as u64;
        assert((0u64 >> s) & 1u64 == 0u64) by (bit_vector);
    }
}

/// Clearing the lowest set bit of a word clears that bit alone.
proof fn lemma_lowest_bit(bits: u64)
    requires
        bits != 0,
    ensures
        ({
            let lowest = vstd::std_specs::bits::u64_trailing_zeros(bits);
            let rest = bits & ((bits - 1) as u64);
            &&& lowest < 64
            &&& model::bit(bits, lowest as int)
            &&& rest < bits
            &&& forall|slot: int|
                0 <= slot < 64 ==> #[trigger] model::bit(rest, slot) == (model::bit(bits, slot)
                    && slot != lowest)
        }),
{
    vstd::std_specs::bits::axiom_u64_trailing_zeros(bits);
    let lowest = vstd::std_specs::bits::u64_trailing_zeros(bits) as u64;
    let rest = bits & ((bits - 1) as u64);
    assert(bits & ((bits - 1) as u64) == bits & !(1u64 << lowest) && bits & ((bits - 1) as u64)
        < bits) by (bit_vector)
        requires
            lowest < 64,
            (bits >> lowest) & 1u64 == 1u64,
            bits << ((64 - lowest) as u64) == 0,
    ;
    lemma_bit_updates(bits, lowest);
}

/// The nodes after an unlinked one has been appended to a list.
spec fn nodes_after_push(
    nodes: Map<usize, Node>,
    location: Location,
    list: List,
    id: usize,
) -> Map<usize, Node> {
    let joined = match list.tail {
        Some(tail) => nodes.insert(tail, Node { next: Some(id), ..nodes[tail] }),
        None => nodes,
    };
    joined.insert(
        id,
        Node { location: Some(location), prev: list.tail, next: None, ..joined[id] },
    )
}

/// The nodes after a linked one has been taken out of its list.
spec fn nodes_after_remove(nodes: Map<usize, Node>, id: usize) -> Map<usize, Node> {
    let node = nodes[id];
    let left = match node.prev {
        Some(before) => nodes.insert(before, Node { next: node.next, ..nodes[before] }),
        None => nodes,
    };
    let right = match node.next {
        Some(after) => left.insert(after, Node { prev: node.prev, ..left[after] }),
        None => left,
    };
    right.insert(id, Node { location: None, prev: None, next: None, ..node })
}

/// Whether two states of the nodes differ at most in the links between them and in where one of
/// them lies.
spec fn same_but_links(before: Map<usize, Node>, after: Map<usize, Node>, id: usize) -> bool {
    &&& before.dom() == after.dom()
    &&& forall|other: usize| #[trigger]
        before.contains_key(other) ==> {
            &&& after[other].deadline == before[other].deadline
            &&& after[other].value == before[other].value
            &&& other != id ==> after[other].location == before[other].location
        }
}

/// Appending a node keeps a list chained.
proof fn lemma_chain_push(
    nodes: Map<usize, Node>,
    queue: Seq<usize>,
    location: Location,
    list: List,
    id: usize,
)
    requires
        chained(nodes, queue, location, list),
        nodes.contains_key(id),
        nodes[id].location is None,
    ensures
        ({
            let after = nodes_after_push(nodes, location, list, id);
            let head = if list.head is None {
                Some(id)
            } else {
                list.head
            };
            &&& chained(after, queue.push(id), location, List { head, tail: Some(id) })
            &&& same_but_links(nodes, after, id)
            &&& after[id].location == Some(location)
            &&& list.tail matches Some(tail) ==> nodes.contains_key(tail)
            &&& forall|other: usize| #[trigger]
                nodes.contains_key(other) && other != id && nodes[other].location != Some(location)
                    ==> after[other] == nodes[other]
        }),
{
    let after = nodes_after_push(nodes, location, list, id);
    if queue.contains(id) {
        assert(nodes[queue[queue.index_of(id)]].location == Some(location));
    }
    let longer = queue.push(id);
    assert(after.dom() =~= nodes.dom());
    assert forall|i: int| 0 <= i < longer.len() implies after.contains_key(#[trigger] longer[i])
        && after[longer[i]].location == Some(location) by {
        if i < queue.len() {
            assert(longer[i] == queue[i]);
        }
    }
    assert forall|i: int| 0 <= i < longer.len() implies #[trigger] joined(after, longer, i) by {
        if i < queue.len() {
            assert(joined(nodes, queue, i));
            assert(longer[i] == queue[i]);
            assert(queue[i] != id);
            if i > 0 {
                assert(longer[i - 1] == queue[i - 1]);
            }
            if i + 1 < queue.len() {
                assert(longer[i + 1] == queue[i + 1]);
                assert(queue[i] != queue[queue.len() - 1]);
            }
        } else if i > 0 {
            assert(longer[i - 1] == queue[i - 1]);
        }
    }
}

/// Taking a node out keeps a list chained.
proof fn lemma_chain_remove(
    nodes: Map<usize, Node>,
    queue: Seq<usize>,
    location: Location,
    list: List,
    id: usize,
)
    requires
        chained(nodes, queue, location, list),
        nodes.contains_key(id),
        queue.contains(id),
    ensures
        ({
            let after = nodes_after_remove(nodes, id);
            let head = if nodes[id].prev is None {
                nodes[id].next
            } else {
                list.head
            };
            let tail = if nodes[id].next is None {
                nodes[id].prev
            } else {
                list.tail
            };
            &&& chained(after, model::without(queue, id), location, List { head, tail })
            &&& same_but_links(nodes, after, id)
            &&& after[id].location is None
            &&& nodes[id].prev matches Some(before) ==> nodes.contains_key(before)
            &&& nodes[id].next matches Some(after) ==> nodes.contains_key(after)
            &&& forall|other: usize| #[trigger]
                nodes.contains_key(other) && other != id && nodes[other].location != Some(location)
                    ==> after[other] == nodes[other]
        }),
{
    let after = nodes_after_remove(nodes, id);
    let at = queue.index_of(id);
    let rest = model::without(queue, id);
    assert(queue[at] == id);
    assert(joined(nodes, queue, at));
    assert(after.dom() =~= nodes.dom());
    assert forall|j: int| 0 <= j < queue.len() && j != at implies after[#[trigger] queue[j]] == (
    Node {
        prev: if j == at + 1 {
            nodes[id].prev
        } else {
            nodes[queue[j]].prev
        },
        next: if j == at - 1 {
            nodes[id].next
        } else {
            nodes[queue[j]].next
        },
        ..nodes[queue[j]]
    }) by {
        assert(at > 0 && j != at - 1 ==> queue[j] != queue[at - 1]);
        assert(at + 1 < queue.len() && j != at + 1 ==> queue[j] != queue[at + 1]);
    }
    assert forall|i: int| 0 <= i < rest.len() implies after.contains_key(#[trigger] rest[i])
        && after[rest[i]].location == Some(location) by {
        assert(rest[i] == queue[if i < at {
            i
        } else {
            i + 1
        }]);
    }
    assert forall|i: int| 0 <= i < rest.len() implies #[trigger] joined(after, rest, i) by {
        let j = if i < at {
            i
        } else {
            i + 1
        };
        assert(rest[i] == queue[j]);
        assert(joined(nodes, queue, j));
        if i > 0 {
            assert(rest[i - 1] == queue[if i - 1 < at {
                i - 1
            } else {
                i
            }]);
        }
        if i + 1 < rest.len() {
            assert(rest[i + 1] == queue[if i + 1 < at {
                i + 1
            } else {
                i + 2
            }]);
        }
    }
}

/// A wheel in which one list has gained or lost an entry is linked again once its queue has
/// followed.
proof fn lemma_relinked(before: Wheel, stored: Wheel, after: Wheel, location: Location, id: usize)
    requires
        before.linked(),
        model::valid_location(location),
        before.nodes().contains_key(id),
        same_but_links(before.nodes(), after.nodes(), id),
        forall|other: usize| #[trigger]
            before.nodes().contains_key(other) && other != id && before.nodes()[other].location
                != Some(location) ==> after.nodes()[other] == before.nodes()[other],
        after == (Wheel { queues: after.queues, ..stored }),
        after.queues@ == before.queues@.insert(location, after.queues@[location]),
        chained(after.nodes(), after.queues@[location], location, stored.list_at(location)),
        before.nodes()[id].location is None && after.nodes()[id].location == Some(location)
            && after.queues@[location] == before.queues@[location].push(id)
            || before.nodes()[id].location == Some(location) && after.nodes()[id].location is None
            && after.queues@[location] == model::without(before.queues@[location], id),
        forall|other: Location|
            #![trigger stored.list_at(other)]
            model::valid_location(other) && other != location ==> stored.list_at(other)
                == before.list_at(other),
        forall|deadline: Instant| #[trigger]
            stored.overflow@.contains_key(deadline.nanos) <==> if location == Location::Overflow(
                deadline,
            ) {
                after.queues@[location].len() > 0
            } else {
                before.overflow@.contains_key(deadline.nanos)
            },
        forall|level: usize, slot: usize|
            #![trigger model::bit(stored.occupancy@[level as int], slot as int)]
            level < LEVELS && slot < SLOTS ==> model::bit(
                stored.occupancy@[level as int],
                slot as int,
            ) == if location == (Location::Wheel { level, slot }) {
                after.queues@[location].len() > 0
            } else {
                model::bit(before.occupancy@[level as int], slot as int)
            },
    ensures
        after.linked(),
{
    assert(after.list_at(location) == stored.list_at(location));
    assert forall|other: Location| #![trigger after.queues@[other]]
        if model::valid_location(other) {
            chained(after.nodes(), after.queues@[other], other, after.list_at(other))
        } else {
            after.queues@[other].len() == 0
        } by {
        let queue = before.queues@[other];
        if model::valid_location(other) && other != location {
            assert(after.queues@[other] == queue);
            assert(chained(before.nodes(), queue, other, before.list_at(other)));
            assert(stored.list_at(other) == before.list_at(other));
            assert(after.list_at(other) == before.list_at(other));
            assert forall|i: int| #![trigger queue[i]] 0 <= i < queue.len() implies
                after.nodes().contains_key(queue[i]) && after.nodes()[queue[i]]
                == before.nodes()[queue[i]] by {
                assert(before.nodes()[queue[i]].location == Some(other));
            }
            assert forall|i: int| 0 <= i < queue.len() implies #[trigger] joined(
                after.nodes(),
                queue,
                i,
            ) by {
                assert(joined(before.nodes(), queue, i));
                assert(after.nodes()[queue[i]] == before.nodes()[queue[i]]);
            }
        }
    }
    assert forall|deadline: Instant| #[trigger]
        after.queues@[Location::Overflow(deadline)].len() > 0
        <==> after.overflow@.contains_key(deadline.nanos) by {
        let _ = before.queues@[Location::Overflow(deadline)];
        assert(stored.overflow@.contains_key(deadline.nanos)
            == after.overflow@.contains_key(deadline.nanos));
    }
    assert forall|level: usize, slot: usize|
        #![trigger after.queues@[Location::Wheel { level, slot }]]
        level < LEVELS && slot < SLOTS implies (model::bit(after.occupancy@[level as int], slot as int)
        <==> after.queues@[Location::Wheel { level, slot }].len() > 0) by {
        let _ = before.queues@[Location::Wheel { level, slot }];
        assert(model::bit(stored.occupancy@[level as int], slot as int) == model::bit(
            after.occupancy@[level as int],
            slot as int,
        ));
    }
    assert forall|other: usize| #[trigger] after.nodes().contains_key(other)
        && after.nodes()[other].location is Some implies model::valid_location(
        after.nodes()[other].location->0,
    ) && after.queues@[after.nodes()[other].location->0].contains(other) by {
        let place = after.nodes()[other].location->0;
        let queue = before.queues@[place];
        if other == id {
            assert(before.queues@[location].push(id).last() == id);
        } else {
            assert(before.nodes().contains_key(other));
            assert(queue.contains(other));
            if place == location {
                let j = queue.index_of(other);
                if before.nodes()[id].location is None {
                    assert(queue.push(id)[j] == other);
                } else {
                    assert(queue.contains(id));
                    let at = queue.index_of(id);
                    let i = if j < at {
                        j
                    } else {
                        j - 1
                    };
                    assert(model::without(queue, id)[i] == other);
                }
            }
        }
    }
}

/// Setting or clearing one bit changes no other one.
proof fn lemma_bit_updates(bits: u64, slot: u64)
    requires
        slot < 64,
    ensures
        forall|other: int|
            #![trigger model::bit(bits | (1u64 << slot), other)]
            0 <= other < 64 ==> model::bit(bits | (1u64 << slot), other) == (other == slot || model::bit(
                bits,
                other,
            )),
        forall|other: int|
            #![trigger model::bit(bits & !(1u64 << slot), other)]
            0 <= other < 64 ==> model::bit(bits & !(1u64 << slot), other) == (other != slot && model::bit(
                bits,
                other,
            )),
{
    assert forall|other: int| 0 <= other < 64 implies #[trigger] model::bit(bits | (1u64 << slot), other)
        == (other == slot || model::bit(bits, other)) by {
        let o = other as u64;
        assert(((bits | (1u64 << slot)) >> o) & 1u64 == 1u64 <==> (o == slot || (bits >> o) & 1u64
            == 1u64)) by (bit_vector)
            requires
                o < 64,
                slot < 64,
        ;
    }
    assert forall|other: int| 0 <= other < 64 implies #[trigger] model::bit(bits & !(1u64 << slot), other)
        == (other != slot && model::bit(bits, other)) by {
        let o = other as u64;
        assert(((bits & !(1u64 << slot)) >> o) & 1u64 == 1u64 <==> (o != slot && (bits >> o) & 1u64
            == 1u64)) by (bit_vector)
            requires
                o < 64,
                slot < 64,
        ;
    }
}

} // verus!
