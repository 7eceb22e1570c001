//! What a timer service is, apart from how it is stored.

use vstd::prelude::*;

use crate::time::entries::{Location, MAX_ENTRIES};
use crate::time::instant;
use crate::time::instant::Instant;
use crate::time::model::{Step, WheelModel};
use crate::time::observation;
use crate::time::queue;
use crate::time::queue::{Operation, RegisterOp};
use crate::time::shared::{ClockMode, SharedModel};
use crate::time::state::{Lifecycle, TimerState};
use crate::time::waker::{Released, Waker};

verus! {

/// How the reactor should wait before its next timer turn.
#[derive(Clone, Copy, Debug, PartialEq, Eq, Structural)]
#[must_use]
pub enum WaitPlan {
    /// Poll I/O without blocking, then turn the timer service again.
    Immediate,
    /// Wait until this deadline unless I/O or the registered waker interrupts the reactor first.
    Until(Instant),
    /// Wait indefinitely unless I/O or the registered waker interrupts the reactor.
    Indefinite,
}

/// The state of a timer service.
#[verifier::ext_equal]
pub struct ServiceModel<W> {
    /// The latest clock reading.
    pub last_now: Instant,
    /// Whether the next step prefers entries that were not due when they were classified.
    pub prefer_non_immediate: bool,
    /// The state shared with tasks.
    pub shared: SharedModel<W>,
    /// The timing wheel. An entry's value is the key of its timer.
    pub wheel: WheelModel,
}

/// A timer after it has been registered under a wheel entry.
pub open spec fn registered_state<W>(state: TimerState<W>, id: usize) -> TimerState<W> {
    TimerState { lifecycle: Lifecycle::Registered, slot: Some(id), ..state }
}

/// A timer after its wheel entry has fired `nanos` after the genesis.
pub open spec fn fired_state<W>(state: TimerState<W>, nanos: u64) -> TimerState<W> {
    TimerState {
        fired_nanos: nanos,
        slot: None,
        ..state.published(Lifecycle::Registered, Lifecycle::Fired)
    }
}

/// A timer after the service has closed.
pub open spec fn closed_state<W>(state: TimerState<W>) -> TimerState<W> {
    if state.lifecycle.is_terminal() {
        state
    } else {
        TimerState {
            lifecycle: Lifecycle::Closed,
            slot: None,
            waker: state.waker.ended(),
            ..state
        }
    }
}

/// A waker as a sequence of at most one.
pub open spec fn waker_seq<W>(waker: Option<Waker<W>>) -> Seq<Waker<W>> {
    match waker {
        Some(waker) => seq![waker],
        None => Seq::empty(),
    }
}

impl<W> ServiceModel<W> {
    /// A new service.
    pub open spec fn new(genesis: Instant, clock_mode: ClockMode) -> ServiceModel<W> {
        ServiceModel {
            last_now: genesis,
            prefer_non_immediate: true,
            shared: SharedModel::new(genesis, clock_mode),
            wheel: WheelModel::empty(genesis),
        }
    }

    /// The service after the clock has been read; a reading before the last one counts as the
    /// last one.
    pub open spec fn observe(self, now: Instant) -> ServiceModel<W> {
        let now = instant::later_of(now, self.last_now);
        ServiceModel {
            last_now: now,
            shared: SharedModel {
                observed: observation::encoded(self.shared.genesis, now),
                ..self.shared
            },
            ..self
        }
    }

    /// The service with another state of one timer.
    pub open spec fn with_timer(self, key: u64, state: TimerState<W>) -> ServiceModel<W> {
        ServiceModel {
            shared: SharedModel {
                timers: self.shared.timers.insert(key, state),
                ..self.shared
            },
            ..self
        }
    }

    /// The service without its oldest queued operation.
    pub open spec fn pop(self) -> ServiceModel<W> {
        ServiceModel {
            shared: SharedModel { queue: self.shared.queue.skip(1), ..self.shared },
            ..self
        }
    }

    /// The service after a submitted timer has been registered under wheel entry `id`.
    pub open spec fn register(self, operation: RegisterOp, id: usize) -> ServiceModel<W> {
        let linked = ServiceModel {
            wheel: self.wheel.attach(
                id,
                operation.deadline,
                operation.key,
                self.wheel.classify(operation.deadline, self.last_now),
            ),
            ..self
        };
        linked.with_timer(
            operation.key,
            registered_state(self.shared.timers[operation.key], id),
        )
    }

    /// The service after a submitted timer has been linked under wheel entry `id`, before its
    /// registration has been published.
    pub open spec fn link(self, operation: RegisterOp, id: usize) -> ServiceModel<W> {
        let linked = ServiceModel {
            wheel: self.wheel.attach(
                id,
                operation.deadline,
                operation.key,
                self.wheel.classify(operation.deadline, self.last_now),
            ),
            ..self
        };
        linked.with_timer(
            operation.key,
            TimerState { slot: Some(id), ..self.shared.timers[operation.key] },
        )
    }

    /// The service after the registration of a linked timer has been published. A timer that is
    /// no longer submitted is unlinked instead.
    pub open spec fn publish(self, key: u64, id: usize) -> ServiceModel<W> {
        if self.shared.lifecycle(key) is Submitted {
            self.with_timer(
                key,
                TimerState { lifecycle: Lifecycle::Registered, ..self.shared.timers[key] },
            )
        } else {
            let unlinked = ServiceModel { wheel: self.wheel.detach(id), ..self };
            if self.shared.timers.contains_key(key) {
                unlinked.with_timer(key, TimerState { slot: None, ..self.shared.timers[key] })
            } else {
                unlinked
            }
        }
    }

    /// Whether a wheel entry stands for a timer.
    pub open spec fn is_entry_of(self, id: usize, key: u64) -> bool {
        self.wheel.timers.contains_key(id) && self.wheel.timers[id].value == key
    }

    /// The service after a cancellation has been processed: the entry is unlinked, unless it
    /// stands for another timer by now.
    pub open spec fn cancel(self, key: u64, slot: usize) -> ServiceModel<W> {
        if self.is_entry_of(slot, key) {
            ServiceModel { wheel: self.wheel.detach(slot), ..self }
        } else {
            self
        }
    }

    /// Whether processing the oldest queued operation leads to `next`.
    ///
    /// A submitted timer is registered under a vacant wheel entry; a timer that was cancelled
    /// before is not.
    pub open spec fn processes(self, next: ServiceModel<W>) -> bool {
        let popped = self.pop();
        match self.shared.queue.operations[0] {
            Operation::Register(operation) => {
                if popped.shared.lifecycle(operation.key) is Submitted {
                    exists|id: usize| #[trigger]
                        popped.registers_under(operation, id, next)
                } else {
                    next == popped
                }
            },
            Operation::Cancel { key, slot } => next == popped.cancel(key, slot),
        }
    }

    /// Whether registering a timer under the vacant wheel entry `id` leads to `next`.
    pub open spec fn registers_under(
        self,
        operation: RegisterOp,
        id: usize,
        next: ServiceModel<W>,
    ) -> bool {
        !self.wheel.timers.contains_key(id) && next == self.register(operation, id)
    }

    /// Whether processing the oldest `count` queued operations, in order, leads to `last`.
    pub open spec fn drains(self, count: nat, last: ServiceModel<W>) -> bool
        decreases count,
    {
        if count == 0 {
            last == self
        } else {
            exists|next: ServiceModel<W>| #[trigger]
                self.processes(next) && next.drains((count - 1) as nat, last)
        }
    }

    /// The service after a wheel entry has fired. A timer that was cancelled in the meantime
    /// stays cancelled.
    pub open spec fn fire(self, id: usize) -> ServiceModel<W> {
        let key = self.wheel.timers[id].value;
        let unlinked = ServiceModel { wheel: self.wheel.detach(id), ..self };
        if self.shared.timers.contains_key(key) {
            unlinked.with_timer(
                key,
                fired_state(
                    self.shared.timers[key],
                    observation::encoded(self.shared.genesis, self.last_now),
                ),
            )
        } else {
            unlinked
        }
    }

    /// The waker that runs when a wheel entry fires.
    pub open spec fn woken_by_fire(self, id: usize) -> Option<Waker<W>> {
        let key = self.wheel.timers[id].value;
        if self.shared.lifecycle(key) is Registered {
            self.shared.timers[key].waker.taken()
        } else {
            None
        }
    }

    /// The next wheel step. The two kinds of entries take turns; when there is none of the
    /// preferred kind, the other one is served.
    pub open spec fn choose_step(self) -> (WheelModel, Option<Step>) {
        if self.prefer_non_immediate {
            let (wheel, step) = self.wheel.step_non_immediate(self.last_now);
            match step {
                Some(_) => (wheel, step),
                None => (wheel, wheel.step_immediate()),
            }
        } else {
            match self.wheel.step_immediate() {
                Some(step) => (self.wheel, Some(step)),
                None => self.wheel.step_non_immediate(self.last_now),
            }
        }
    }

    /// The service after a wheel step has been acted on.
    pub open spec fn apply_step(self, step: Step) -> ServiceModel<W> {
        match step {
            Step::Fire(id) => self.fire(id),
            Step::Examined => self,
        }
    }

    /// The waker that runs when a wheel step is acted on.
    pub open spec fn woken_by_step(self, step: Step) -> Option<Waker<W>> {
        match step {
            Step::Fire(id) => self.woken_by_fire(id),
            Step::Examined => None,
        }
    }

    /// The service with another wheel, which prefers the other kind of entries next.
    pub open spec fn stepped(self, wheel: WheelModel) -> ServiceModel<W> {
        ServiceModel { wheel, prefer_non_immediate: !self.prefer_non_immediate, ..self }
    }

    /// The service after at most `budget` steps.
    pub open spec fn run(self, budget: nat) -> ServiceModel<W>
        decreases budget,
    {
        if budget == 0 {
            self
        } else {
            let (wheel, step) = self.choose_step();
            match step {
                None => ServiceModel { wheel, ..self },
                Some(step) => self.stepped(wheel).apply_step(step).run((budget - 1) as nat),
            }
        }
    }

    /// The wakers that run because of at most `budget` steps, in order.
    pub open spec fn woken_by_run(self, budget: nat) -> Seq<Waker<W>>
        decreases budget,
    {
        if budget == 0 {
            Seq::empty()
        } else {
            let (wheel, step) = self.choose_step();
            match step {
                None => Seq::empty(),
                Some(step) => {
                    let stepped = self.stepped(wheel);
                    waker_seq(stepped.woken_by_step(step)) + stepped.apply_step(
                        step,
                    ).woken_by_run((budget - 1) as nat)
                },
            }
        }
    }

    /// The service after its wheel has advanced to the clock reading, if nothing is due.
    pub open spec fn settle(self) -> ServiceModel<W> {
        if self.wheel.has_due(self.last_now) {
            self
        } else {
            ServiceModel {
                wheel: self.wheel.advance(self.wheel.floor(self.last_now)),
                ..self
            }
        }
    }

    /// What tasks find after the service has closed: every delay that had not completed is
    /// closed.
    pub open spec fn closed(self) -> SharedModel<W> {
        SharedModel {
            closed: true,
            queue: self.shared.queue.closed(),
            timers: self.shared.timers.map_values(|state: TimerState<W>| closed_state(state)),
            ..self.shared
        }
    }

    /// The waker that runs when a timer in state `from` is closed.
    pub open spec fn woken_by_close(self, key: u64, from: Lifecycle) -> Option<Waker<W>> {
        if self.shared.lifecycle(key) == from {
            self.shared.timers[key].waker.taken()
        } else {
            None
        }
    }

    /// The wakers that run when the registered timers among `keys` are closed, in order.
    pub open spec fn woken_by_drain(self, keys: Seq<u64>) -> Seq<Waker<W>>
        decreases keys.len(),
    {
        if keys.len() == 0 {
            Seq::empty()
        } else {
            self.woken_by_drain(keys.drop_last()) + waker_seq(
                self.woken_by_close(keys.last(), Lifecycle::Registered),
            )
        }
    }

    /// The wakers that run when the delays whose registration is among `operations` are closed,
    /// in order.
    pub open spec fn woken_by_discard(self, operations: Seq<Operation>) -> Seq<Waker<W>>
        decreases operations.len(),
    {
        if operations.len() == 0 {
            Seq::empty()
        } else {
            self.woken_by_discard(operations.drop_last()) + match operations.last() {
                Operation::Register(operation) => waker_seq(
                    self.woken_by_close(operation.key, Lifecycle::Submitted),
                ),
                Operation::Cancel { .. } => Seq::empty(),
            }
        }
    }

    /// What the reactor has to do before its next turn.
    pub open spec fn wait_plan(self) -> WaitPlan {
        match self.wheel.next_poll_at(self.last_now) {
            Some(deadline) => if deadline.nanos <= self.last_now.nanos
                || !self.shared.queue.idle() {
                WaitPlan::Immediate
            } else {
                WaitPlan::Until(deadline)
            },
            None => if !self.shared.queue.idle() {
                WaitPlan::Immediate
            } else {
                WaitPlan::Indefinite
            },
        }
    }

    /// Whether timer work is left to do at the latest clock reading.
    pub open spec fn is_busy(self) -> bool {
        self.wheel.next_poll_at(self.last_now) matches Some(deadline) && deadline.nanos
            <= self.last_now.nanos
    }

    /// The service after the reactor has prepared to wait. Its waker is registered only when it
    /// may wait.
    pub open spec fn prepared(self, waker: Waker<W>) -> ServiceModel<W> {
        if self.is_busy() {
            self
        } else {
            ServiceModel {
                shared: SharedModel { queue: self.shared.queue.armed(waker), ..self.shared },
                ..self
            }
        }
    }

    /// The wakers that are left over when the reactor has prepared to wait.
    pub open spec fn released_by_prepare(self, waker: Waker<W>) -> Released<W> {
        if self.is_busy() {
            Released { previous: None, unused: Some(waker) }
        } else {
            self.shared.queue.released_by_arm(waker)
        }
    }

    /// Whether there is room for an entry for each of the oldest operations, of which `limit` are
    /// processed at most.
    pub open spec fn has_room(self, limit: int) -> bool {
        self.wheel.timers.dom().len() + self.shared.queue.batch(limit) <= MAX_ENTRIES
    }

    /// Whether timers and wheel entries belong together.
    ///
    /// A registered timer has an entry; an entry stands for a registered timer, or for one that
    /// was dropped and whose cancellation is queued.
    pub open spec fn linked(self) -> bool {
        &&& forall|key: u64| #[trigger]
            self.shared.timers.contains_key(key) && self.shared.timers[key].lifecycle is Registered
                ==> self.is_entry_of(self.shared.timers[key].slot->0, key)
        &&& forall|id: usize| #[trigger]
            self.wheel.timers.contains_key(id) ==> self.accounted(id)
    }

    /// Whether a wheel entry stands for a registered timer, or for one that was dropped.
    pub open spec fn accounted(self, id: usize) -> bool {
        let key = self.wheel.timers[id].value;
        &&& key < self.shared.next_key
        &&& !queue::awaits(self.shared.queue.operations, key)
        &&& if self.shared.timers.contains_key(key) {
            &&& self.shared.timers[key].lifecycle is Registered
            &&& self.shared.timers[key].slot == Some(id)
            &&& self.shared.timers[key].deadline@ == self.wheel.timers[id].deadline
        } else {
            self.shared.queue.accepting ==> exists|i: int| #[trigger]
                queue::cancels(self.shared.queue.operations, i, key, id)
        }
    }

    /// The invariant of a timer service.
    pub open spec fn wf(self) -> bool {
        &&& self.shared.wf()
        &&& !self.shared.closed
        &&& self.shared.genesis == self.wheel.genesis
        &&& self.shared.genesis.nanos <= self.last_now.nanos
        &&& observation::publishable(self.shared.genesis, self.last_now)
        &&& self.last_now == self.shared.published()
        &&& self.wheel.wf()
        &&& self.wheel.reached(self.last_now)
        &&& self.linked()
    }
}

// What every step keeps.

impl<W> ServiceModel<W> {
    /// A new service satisfies the invariant.
    pub proof fn lemma_new(genesis: Instant, clock_mode: ClockMode)
        requires
            WheelModel::empty(genesis).wf(),
            SharedModel::<W>::new(genesis, clock_mode).wf(),
        ensures
            ServiceModel::<W>::new(genesis, clock_mode).wf(),
    {
    }

    /// Preparing to wait keeps the invariant.
    pub proof fn lemma_prepared(self, waker: Waker<W>)
        requires
            self.wf(),
        ensures
            self.prepared(waker).wf(),
    {
        let after = self.prepared(waker);
        assert forall|key: u64| #[trigger] after.shared.timers.contains_key(key)
            && after.shared.timers[key].lifecycle is Registered implies after.is_entry_of(
            after.shared.timers[key].slot->0,
            key,
        ) by {
            assert(self.is_entry_of(self.shared.timers[key].slot->0, key));
        }
        assert forall|id: usize| #[trigger] after.wheel.timers.contains_key(id) implies
            after.accounted(id) by {
            assert(self.accounted(id));
        }
    }

    /// Reading the clock keeps the invariant.
    pub proof fn lemma_observe(self, now: Instant)
        requires
            self.wf(),
            observation::publishable(self.shared.genesis, now),
        ensures
            self.observe(now).wf(),
    {
        let now = instant::later_of(now, self.last_now);
        let after = self.observe(now);
        self.wheel.lemma_reached_later(self.last_now, now);
        assert forall|id: usize| #[trigger] after.wheel.timers.contains_key(id) implies
            after.accounted(id) by {
            assert(self.accounted(id));
        }
        assert forall|key: u64| #[trigger] after.shared.timers.contains_key(key)
            && after.shared.timers[key].lifecycle is Registered implies after.is_entry_of(
            after.shared.timers[key].slot->0,
            key,
        ) by {
            assert(self.is_entry_of(self.shared.timers[key].slot->0, key));
        }
    }

    /// What the queue still asks for when its oldest operation has been taken out.
    proof fn lemma_pop(self)
        requires
            self.shared.queue.operations.len() > 0,
        ensures
            forall|i: int, key: u64| #[trigger]
                queue::registers(self.pop().shared.queue.operations, i, key) ==> queue::registers(
                    self.shared.queue.operations,
                    i + 1,
                    key,
                ),
            forall|i: int, key: u64, slot: usize| #[trigger]
                queue::cancels(self.pop().shared.queue.operations, i, key, slot)
                    ==> queue::cancels(self.shared.queue.operations, i + 1, key, slot),
            forall|i: int, key: u64| #[trigger]
                queue::registers(self.shared.queue.operations, i, key) && i != 0
                    ==> queue::registers(self.pop().shared.queue.operations, i - 1, key),
            forall|i: int, key: u64, slot: usize| #[trigger]
                queue::cancels(self.shared.queue.operations, i, key, slot) && i != 0
                    ==> queue::cancels(self.pop().shared.queue.operations, i - 1, key, slot),
    {
    }

    /// Processing an operation keeps the invariant.
    pub proof fn lemma_processes(self, next: ServiceModel<W>)
        requires
            self.wf(),
            self.shared.queue.operations.len() > 0,
            self.processes(next),
        ensures
            next.wf(),
            next.last_now == self.last_now,
            next.shared.queue == self.shared.queue.skip(1),
    {
        let popped = self.pop();
        let before = self.shared.queue.operations;
        let after = popped.shared.queue.operations;
        self.lemma_pop();
        match before[0] {
            Operation::Register(operation) => {
                assert(queue::registers(before, 0, operation.key));
                if popped.shared.lifecycle(operation.key) is Submitted {
                    let id = choose|id: usize| #[trigger]
                        popped.registers_under(operation, id, next);
                    assert(popped.registers_under(operation, id, next));
                    self.lemma_register(operation, id);
                } else {
                    self.lemma_pop_dead(operation);
                }
            },
            Operation::Cancel { key, slot } => {
                assert(queue::cancels(before, 0, key, slot));
                self.lemma_cancel(key, slot);
            },
        }
    }

    /// Processing an operation adds at most one entry.
    pub proof fn lemma_processes_entries(self, next: ServiceModel<W>)
        requires
            self.wf(),
            self.shared.queue.operations.len() > 0,
            self.processes(next),
        ensures
            next.wheel.timers.dom().len() <= self.wheel.timers.dom().len() + 1,
    {
        let popped = self.pop();
        match self.shared.queue.operations[0] {
            Operation::Register(operation) => {
                if popped.shared.lifecycle(operation.key) is Submitted {
                    let id = choose|id: usize| #[trigger]
                        popped.registers_under(operation, id, next);
                    assert(popped.registers_under(operation, id, next));
                    assert(next.wheel.timers.dom() =~= self.wheel.timers.dom().insert(id));
                }
            },
            Operation::Cancel { key, slot } => {
                if self.is_entry_of(slot, key) {
                    assert(next.wheel.timers.dom() =~= self.wheel.timers.dom().remove(slot));
                }
            },
        }
    }

    /// Registering a timer keeps the invariant.
    proof fn lemma_register(self, operation: RegisterOp, id: usize)
        requires
            self.wf(),
            self.shared.queue.operations.len() > 0,
            self.shared.queue.operations[0] == Operation::Register(operation),
            self.shared.lifecycle(operation.key) is Submitted,
            !self.wheel.timers.contains_key(id),
        ensures
            self.pop().register(operation, id).wf(),
    {
        let next = self.pop().register(operation, id);
        let before = self.shared.queue.operations;
        let after = next.shared.queue.operations;
        let key = operation.key;
        self.lemma_pop();
        assert(queue::registers(before, 0, key));
        self.wheel.lemma_classify(operation.deadline, key, self.last_now);
        self.wheel.lemma_attach(
            id,
            operation.deadline,
            key,
            self.wheel.classify(operation.deadline, self.last_now),
        );
        self.wheel.lemma_attach_reached(id, operation.deadline, key, self.last_now);
        assert(!queue::awaits(after, key)) by {
            if queue::awaits(after, key) {
                let i = choose|i: int| #[trigger] queue::registers(after, i, key);
                assert(queue::registers(before, i + 1, key));
            }
        }
        assert(next.shared.wf()) by {
            assert forall|k: u64| #[trigger] next.shared.timers.contains_key(k) implies
                self.shared.timers.contains_key(k) by {}
            assert forall|k: u64| #[trigger] next.shared.timers.contains_key(k)
                && next.shared.timers[k].lifecycle is Submitted implies queue::awaits(after, k) by {
                assert(self.shared.timers.contains_key(k));
                let i = choose|i: int| #[trigger] queue::registers(before, i, k);
                assert(queue::registers(after, i - 1, k));
            }
        }
        assert forall|k: u64| #[trigger] next.shared.timers.contains_key(k)
            && next.shared.timers[k].lifecycle is Registered implies next.is_entry_of(
            next.shared.timers[k].slot->0,
            k,
        ) by {
            if k != key {
                assert(self.shared.timers.contains_key(k));
            }
        }
        assert forall|other: usize| #[trigger] next.wheel.timers.contains_key(other) implies
            next.accounted(other) by {
            if other != id {
                assert(self.accounted(other));
                let k = self.wheel.timers[other].value;
                if self.shared.queue.accepting && !self.shared.timers.contains_key(k) {
                    let i = choose|i: int| #[trigger] queue::cancels(before, i, k, other);
                    assert(queue::cancels(after, i - 1, k, other));
                }
                if queue::awaits(after, k) {
                    let i = choose|i: int| #[trigger] queue::registers(after, i, k);
                    assert(queue::registers(before, i + 1, k));
                }
            }
        }
    }

    /// Skipping the registration of a timer that does not wait for it keeps the invariant.
    proof fn lemma_pop_dead(self, operation: RegisterOp)
        requires
            self.wf(),
            self.shared.queue.operations.len() > 0,
            self.shared.queue.operations[0] == Operation::Register(operation),
            !(self.shared.lifecycle(operation.key) is Submitted),
        ensures
            self.pop().wf(),
    {
        let next = self.pop();
        let before = self.shared.queue.operations;
        let after = next.shared.queue.operations;
        self.lemma_pop();
        assert(next.shared.wf()) by {
            assert forall|k: u64| #[trigger] next.shared.timers.contains_key(k)
                && next.shared.timers[k].lifecycle is Submitted implies queue::awaits(after, k) by {
                assert(self.shared.timers.contains_key(k));
                let i = choose|i: int| #[trigger] queue::registers(before, i, k);
                assert(queue::registers(after, i - 1, k));
            }
        }
        assert forall|k: u64| #[trigger] next.shared.timers.contains_key(k)
            && next.shared.timers[k].lifecycle is Registered implies next.is_entry_of(
            next.shared.timers[k].slot->0,
            k,
        ) by {
            assert(self.is_entry_of(self.shared.timers[k].slot->0, k));
        }
        assert forall|other: usize| #[trigger] next.wheel.timers.contains_key(other) implies
            next.accounted(other) by {
            assert(self.accounted(other));
            let k = self.wheel.timers[other].value;
            if self.shared.queue.accepting && !self.shared.timers.contains_key(k) {
                let i = choose|i: int| #[trigger] queue::cancels(before, i, k, other);
                assert(queue::cancels(after, i - 1, k, other));
            }
            if queue::awaits(after, k) {
                let i = choose|i: int| #[trigger] queue::registers(after, i, k);
                assert(queue::registers(before, i + 1, k));
            }
        }
    }

    /// Processing a cancellation keeps the invariant.
    proof fn lemma_cancel(self, key: u64, slot: usize)
        requires
            self.wf(),
            self.shared.queue.operations.len() > 0,
            self.shared.queue.operations[0] == (Operation::Cancel { key, slot }),
        ensures
            self.pop().cancel(key, slot).wf(),
    {
        let next = self.pop().cancel(key, slot);
        let before = self.shared.queue.operations;
        let after = next.shared.queue.operations;
        self.lemma_pop();
        assert(queue::cancels(before, 0, key, slot));
        if self.is_entry_of(slot, key) {
            self.wheel.lemma_detach(slot);
        }
        assert(next.shared.wf()) by {
            assert forall|k: u64| #[trigger] next.shared.timers.contains_key(k)
                && next.shared.timers[k].lifecycle is Submitted implies queue::awaits(after, k) by {
                assert(self.shared.timers.contains_key(k));
                let i = choose|i: int| #[trigger] queue::registers(before, i, k);
                assert(queue::registers(after, i - 1, k));
            }
        }
        assert forall|k: u64| #[trigger] next.shared.timers.contains_key(k)
            && next.shared.timers[k].lifecycle is Registered implies next.is_entry_of(
            next.shared.timers[k].slot->0,
            k,
        ) by {
            assert(self.is_entry_of(self.shared.timers[k].slot->0, k));
        }
        assert forall|other: usize| #[trigger] next.wheel.timers.contains_key(other) implies
            next.accounted(other) by {
            assert(self.accounted(other));
            let k = self.wheel.timers[other].value;
            if self.shared.queue.accepting && !self.shared.timers.contains_key(k) {
                let i = choose|i: int| #[trigger] queue::cancels(before, i, k, other);
                assert(queue::cancels(after, i - 1, k, other));
            }
            if queue::awaits(after, k) {
                let i = choose|i: int| #[trigger] queue::registers(after, i, k);
                assert(queue::registers(before, i + 1, k));
            }
        }
    }

    /// Firing an entry keeps the invariant.
    pub proof fn lemma_fire(self, id: usize)
        requires
            self.wf(),
            self.wheel.timers.contains_key(id),
            self.wheel.timers[id].deadline.elapsed(self.last_now),
        ensures
            self.fire(id).wf(),
    {
        let next = self.fire(id);
        let key = self.wheel.timers[id].value;
        assert(self.accounted(id));
        self.wheel.lemma_detach(id);
        assert forall|k: u64| #[trigger] next.shared.timers.contains_key(k) implies
            self.shared.timers.contains_key(k) by {}
        assert forall|k: u64| #[trigger] next.shared.timers.contains_key(k)
            && next.shared.timers[k].lifecycle is Registered implies next.is_entry_of(
            next.shared.timers[k].slot->0,
            k,
        ) by {
            assert(self.is_entry_of(self.shared.timers[k].slot->0, k));
        }
        assert forall|other: usize| #[trigger] next.wheel.timers.contains_key(other) implies
            next.accounted(other) by {
            assert(self.accounted(other));
        }
    }

    /// A wheel with the same entries, wherever they lie, keeps the invariant.
    pub proof fn lemma_same_entries(self, next: ServiceModel<W>)
        requires
            self.wf(),
            next.shared == self.shared,
            next.last_now == self.last_now,
            next.wheel.genesis == self.wheel.genesis,
            next.wheel.wf(),
            next.wheel.reached(self.last_now),
            next.wheel.timers.dom() == self.wheel.timers.dom(),
            forall|id: usize| #[trigger]
                next.wheel.timers.contains_key(id) ==> next.wheel.timers[id].value
                    == self.wheel.timers[id].value && next.wheel.timers[id].deadline
                    == self.wheel.timers[id].deadline,
        ensures
            next.wf(),
    {
        assert forall|id: usize| next.wheel.timers.contains_key(id)
            == #[trigger] self.wheel.timers.contains_key(id) by {
            assert(next.wheel.timers.dom().contains(id) == self.wheel.timers.dom().contains(id));
        }
        assert forall|k: u64| #[trigger] next.shared.timers.contains_key(k)
            && next.shared.timers[k].lifecycle is Registered implies next.is_entry_of(
            next.shared.timers[k].slot->0,
            k,
        ) by {
            assert(self.is_entry_of(self.shared.timers[k].slot->0, k));
        }
        assert forall|other: usize| #[trigger] next.wheel.timers.contains_key(other) implies
            next.accounted(other) by {
            assert(self.accounted(other));
        }
    }

    /// A step keeps the invariant and fires only what is due; without one, nothing is left to do.
    pub proof fn lemma_choose_step(self)
        requires
            self.wf(),
        ensures
            ({
                let (wheel, step) = self.choose_step();
                &&& self.stepped(wheel).wf()
                &&& (ServiceModel { wheel, ..self }).wf()
                &&& match step {
                    Some(Step::Fire(id)) => {
                        &&& wheel.timers == self.wheel.timers
                        &&& wheel.timers.contains_key(id)
                        &&& wheel.timers[id].deadline.elapsed(self.last_now)
                    },
                    Some(Step::Examined) => self.wheel.lowers_one(wheel),
                    None => {
                        &&& wheel.timers == self.wheel.timers
                        &&& !wheel.has_due(self.last_now)
                    },
                }
            }),
    {
        let (wheel, step) = self.choose_step();
        let immediate = self.wheel.queues[Location::Immediate];
        if immediate.len() > 0 {
            assert(self.wheel.timers.contains_key(self.wheel.queues[Location::Immediate][0]));
        }
        self.wheel.lemma_step_non_immediate(self.last_now);
        self.lemma_same_entries(self.stepped(wheel));
        self.lemma_same_entries(ServiceModel { wheel, ..self });
    }

    /// Acting on a step keeps the invariant.
    pub proof fn lemma_step(self)
        requires
            self.wf(),
            self.choose_step().1 is Some,
        ensures
            ({
                let (wheel, step) = self.choose_step();
                self.stepped(wheel).apply_step(step->0).wf()
            }),
    {
        let (wheel, step) = self.choose_step();
        self.lemma_choose_step();
        if let Some(Step::Fire(id)) = step {
            self.stepped(wheel).lemma_fire(id);
        }
    }

    /// Steps keep the invariant, the clock reading and the queue.
    pub proof fn lemma_run(self, budget: nat)
        requires
            self.wf(),
        ensures
            self.run(budget).wf(),
            self.run(budget).last_now == self.last_now,
            self.run(budget).shared.queue == self.shared.queue,
        decreases budget,
    {
        if budget > 0 {
            let (wheel, step) = self.choose_step();
            self.lemma_choose_step();
            if let Some(step) = step {
                self.lemma_step();
                self.stepped(wheel).apply_step(step).lemma_run((budget - 1) as nat);
            }
        }
    }

    /// Advancing the wheel when nothing is due keeps the invariant.
    pub proof fn lemma_settle(self)
        requires
            self.wf(),
        ensures
            self.settle().wf(),
    {
        if !self.wheel.has_due(self.last_now) {
            self.wheel.lemma_advance(self.wheel.floor(self.last_now));
            self.lemma_same_entries(self.settle());
        }
    }

    /// Processing operations adds at most one entry for each.
    pub proof fn lemma_drains_entries(self, count: nat, last: ServiceModel<W>)
        requires
            self.wf(),
            count <= self.shared.queue.operations.len(),
            self.drains(count, last),
        ensures
            last.wheel.timers.dom().len() <= self.wheel.timers.dom().len() + count,
        decreases count,
    {
        if count > 0 {
            let next = choose|next: ServiceModel<W>| #[trigger]
                self.processes(next) && next.drains((count - 1) as nat, last);
            self.lemma_processes(next);
            self.lemma_processes_entries(next);
            next.lemma_drains_entries((count - 1) as nat, last);
        }
    }

    /// Processing operations keeps the invariant.
    pub proof fn lemma_drains(self, count: nat, last: ServiceModel<W>)
        requires
            self.wf(),
            count <= self.shared.queue.operations.len(),
            self.drains(count, last),
        ensures
            last.wf(),
            last.last_now == self.last_now,
            last.shared.queue == self.shared.queue.skip(count as int),
        decreases count,
    {
        if count == 0 {
            assert(self.shared.queue.operations.skip(0) =~= self.shared.queue.operations);
        } else {
            let next = choose|next: ServiceModel<W>| #[trigger]
                self.processes(next) && next.drains((count - 1) as nat, last);
            self.lemma_processes(next);
            next.lemma_drains((count - 1) as nat, last);
            assert(self.shared.queue.operations.skip(1).skip(count - 1)
                =~= self.shared.queue.operations.skip(count as int));
        }
    }

    /// Closing leaves the shared state in order.
    pub proof fn lemma_closed(self)
        requires
            self.wf(),
        ensures
            self.closed().wf(),
    {
        assert forall|key: u64| #[trigger] self.closed().timers.contains_key(key) implies
            self.shared.timers.contains_key(key) by {}
    }

    /// The keys of the wheel entries are those of registered timers, once each, or of timers that
    /// were given up.
    pub proof fn lemma_drained_keys(self, keys: Seq<u64>)
        requires
            self.wf(),
            self.wheel.is_drain(keys),
        ensures
            forall|i: int, j: int|
                0 <= i < j < keys.len() && self.shared.timers.contains_key(keys[i]) ==> keys[i]
                    != keys[j],
            forall|i: int|
                0 <= i < keys.len() && self.shared.timers.contains_key(#[trigger] keys[i])
                    ==> self.shared.timers[keys[i]].lifecycle is Registered,
    {
        let ids = choose|ids: Seq<usize>| #[trigger]
            self.wheel.lists_ids(ids) && keys == ids.map_values(
                |id: usize| self.wheel.timers[id].value,
            );
        assert forall|i: int| 0 <= i < keys.len() implies self.accounted(ids[i])
            && #[trigger] keys[i] == self.wheel.timers[ids[i]].value by {
            assert(self.wheel.timers.contains_key(ids[i]));
        }
        assert forall|i: int, j: int|
            0 <= i < j < keys.len() && self.shared.timers.contains_key(keys[i]) implies keys[i]
            != keys[j] by {
            assert(self.accounted(ids[i]) && self.accounted(ids[j]));
        }
    }

    /// A registered timer is among those of the wheel entries.
    pub proof fn lemma_registered_is_drained(self, key: u64, keys: Seq<u64>)
        requires
            self.wf(),
            self.wheel.is_drain(keys),
            self.shared.timers.contains_key(key),
            self.shared.timers[key].lifecycle is Registered,
        ensures
            keys.contains(key),
    {
        let ids = choose|ids: Seq<usize>| #[trigger]
            self.wheel.lists_ids(ids) && keys == ids.map_values(
                |id: usize| self.wheel.timers[id].value,
            );
        let id = self.shared.timers[key].slot->0;
        assert(self.is_entry_of(id, key));
        assert(ids.contains(id));
        assert(keys[ids.index_of(id)] == key);
    }

    /// Which timers wait for one of the oldest operations.
    pub proof fn lemma_discarded(self, done: int)
        requires
            self.wf(),
            0 <= done < self.shared.queue.operations.len(),
        ensures
            forall|key: u64| #[trigger]
                queue::awaits(self.shared.queue.operations.take(done + 1), key) <==> (
                queue::awaits(self.shared.queue.operations.take(done), key) || queue::registers(
                    self.shared.queue.operations,
                    done,
                    key,
                )),
            forall|key: u64|
                queue::registers(self.shared.queue.operations, done, key) ==> !#[trigger]
                    queue::awaits(self.shared.queue.operations.take(done), key),
    {
        let operations = self.shared.queue.operations;
        let before = operations.take(done);
        let after = operations.take(done + 1);
        assert forall|key: u64| #[trigger] queue::awaits(after, key) <==> (queue::awaits(
            before,
            key,
        ) || queue::registers(operations, done, key)) by {
            if queue::awaits(before, key) {
                let i = choose|i: int| #[trigger] queue::registers(before, i, key);
                assert(queue::registers(after, i, key));
            }
            if queue::registers(operations, done, key) {
                assert(queue::registers(after, done, key));
            }
            if queue::awaits(after, key) {
                let i = choose|i: int| #[trigger] queue::registers(after, i, key);
                if i < done {
                    assert(queue::registers(before, i, key));
                } else {
                    assert(queue::registers(operations, done, key));
                }
            }
        }
        assert forall|key: u64| queue::registers(operations, done, key) implies !#[trigger]
            queue::awaits(before, key) by {
            if queue::awaits(before, key) {
                let i = choose|i: int| #[trigger] queue::registers(before, i, key);
                assert(queue::registers(operations, i, key));
            }
        }
    }
}

} // verus!
