//! The reactor-owned timer service.

use std::collections::VecDeque;

use vstd::prelude::*;

use crate::time::budget::TurnBudget;
use crate::time::entries::MAX_ENTRIES;
use crate::time::instant;
use crate::time::instant::{Instant, LAST_NANOS};
use crate::time::model::Step;
use crate::time::observation;
use crate::time::queue;
use crate::time::queue::{Operation, QueueModel, RegisterOp};
use crate::time::service_laws;
use crate::time::service_model;
use crate::time::service_model::{ServiceModel, WaitPlan};
use crate::time::shared::{ClockMode, Shared, SharedModel};
use crate::time::state::{Lifecycle, TimerState};
use crate::time::turn_laws;
use crate::time::waker::{Released, Waker};
use crate::time::wheel::Wheel;

verus! {

/// Reactor-owned timer service.
///
/// The service starts no thread and performs no I/O. A reactor advances it with
/// [`turn`](TimerService::turn), then obtains a parking decision through
/// [`prepare_wait`](TimerService::prepare_wait).
pub struct TimerService<W> {
    /// The latest clock reading.
    pub last_now: Instant,
    /// Operations that have been taken out of the queue and not processed; empty between turns.
    pub operation_batch: VecDeque<Operation>,
    /// Whether the next step prefers entries that were not due when they were classified.
    pub prefer_non_immediate: bool,
    /// The state shared with tasks.
    pub shared: Shared<W>,
    /// The timing wheel. An entry's value is the key of its timer.
    pub wheel: Wheel,
}

/// What closing a service left to do.
pub struct Closing<W> {
    /// The wakers to run, in order.
    pub wakers: Vec<Waker<W>>,
    /// The reactor's waker, which need not run.
    pub reactor_waker: Option<Waker<W>>,
}

impl<W> View for TimerService<W> {
    type V = ServiceModel<W>;

    open spec fn view(&self) -> ServiceModel<W> {
        ServiceModel {
            last_now: self.last_now,
            prefer_non_immediate: self.prefer_non_immediate,
            shared: self.shared@,
            wheel: self.wheel@,
        }
    }
}

impl<W> TimerService<W> {
    /// The invariant of a timer service.
    pub open spec fn wf(self) -> bool {
        &&& self.operation_batch@.len() == 0
        &&& self.wheel.wf()
        &&& self@.wf()
    }

    /// The service, with the operations that have been taken out still at the head of the queue.
    spec fn working(self) -> ServiceModel<W> {
        ServiceModel {
            shared: SharedModel {
                queue: QueueModel {
                    operations: self.operation_batch@ + self.shared@.queue.operations,
                    ..self.shared@.queue
                },
                ..self.shared@
            },
            ..self@
        }
    }

    /// A service that follows the system clock, which reads `wall` now.
    ///
    /// Handles observe the later of the system clock and the last published reading, even between
    /// turns. Registered timers still complete only during a turn.
    pub fn new(wall: Instant) -> (service: TimerService<W>)
        ensures
            service.wf(),
            service@ == ServiceModel::<W>::new(wall, ClockMode::System),
            service@.last_now == wall,
            service@.shared.genesis == wall,
            service@.shared.clock_mode is System,
            service@.shared.observed == 0,
            service@.shared.timers == Map::<u64, TimerState<W>>::empty(),
            service@.shared.queue.operations.len() == 0,
            service@.shared.queue.accepting,
            service@.shared.queue.reactor_waker is None,
            !service@.shared.closed,
            service@.wheel.genesis == wall,
            service@.wheel.timers.dom() == Set::<usize>::empty(),
    {
        Self::with_clock(wall, ClockMode::System)
    }

    /// A deterministic service whose handle clock advances only through turns.
    pub fn new_at(genesis: Instant) -> (service: TimerService<W>)
        ensures
            service.wf(),
            service@ == ServiceModel::<W>::new(genesis, ClockMode::Driven),
            service@.last_now == genesis,
            service@.shared.genesis == genesis,
            service@.shared.clock_mode is Driven,
            service@.shared.observed == 0,
            service@.shared.timers == Map::<u64, TimerState<W>>::empty(),
            service@.shared.queue.operations.len() == 0,
            service@.shared.queue.accepting,
            service@.shared.queue.reactor_waker is None,
            !service@.shared.closed,
            service@.wheel.genesis == genesis,
            service@.wheel.timers.dom() == Set::<usize>::empty(),
    {
        Self::with_clock(genesis, ClockMode::Driven)
    }

    /// A service whose clock starts at `genesis`.
    fn with_clock(genesis: Instant, clock_mode: ClockMode) -> (service: TimerService<W>)
        ensures
            service.wf(),
            service@ == ServiceModel::<W>::new(genesis, clock_mode),
    {
        let service = TimerService {
            last_now: genesis,
            operation_batch: VecDeque::new(),
            prefer_non_immediate: true,
            shared: Shared::new(genesis, clock_mode),
            wheel: Wheel::new(genesis),
        };
        proof {
            ServiceModel::<W>::lemma_new(genesis, clock_mode);
        }
        service
    }

    /// Prepares the reactor to wait after a turn.
    ///
    /// Registering the reactor's waker and choosing the deadline is one step, so no operation
    /// that arrives in between goes unnoticed. The reactor polls I/O once using the returned
    /// plan, dispatches ready I/O, and then turns the service again.
    pub fn prepare_wait(&mut self, waker: Waker<W>) -> (prepared: (WaitPlan, Released<W>))
        requires
            old(self).wf(),
        ensures
            final(self).wf(),
            prepared.0 == old(self)@.wait_plan(),
            final(self)@ == old(self)@.prepared(waker),
            prepared.1 == old(self)@.released_by_prepare(waker),
            // A plan to wait is neither late nor early.
            prepared.0 is Immediate <==> old(self)@.wheel.has_due(old(self)@.last_now) || old(
                self,
            )@.shared.queue.operations.len() > 0 || !old(self)@.shared.queue.accepting,
            prepared.0 matches WaitPlan::Until(instant) ==> old(self)@.last_now.nanos
                < instant.nanos && old(self)@.wheel.has_due(instant) && (forall|other: Instant|
                old(self)@.last_now.nanos <= other.nanos < instant.nanos && other.nanos
                    <= LAST_NANOS ==> !#[trigger] old(self)@.wheel.has_due(other)),
            prepared.0 is Indefinite ==> (forall|other: Instant|
                old(self)@.last_now.nanos <= other.nanos <= LAST_NANOS ==> !#[trigger] old(
                    self,
                )@.wheel.has_due(other)),
            // Only the reactor's waker changes.
            final(self)@.wheel == old(self)@.wheel,
            final(self)@.shared.timers == old(self)@.shared.timers,
            final(self)@.shared.queue.operations == old(self)@.shared.queue.operations,
            !(prepared.0 is Immediate) ==> (final(self)@.shared.queue.reactor_waker is Some
                && final(self)@.shared.queue.reactor_waker->0.identity == waker.identity),
    {
        let next: Option<Instant> = self.wheel.next_poll_at(self.last_now);
        proof {
            self@.lemma_prepared(waker);
            service_laws::law_reactor_waits_only_when_idle(self@);
            if !(self@.wait_plan() is Immediate) {
                assert forall|other: Instant|
                    self@.last_now.nanos <= other.nanos <= LAST_NANOS && (
                    self@.wait_plan() matches WaitPlan::Until(instant) ==> other.nanos
                        < instant.nanos) implies !#[trigger] self@.wheel.has_due(other) by {
                    turn_laws::law_reported_instant_is_the_first(self@.wheel, self@.last_now, other);
                }
                turn_laws::law_reported_instant_is_the_first(
                    self@.wheel,
                    self@.last_now,
                    self@.last_now,
                );
            }
        }
        if let Some(deadline) = next {
            if deadline.nanos <= self.last_now.nanos {
                return (WaitPlan::Immediate, Released { previous: None, unused: Some(waker) });
            }
        }
        let (armed, released) = self.shared.operations.arm(waker);
        if !armed {
            return (WaitPlan::Immediate, released);
        }
        match next {
            Some(deadline) => (WaitPlan::Until(deadline), released),
            None => (WaitPlan::Indefinite, released),
        }
    }

    /// Whether there is room for an entry for each operation that a turn with this budget
    /// processes, so that the service can turn.
    pub fn has_room(&self, budget: TurnBudget) -> (room: bool)
        requires
            self.wf(),
        ensures
            room == self@.has_room(budget.operations() as int),
    {
        let entries: usize = self.wheel.len();
        let queued: usize = self.shared.operations.len();
        let limit: usize = budget.max_operations().get();
        let batch: usize = if limit < queued {
            limit
        } else {
            queued
        };
        entries <= MAX_ENTRIES && batch <= MAX_ENTRIES - entries
    }

    /// Applies a bounded number of operations and advances timers through `now`, and returns the
    /// wakers to run, in order.
    ///
    /// A reading before the latest one counts as the latest one. Operations are processed in the
    /// order in which they came. Then entries take turns: one that was due when it was
    /// classified, one that was not.
    pub fn turn(&mut self, now: Instant, budget: TurnBudget) -> (wakers: Vec<Waker<W>>)
        requires
            old(self).wf(),
            old(self)@.has_room(budget.operations() as int),
            observation::publishable(old(self)@.shared.genesis, now),
        ensures
            final(self).wf(),
            exists|mid: ServiceModel<W>| #[trigger]
                old(self)@.observe(now).drains(
                    old(self)@.shared.queue.batch(budget.operations() as int) as nat,
                    mid,
                ) && {
                    &&& final(self)@ == mid.run(budget.timer_entries() as nat).settle()
                    &&& wakers@ == mid.woken_by_run(budget.timer_entries() as nat)
                    // The turn stops only when its budget is used up or nothing is due.
                    &&& !final(self)@.wheel.has_due(final(self)@.last_now) || turn_laws::takes(
                        mid,
                        budget.timer_entries() as nat,
                        final(self)@,
                    )
                },
            // The oldest operations leave the queue, and the others stay in order.
            final(self)@.shared.queue == old(self)@.shared.queue.skip(
                old(self)@.shared.queue.batch(budget.operations() as int),
            ),
            final(self)@.shared.queue.operations == old(self)@.shared.queue.operations.skip(
                if budget.operations() < old(self)@.shared.queue.operations.len() {
                    budget.operations() as int
                } else {
                    old(self)@.shared.queue.operations.len() as int
                },
            ),
            final(self)@.shared.queue.reactor_waker == old(self)@.shared.queue.reactor_waker,
            final(self)@.shared.published() == instant::later_of(now, old(self)@.last_now),
            final(self)@.last_now.nanos == if now.nanos < old(self)@.last_now.nanos {
                old(self)@.last_now.nanos
            } else {
                now.nanos
            },
            final(self)@.last_now.nanos == final(self)@.shared.genesis.nanos
                + final(self)@.shared.observed,
            // Timers only move on, and none fires early.
            service_laws::served(old(self)@.shared, final(self)@.shared),
            forall|key: u64| #[trigger]
                old(self)@.shared.timers.contains_key(key) ==> service_laws::ends_in_time(
                    old(self)@.shared,
                    final(self)@.shared,
                    key,
                ),
            // Each timer that fires wakes its task once.
            service_laws::wakes_each_once(old(self)@.shared, final(self)@.shared, wakers@),
            wakers@.len() <= budget.timer_entries(),
            // A sufficient budget leaves no timer behind.
            budget.operations() >= old(self)@.shared.queue.operations.len()
                && budget.timer_entries() >= 7 * (old(self)@.wheel.timers.dom().len() + old(
                self,
            )@.shared.queue.operations.len()) ==> forall|key: u64| #[trigger]
                old(self)@.shared.timers.contains_key(key) ==> service_laws::completes(
                    old(self)@.shared,
                    final(self)@.shared,
                    key,
                ),
    {
        let (wakers, mid) = self.advance_through(now, budget);
        proof {
            let mid = mid@;
            let count = old(self)@.shared.queue.batch(budget.operations() as int) as nat;
            let limit = budget.timer_entries() as nat;
            Self::lemma_turned(old(self)@, now, count, mid, limit);
            let keys = service_laws::law_turn_wakes_each_task_once(
                old(self)@,
                now,
                count,
                mid,
                limit,
            );
            assert(service_laws::wakes_once(old(self)@.shared, self@.shared, keys, wakers@));
            assert(service_laws::wakes_each_once(old(self)@.shared, self@.shared, wakers@));
            if budget.operations() >= old(self)@.shared.queue.operations.len() && limit >= 7 * (
            old(self)@.wheel.timers.dom().len() + old(self)@.shared.queue.operations.len()) {
                assert forall|key: u64| #[trigger] old(self)@.shared.timers.contains_key(
                    key,
                ) implies service_laws::completes(old(self)@.shared, self@.shared, key) by {
                    service_laws::law_sufficient_turn_completes_due_timers(
                        old(self)@,
                        now,
                        mid,
                        limit,
                        key,
                    );
                }
            }
            assert(old(self)@.observe(now).drains(count, mid));
        }
        wakers
    }

    /// What a turn leads to.
    proof fn lemma_turned(
        service: ServiceModel<W>,
        now: Instant,
        count: nat,
        mid: ServiceModel<W>,
        limit: nat,
    )
        requires
            service.wf(),
            observation::publishable(service.shared.genesis, now),
            count <= service.shared.queue.operations.len(),
            service.observe(now).drains(count, mid),
        ensures
            ({
                let after = mid.run(limit).settle();
                &&& after.wf()
                &&& service_laws::served(service.shared, after.shared)
                &&& after.shared.published() == instant::later_of(now, service.last_now)
                &&& after.last_now == instant::later_of(now, service.last_now)
                &&& after.last_now.nanos == after.shared.genesis.nanos + after.shared.observed
                &&& after.shared.queue == service.shared.queue.skip(count as int)
                &&& forall|key: u64| #[trigger]
                    service.shared.timers.contains_key(key) ==> service_laws::ends_in_time(
                        service.shared,
                        after.shared,
                        key,
                    )
                &&& !after.wheel.has_due(after.last_now) || turn_laws::takes(mid, limit, after)
            }),
    {
        let after = mid.run(limit).settle();
        service_laws::law_turn_serves(service, now, count, mid, limit);
        service.lemma_observe(now);
        service.observe(now).lemma_drains(count, mid);
        mid.lemma_run(limit);
        turn_laws::law_turn_uses_its_budget(mid, limit);
        if after.wheel.has_due(after.last_now) {
            if !mid.run(limit).wheel.has_due(mid.last_now) {
                mid.run(limit).wheel.lemma_advance_keeps_boundary(
                    mid.run(limit).wheel.floor(mid.last_now),
                );
                mid.run(limit).wheel.lemma_same_far(after.wheel);
            }
        }
    }

    /// Takes the clock reading over, processes the oldest operations and takes steps.
    fn advance_through(&mut self, now: Instant, budget: TurnBudget) -> (turned: (
        Vec<Waker<W>>,
        Ghost<ServiceModel<W>>,
    ))
        requires
            old(self).wf(),
            old(self)@.has_room(budget.operations() as int),
            observation::publishable(old(self)@.shared.genesis, now),
        ensures
            final(self).wf(),
            old(self)@.observe(now).drains(
                old(self)@.shared.queue.batch(budget.operations() as int) as nat,
                turned.1@,
            ),
            final(self)@ == turned.1@.run(budget.timer_entries() as nat).settle(),
            turned.0@ == turned.1@.woken_by_run(budget.timer_entries() as nat),
    {
        let ghost reading = now;
        let now: Instant = now.max(self.last_now);
        proof {
            self@.lemma_observe(now);
            assert(self@.observe(now) == self@.observe(reading));
        }
        self.last_now = now;
        self.shared.observed.store(now);
        assert(self@ == old(self)@.observe(now));
        self.drain_operations(budget.max_operations().get());
        let limit: usize = budget.max_timer_entries().get();
        let ghost mid = self@;
        proof {
            old(self)@.observe(now).lemma_drains(
                old(self)@.shared.queue.batch(budget.operations() as int) as nat,
                mid,
            );
            mid.lemma_run(limit as nat);
        }
        let wakers: Vec<Waker<W>> = self.run(limit);
        if !self.wheel.has_due(now) {
            proof {
                self@.lemma_settle();
            }
            self.wheel.settle(now);
        }
        (wakers, Ghost(mid))
    }

    /// Takes at most `limit` steps, and returns the wakers to run, in order.
    fn run(&mut self, limit: usize) -> (wakers: Vec<Waker<W>>)
        requires
            old(self).wf(),
        ensures
            final(self).wf(),
            final(self)@ == old(self)@.run(limit as nat),
            wakers@ == old(self)@.woken_by_run(limit as nat),
    {
        let now: Instant = self.last_now;
        let mut wakers: Vec<Waker<W>> = Vec::new();
        let mut entries: usize = 0;
        // Once there is nothing but immediate entries to do, it stays so for this turn: the clock
        // reading is fixed, and further steps only take immediate entries out.
        let mut non_immediate_empty: bool = false;
        while entries < limit
            invariant
                entries <= limit,
                self.wf(),
                self.last_now == now,
                old(self)@.run(limit as nat) == self@.run((limit - entries) as nat),
                old(self)@.woken_by_run(limit as nat) == wakers@ + self@.woken_by_run(
                    (limit - entries) as nat,
                ),
                non_immediate_empty ==> self@.wheel.step_non_immediate(now) == (
                    self@.wheel,
                    None::<Step>,
                ),
            decreases limit - entries,
        {
            let ghost before = self@;
            let ghost woken = wakers@;
            match self.advance(&mut non_immediate_empty) {
                Some(Some(waker)) => wakers.push(waker),
                Some(None) => {},
                None => {
                    assert(wakers@ + Seq::empty() =~= wakers@);
                    return wakers;
                },
            }
            entries = entries + 1;
            proof {
                let step = before.choose_step().1->0;
                let seq = service_model::waker_seq(
                    before.stepped(before.choose_step().0).woken_by_step(step),
                );
                let rest = self@.woken_by_run((limit - entries) as nat);
                assert(wakers@ =~= woken + seq);
                assert(woken + (seq + rest) =~= woken + seq + rest);
            }
        }
        assert(wakers@ + Seq::empty() =~= wakers@);
        wakers
    }

    /// Takes one step, and returns the waker to run; returns `None` when there is nothing to do.
    fn advance(&mut self, non_immediate_empty: &mut bool) -> (woken: Option<Option<Waker<W>>>)
        requires
            old(self).wf(),
            *old(non_immediate_empty) ==> old(self)@.wheel.step_non_immediate(old(self)@.last_now)
                == (old(self)@.wheel, None::<Step>),
        ensures
            final(self).wf(),
            final(self)@.last_now == old(self)@.last_now,
            match woken {
                Some(waker) => {
                    let (wheel, step) = old(self)@.choose_step();
                    &&& step is Some
                    &&& final(self)@ == old(self)@.stepped(wheel).apply_step(step->0)
                    &&& waker == old(self)@.stepped(wheel).woken_by_step(step->0)
                    &&& *final(non_immediate_empty) ==> final(self)@.wheel.step_non_immediate(
                        old(self)@.last_now,
                    ) == (final(self)@.wheel, None::<Step>)
                },
                None => {
                    let (wheel, step) = old(self)@.choose_step();
                    &&& step is None
                    &&& final(self)@ == (ServiceModel { wheel, ..old(self)@ })
                },
            },
    {
        let step: Step = match self.next_step(non_immediate_empty) {
            Some(step) => step,
            None => {
                return None;
            },
        };
        let ghost stepped = self@.wheel;
        proof {
            old(self)@.lemma_choose_step();
            old(self)@.lemma_step();
            if *non_immediate_empty {
                let id = stepped.queues[crate::time::entries::Location::Immediate][0];
                assert(step == Step::Fire(id));
                stepped.lemma_rest_stays_idle(id, old(self)@.last_now);
            }
        }
        self.prefer_non_immediate = !self.prefer_non_immediate;
        assert(self@ == old(self)@.stepped(stepped));
        Some(self.apply_step(step))
    }

    /// Chooses the next step. `non_immediate_empty` tells whether there is nothing but immediate
    /// entries to do; such a search is not repeated.
    fn next_step(&mut self, non_immediate_empty: &mut bool) -> (step: Option<Step>)
        requires
            old(self).wf(),
            *old(non_immediate_empty) ==> old(self)@.wheel.step_non_immediate(old(self)@.last_now)
                == (old(self)@.wheel, None::<Step>),
        ensures
            final(self).wf(),
            (final(self)@.wheel, step) == old(self)@.choose_step(),
            final(self)@ == (ServiceModel { wheel: final(self)@.wheel, ..old(self)@ }),
            *final(non_immediate_empty) ==> {
                &&& final(self)@.wheel.step_non_immediate(old(self)@.last_now) == (
                    final(self)@.wheel,
                    None::<Step>,
                )
                &&& step == final(self)@.wheel.step_immediate()
            },
    {
        let now: Instant = self.last_now;
        proof {
            self@.lemma_choose_step();
            self@.wheel.lemma_step_non_immediate(now);
        }
        if self.prefer_non_immediate {
            if *non_immediate_empty {
                self.wheel.step_immediate()
            } else {
                match self.wheel.step_non_immediate(now) {
                    Some(step) => Some(step),
                    None => {
                        *non_immediate_empty = true;
                        self.wheel.step_immediate()
                    },
                }
            }
        } else {
            match self.wheel.step_immediate() {
                Some(step) => Some(step),
                None => if *non_immediate_empty {
                    None
                } else {
                    let step: Option<Step> = self.wheel.step_non_immediate(now);
                    *non_immediate_empty = step.is_none();
                    step
                },
            }
        }
    }

    /// Acts on a wheel step, and returns the waker to run.
    fn apply_step(&mut self, step: Step) -> (waker: Option<Waker<W>>)
        requires
            old(self).wf(),
            old(self)@.apply_step(step).wf(),
            step matches Step::Fire(id) ==> old(self)@.wheel.timers.contains_key(id),
        ensures
            final(self).wf(),
            final(self)@ == old(self)@.apply_step(step),
            waker == old(self)@.woken_by_step(step),
    {
        match step {
            Step::Fire(id) => self.fire(id),
            Step::Examined => None,
        }
    }

    /// Processes the oldest operations, at most `limit` of them.
    fn drain_operations(&mut self, limit: usize)
        requires
            old(self).wf(),
            old(self)@.has_room(limit as int),
        ensures
            final(self).wf(),
            old(self)@.drains(old(self)@.shared.queue.batch(limit as int) as nat, final(self)@),
    {
        let ghost start = self@;
        let ghost count = start.shared.queue.batch(limit as int);
        self.shared.operations.drain_into(limit, &mut self.operation_batch);
        proof {
            let operations = start.shared.queue.operations;
            assert(operations.take(count) + operations.skip(count) =~= operations);
            assert(self.working() == start);
        }
        loop
            invariant
                self.wheel.wf(),
                self.working().wf(),
                self@.wheel.timers.dom().len() + self.operation_batch@.len() <= MAX_ENTRIES,
                forall|last: ServiceModel<W>| #[trigger]
                    self.working().drains(self.operation_batch@.len(), last) ==> start.drains(
                        count as nat,
                        last,
                    ),
            ensures
                self.wf(),
                start.drains(count as nat, self@),
            decreases self.operation_batch@.len(),
        {
            let ghost before = self.working();
            let ghost length = self.operation_batch@.len();
            match self.operation_batch.pop_front() {
                Some(operation) => {
                    proof {
                        assert(before.shared.queue.operations[0] == operation);
                        assert(self.operation_batch@ + self.shared@.queue.operations
                            =~= before.shared.queue.operations.skip(1));
                        assert(self.working() == before.pop());
                    }
                    self.apply_operation(operation);
                    proof {
                        let next = self.working();
                        assert(before.processes(next));
                        before.lemma_processes(next);
                        before.lemma_processes_entries(next);
                        assert forall|last: ServiceModel<W>| #[trigger]
                            next.drains(self.operation_batch@.len(), last) implies start.drains(
                            count as nat,
                            last,
                        ) by {
                            assert(before.processes(next) && next.drains(
                                (length - 1) as nat,
                                last,
                            ));
                            assert(before.drains(length, last));
                        }
                    }
                },
                None => {
                    proof {
                        assert(self.operation_batch@ + self.shared@.queue.operations
                            =~= self.shared@.queue.operations);
                        assert(self.working() == self@);
                        assert(self.working().drains(0, self@));
                    }
                    break;
                },
            }
        }
    }

    /// Processes an operation that has been taken out of the queue.
    fn apply_operation(&mut self, operation: Operation)
        requires
            old(self).wheel.wf(),
            old(self)@.wheel.timers.dom().len() < MAX_ENTRIES,
        ensures
            final(self).wheel.wf(),
            final(self).operation_batch@ == old(self).operation_batch@,
            match operation {
                Operation::Register(operation) => {
                    if old(self).working().shared.lifecycle(operation.key) is Submitted {
                        exists|id: usize| #[trigger]
                            old(self).working().registers_under(
                                operation,
                                id,
                                final(self).working(),
                            )
                    } else {
                        final(self).working() == old(self).working()
                    }
                },
                Operation::Cancel { key, slot } => final(self).working()
                    == old(self).working().cancel(key, slot),
            },
    {
        match operation {
            Operation::Register(operation) => self.register(operation),
            Operation::Cancel { key, slot } => self.cancel(key, slot),
        }
    }

    /// Registers a submitted timer; a timer that was given up before is not linked.
    fn register(&mut self, operation: RegisterOp)
        requires
            old(self).wheel.wf(),
            old(self)@.wheel.timers.dom().len() < MAX_ENTRIES,
        ensures
            final(self).wheel.wf(),
            final(self).operation_batch@ == old(self).operation_batch@,
            if old(self).working().shared.lifecycle(operation.key) is Submitted {
                exists|id: usize| #[trigger]
                    old(self).working().registers_under(operation, id, final(self).working())
            } else {
                final(self).working() == old(self).working()
            },
    {
        if self.shared.timers.lifecycle(operation.key) != Lifecycle::Submitted {
            return;
        }
        let id: usize = self.link(operation);
        self.publish(operation.key, id);
        proof {
            let next = old(self).working().register(operation, id);
            assert(self.shared@.timers =~= next.shared.timers);
            assert(old(self).working().registers_under(operation, id, self.working()));
        }
    }

    /// Links a submitted timer into the wheel, and returns its entry.
    fn link(&mut self, operation: RegisterOp) -> (id: usize)
        requires
            old(self).wheel.wf(),
            old(self)@.wheel.timers.dom().len() < MAX_ENTRIES,
            old(self).shared@.lifecycle(operation.key) is Submitted,
        ensures
            final(self).wheel.wf(),
            final(self).operation_batch@ == old(self).operation_batch@,
            !old(self)@.wheel.timers.contains_key(id),
            final(self)@ == old(self)@.link(operation, id),
    {
        let id: usize = self.wheel.insert(operation.deadline, self.last_now, operation.key);
        let mut state: TimerState<W> = self.shared.timers.take(operation.key).unwrap();
        state.slot = Some(id);
        self.shared.timers.put(operation.key, state);
        proof {
            let next = old(self)@.link(operation, id);
            assert(self.shared@.timers =~= next.shared.timers);
        }
        id
    }

    /// Publishes the registration of a linked timer, or unlinks it when it is no longer
    /// submitted.
    fn publish(&mut self, key: u64, id: usize)
        requires
            old(self).wheel.wf(),
            old(self)@.wheel.timers.contains_key(id),
        ensures
            final(self).wheel.wf(),
            final(self).operation_batch@ == old(self).operation_batch@,
            final(self)@ == old(self)@.publish(key, id),
    {
        match self.shared.timers.take(key) {
            Some(mut state) => {
                if state.lifecycle == Lifecycle::Submitted {
                    state.lifecycle = Lifecycle::Registered;
                } else {
                    state.slot = None;
                    let _: Option<u64> = self.wheel.remove(id);
                }
                self.shared.timers.put(key, state);
                proof {
                    let next = old(self)@.publish(key, id);
                    assert(self.shared@.timers =~= next.shared.timers);
                }
            },
            None => {
                let _: Option<u64> = self.wheel.remove(id);
            },
        }
    }

    /// Unlinks the entry of a timer that was given up, unless the entry is another timer's.
    fn cancel(&mut self, key: u64, slot: usize)
        requires
            old(self).wheel.wf(),
        ensures
            final(self).wheel.wf(),
            final(self).operation_batch@ == old(self).operation_batch@,
            final(self).working() == old(self).working().cancel(key, slot),
    {
        let found: u64 = match self.wheel.get(slot) {
            Some(found) => found,
            None => {
                return;
            },
        };
        if found != key {
            return;
        }
        let _: Option<u64> = self.wheel.remove(slot);
    }

    /// Fires a wheel entry, and returns the waker to run.
    fn fire(&mut self, id: usize) -> (waker: Option<Waker<W>>)
        requires
            old(self).wf(),
            old(self)@.fire(id).wf(),
            old(self)@.wheel.timers.contains_key(id),
        ensures
            final(self).wf(),
            final(self)@ == old(self)@.fire(id),
            waker == old(self)@.woken_by_fire(id),
    {
        let key: u64 = self.wheel.remove(id).unwrap();
        let mut state: TimerState<W> = match self.shared.timers.take(key) {
            Some(state) => state,
            None => {
                return None;
            },
        };
        state.fired_nanos = self.shared.observed.encode(self.last_now);
        let waker: Option<Waker<W>> = state.publish_terminal(
            Lifecycle::Registered,
            Lifecycle::Fired,
        );
        state.slot = None;
        self.shared.timers.put(key, state);
        proof {
            assert(self.shared@.timers =~= old(self)@.fire(id).shared.timers);
        }
        waker
    }

    /// Closes the service, and with it every delay that has not completed. Tasks keep the shared
    /// state.
    ///
    /// Linked timers are closed in the order of their wheel entries, then the delays whose
    /// registration is queued.
    pub fn close(self) -> (closed: (Shared<W>, Closing<W>))
        requires
            self.wf(),
        ensures
            closed.0@ == self@.closed(),
            closed.0@.wf(),
            exists|keys: Seq<u64>| #[trigger]
                self@.wheel.is_drain(keys) && closed.1.wakers@ == self@.woken_by_drain(keys)
                    + self@.woken_by_discard(self@.shared.queue.operations),
            closed.1.reactor_waker == self@.shared.queue.reactor_waker,
            // Delays that wait are closed, those that have fired are not, and no more are taken.
            closed.0@.closed,
            !closed.0@.queue.accepting,
            closed.0@.queue.operations.len() == 0,
            closed.0@.queue.reactor_waker is None,
            closed.0@.observed == self@.shared.observed,
            closed.0@.genesis == self@.shared.genesis,
            closed.0@.clock_mode == self@.shared.clock_mode,
            closed.0@.timers.dom() == self@.shared.timers.dom(),
            forall|key: u64| #[trigger]
                self@.shared.timers.contains_key(key) ==> closed.0@.timers[key].lifecycle == (
                if self@.shared.timers[key].lifecycle is Fired {
                    Lifecycle::Fired
                } else {
                    Lifecycle::Closed
                }) && closed.0@.timers[key].fired_nanos == self@.shared.timers[key].fired_nanos,
            // Each delay that waits wakes its task once.
            service_laws::wakes_each_once(self@.shared, closed.0@, closed.1.wakers@),
    {
        let ghost model = self@;
        let mut shared: Shared<W> = self.shared;
        let mut wheel: Wheel = self.wheel;
        let (queued, reactor_waker) = shared.operations.close();
        shared.closed = true;
        let keys: Vec<u64> = wheel.drain();
        let mut wakers: Vec<Waker<W>> = Self::close_linked(&mut shared, &keys, Ghost(model));
        Self::close_queued(&mut shared, queued, &mut wakers, Ghost(model));
        let ghost ended = service_laws::law_close_wakes_each_task_once(model, keys@);
        let closed = (shared, Closing { wakers, reactor_waker });
        proof {
            model.lemma_closed();
            assert(model.wheel.is_drain(keys@));
            assert(service_laws::wakes_once(self@.shared, closed.0@, ended, closed.1.wakers@));
            assert(service_laws::wakes_each_once(self@.shared, closed.0@, closed.1.wakers@));
        }
        closed
    }

    /// Closes the timers of a closing service's wheel entries, and returns the wakers to run, in
    /// order. `model` is the service before it began to close.
    fn close_linked(shared: &mut Shared<W>, keys: &Vec<u64>, Ghost(model): Ghost<ServiceModel<W>>)
        -> (wakers: Vec<Waker<W>>)
        requires
            model.wf(),
            model.wheel.is_drain(keys@),
            old(shared)@ == (SharedModel { timers: model.shared.timers, ..model.closed() }),
        ensures
            final(shared)@ == (SharedModel { timers: final(shared)@.timers, ..model.closed() }),
            final(shared)@.timers.dom() == model.shared.timers.dom(),
            forall|key: u64| #[trigger]
                model.shared.timers.contains_key(key) ==> final(shared)@.timers[key]
                    == if model.shared.timers[key].lifecycle is Submitted {
                    model.shared.timers[key]
                } else {
                    service_model::closed_state(model.shared.timers[key])
                },
            wakers@ == model.woken_by_drain(keys@),
    {
        let mut wakers: Vec<Waker<W>> = Vec::new();
        proof {
            model.lemma_drained_keys(keys@);
        }
        let mut i: usize = 0;
        while i < keys.len()
            invariant
                i <= keys.len(),
                model.wf(),
                shared@ == (SharedModel { timers: shared@.timers, ..model.closed() }),
                shared@.timers.dom() == model.shared.timers.dom(),
                forall|j: int, k: int|
                    0 <= j < k < keys.len() && model.shared.timers.contains_key(keys@[j])
                        ==> keys@[j] != keys@[k],
                forall|key: u64| #[trigger]
                    model.shared.timers.contains_key(key) ==> shared@.timers[key]
                        == if keys@.take(i as int).contains(key) {
                        service_model::closed_state(model.shared.timers[key])
                    } else {
                        model.shared.timers[key]
                    },
                forall|j: int|
                    0 <= j < keys.len() && model.shared.timers.contains_key(#[trigger] keys@[j])
                        ==> model.shared.timers[keys@[j]].lifecycle is Registered,
                wakers@ == model.woken_by_drain(keys@.take(i as int)),
            decreases keys.len() - i,
        {
            let ghost before = keys@.take(i as int);
            let ghost after = keys@.take(i + 1);
            let key: u64 = keys[i];
            proof {
                assert(after.drop_last() =~= before);
                assert(after.last() == key);
                assert forall|k: u64| after.contains(k) == (before.contains(k) || k == key) by {
                    if before.contains(k) {
                        assert(after[before.index_of(k)] == k);
                    }
                    if after.contains(k) && k != key {
                        assert(before[after.index_of(k)] == k);
                    }
                    assert(after[i as int] == key);
                }
                if model.shared.timers.contains_key(key) {
                    assert(!before.contains(key));
                }
            }
            let ghost states = shared@.timers;
            if let Some(waker) = Self::close_timer(shared, key, Lifecycle::Registered) {
                wakers.push(waker);
            }
            i = i + 1;
            proof {
                assert(shared@.timers.dom() =~= states.dom());
                assert(wakers@ =~= model.woken_by_drain(before) + service_model::waker_seq(
                    model.woken_by_close(key, Lifecycle::Registered),
                ));
            }
        }
        proof {
            assert(keys@.take(keys.len() as int) =~= keys@);
            assert forall|key: u64| #[trigger] model.shared.timers.contains_key(
                key,
            ) implies shared@.timers[key] == (if model.shared.timers[key].lifecycle is Submitted {
                model.shared.timers[key]
            } else {
                service_model::closed_state(model.shared.timers[key])
            }) by {
                if model.shared.timers[key].lifecycle is Registered {
                    model.lemma_registered_is_drained(key, keys@);
                }
            }
        }
        wakers
    }

    /// Closes the delays whose registration was queued when a service began to close, and adds
    /// the wakers to run, in order. `model` is the service before it began to close.
    fn close_queued(
        shared: &mut Shared<W>,
        queued: VecDeque<Operation>,
        wakers: &mut Vec<Waker<W>>,
        Ghost(model): Ghost<ServiceModel<W>>,
    )
        requires
            model.wf(),
            queued@ == model.shared.queue.operations,
            old(shared)@ == (SharedModel { timers: old(shared)@.timers, ..model.closed() }),
            old(shared)@.timers.dom() == model.shared.timers.dom(),
            forall|key: u64| #[trigger]
                model.shared.timers.contains_key(key) ==> old(shared)@.timers[key]
                    == if model.shared.timers[key].lifecycle is Submitted {
                    model.shared.timers[key]
                } else {
                    service_model::closed_state(model.shared.timers[key])
                },
        ensures
            final(shared)@ == model.closed(),
            final(wakers)@ == old(wakers)@ + model.woken_by_discard(
                model.shared.queue.operations,
            ),
    {
        let ghost drained = wakers@;
        let ghost operations = model.shared.queue.operations;
        let mut queued: VecDeque<Operation> = queued;
        let ghost mut done: int = 0;
        proof {
            assert(operations.skip(0) =~= operations);
            assert(operations.take(0) =~= Seq::empty());
            assert(drained + Seq::empty() =~= drained);
        }
        loop
            invariant
                0 <= done <= operations.len(),
                queued@ == operations.skip(done),
                model.wf(),
                operations == model.shared.queue.operations,
                shared@ == (SharedModel { timers: shared@.timers, ..model.closed() }),
                shared@.timers.dom() == model.shared.timers.dom(),
                forall|key: u64| #[trigger]
                    model.shared.timers.contains_key(key) ==> shared@.timers[key]
                        == if model.shared.timers[key].lifecycle is Submitted && !queue::awaits(
                        operations.take(done),
                        key,
                    ) {
                        model.shared.timers[key]
                    } else {
                        service_model::closed_state(model.shared.timers[key])
                    },
                wakers@ == drained + model.woken_by_discard(operations.take(done)),
            ensures
                done == operations.len(),
            decreases operations.len() - done,
        {
            match queued.pop_front() {
                Some(operation) => {
                    proof {
                        assert(operation == operations[done]);
                        assert(operations.skip(done).skip(1) =~= operations.skip(done + 1));
                        model.lemma_discarded(done);
                        assert(operations.take(done + 1).drop_last() =~= operations.take(done));
                    }
                    let ghost states = shared@.timers;
                    if let Operation::Register(operation) = operation {
                        if let Some(waker) = Self::close_timer(
                            shared,
                            operation.key,
                            Lifecycle::Submitted,
                        ) {
                            wakers.push(waker);
                        }
                    }
                    proof {
                        assert(shared@.timers.dom() =~= states.dom());
                        done = done + 1;
                        let before = model.woken_by_discard(operations.take(done - 1));
                        let last = match operation {
                            Operation::Register(operation) => service_model::waker_seq(
                                model.woken_by_close(operation.key, Lifecycle::Submitted),
                            ),
                            Operation::Cancel { .. } => Seq::empty(),
                        };
                        assert(wakers@ =~= drained + before + last);
                        assert(drained + before + last =~= drained + (before + last));
                    }
                },
                None => {
                    break;
                },
            }
        }
        proof {
            assert(operations.take(operations.len() as int) =~= operations);
            assert(shared@.timers =~= model.closed().timers);
        }
    }

    /// Closes a timer that is still in state `from`, and returns the waker to run.
    fn close_timer(shared: &mut Shared<W>, key: u64, from: Lifecycle) -> (waker: Option<Waker<W>>)
        ensures
            final(shared)@ == (SharedModel {
                timers: if old(shared)@.timers.contains_key(key) {
                    old(shared)@.timers.insert(
                        key,
                        TimerState {
                            slot: None,
                            ..old(shared)@.timers[key].published(from, Lifecycle::Closed)
                        },
                    )
                } else {
                    old(shared)@.timers
                },
                ..old(shared)@
            }),
            waker == if old(shared)@.timers.contains_key(key) && old(shared)@.timers[key].lifecycle
                == from {
                old(shared)@.timers[key].waker.taken()
            } else {
                None
            },
    {
        let mut state: TimerState<W> = match shared.timers.take(key) {
            Some(state) => state,
            None => {
                return None;
            },
        };
        state.slot = None;
        let waker: Option<Waker<W>> = state.publish_terminal(from, Lifecycle::Closed);
        shared.timers.put(key, state);
        proof {
            assert(old(shared)@.timers.remove(key).insert(key, state) =~= old(shared)@.timers.insert(
                key,
                state,
            ));
        }
        waker
    }
}

} // verus!
