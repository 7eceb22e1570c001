//! Delays.

use vstd::prelude::*;

use crate::time::deadline::Deadline;
use crate::time::instant::Instant;
use crate::time::observation;
use crate::time::poll::{Poll, TimerClosed};
use crate::time::queue;
use crate::time::queue::{Operation, RegisterOp};
use crate::time::shared::{Shared, SharedModel};
use crate::time::state::{DelayWakeSlot, Lifecycle, SlotState, TimerState};
use crate::time::waker::{Released, Waker, WakerIdentity};

verus! {

/// A lazy delay that completes at or after its deadline.
///
/// Registration happens on the first poll. Closing the service closes delays that still need it,
/// including due ones that have not been fired yet. A delay that is polled for the first time
/// after its deadline completes without registering, even when the service has closed. Further
/// polls repeat the same result.
///
/// A delay that is given up has to be handed to [`cancel`](Delay::cancel).
#[derive(Debug)]
pub struct Delay {
    /// When the delay is due.
    pub deadline: Deadline,
    /// Whether the delay ended because the service closed.
    pub closed: bool,
    /// The clock reading at which the delay completed.
    pub fired_at: Option<Instant>,
    /// The waker that the service will run.
    pub registered_waker: Option<WakerIdentity>,
    /// The delay's timer.
    pub state: Option<u64>,
}

/// What polling a delay led to.
pub struct DelayPoll<W> {
    /// Whether the delay has completed.
    pub result: Poll<Result<(), TimerClosed>>,
    /// The reactor's waker, when it has to run.
    pub wake: Option<Waker<W>>,
    /// Wakers that are no longer needed.
    pub released: Released<W>,
}

/// What giving up a delay led to.
pub struct DelayDrop<W> {
    /// The reactor's waker, when it has to run.
    pub wake: Option<Waker<W>>,
    /// The task's waker, which is no longer needed.
    pub released: Option<Waker<W>>,
}

impl<W> SharedModel<W> {
    /// The shared state after a delay has been submitted.
    pub open spec fn submit(self, deadline: Deadline, waker: Waker<W>) -> SharedModel<W> {
        let operation = Operation::Register(RegisterOp { deadline, key: self.next_key });
        SharedModel {
            queue: self.queue.sent(operation),
            timers: self.timers.insert(self.next_key, TimerState::submitted(deadline, waker)),
            next_key: (self.next_key + 1) as u64,
            ..self
        }
    }

    /// The shared state without a timer.
    pub open spec fn release(self, key: u64) -> SharedModel<W> {
        SharedModel { timers: self.timers.remove(key), ..self }
    }

    /// The shared state after a task has brought another waker for a live timer.
    pub open spec fn rewake(self, key: u64, waker: Waker<W>) -> SharedModel<W> {
        let state = TimerState {
            waker: DelayWakeSlot { state: SlotState::Ready, waker: Some(waker) },
            ..self.timers[key]
        };
        SharedModel { timers: self.timers.insert(key, state), ..self }
    }

    /// The shared state after an operation has been offered.
    pub open spec fn send(self, operation: Operation) -> SharedModel<W> {
        SharedModel { queue: self.queue.sent(operation), ..self }
    }
}

impl Delay {
    /// A delay that has not been polled.
    pub open spec fn fresh(deadline: Deadline) -> Delay {
        Delay { deadline, closed: false, fired_at: None, registered_waker: None, state: None }
    }

    /// Whether the delay and its timer agree, and the delay has neither completed early nor closed
    /// before its service.
    ///
    /// With a deterministic service it has completed at a reading that has been published.
    pub open spec fn wf<W>(self, shared: SharedModel<W>) -> bool {
        &&& self.fired_at matches Some(at) ==> self.deadline.elapsed(at) && (shared.clock_mode
            is Driven ==> at.nanos <= shared.genesis.nanos + shared.observed)
        &&& self.closed ==> shared.refuses()
        &&& self.state matches Some(key) ==> {
            &&& self.fired_at is None
            &&& !self.closed
            &&& shared.timers.contains_key(key)
            &&& shared.timers[key].deadline@ == self.deadline
            &&& self.registered_waker is Some && !shared.timers[key].lifecycle.is_terminal() ==> {
                &&& shared.timers[key].waker.waker is Some
                &&& shared.timers[key].waker.waker->0.identity == self.registered_waker->0
            }
        }
    }

    /// Whether polling submits the delay.
    pub open spec fn submits<W>(self, shared: SharedModel<W>, wall: Instant) -> bool {
        &&& self.fired_at is None
        &&& !self.closed
        &&& self.state is None
        &&& !self.deadline.elapsed(shared.observation(wall))
        &&& !shared.closed
        &&& shared.queue.accepting
    }

    /// Whether polling registers the task's waker with the delay's timer.
    pub open spec fn rewakes<W>(self, shared: SharedModel<W>, waker: Waker<W>) -> bool {
        &&& self.state is Some
        &&& self.registered_waker != Some(waker.identity)
        &&& !shared.timers[self.state->0].lifecycle.is_terminal()
    }

    /// The delay after it has been polled.
    pub open spec fn polled<W>(
        self,
        shared: SharedModel<W>,
        wall: Instant,
        waker: Waker<W>,
    ) -> Delay {
        if self.fired_at is Some || self.closed {
            self
        } else {
            match self.state {
                None => if self.deadline.elapsed(shared.observation(wall)) {
                    Delay { fired_at: Some(shared.observation(wall)), ..self }
                } else if self.submits(shared, wall) {
                    Delay {
                        registered_waker: Some(waker.identity),
                        state: Some(shared.next_key),
                        ..self
                    }
                } else {
                    Delay { closed: true, ..self }
                },
                Some(key) => match shared.timers[key].lifecycle {
                    Lifecycle::Fired => Delay {
                        fired_at: Some(
                            observation::reading(shared.genesis, shared.timers[key].fired_nanos),
                        ),
                        registered_waker: None,
                        state: None,
                        ..self
                    },
                    Lifecycle::Closed => Delay {
                        closed: true,
                        registered_waker: None,
                        state: None,
                        ..self
                    },
                    _ => Delay { registered_waker: Some(waker.identity), ..self },
                },
            }
        }
    }

    /// The shared state after the delay has been polled.
    pub open spec fn shared_after_poll<W>(
        self,
        shared: SharedModel<W>,
        wall: Instant,
        waker: Waker<W>,
    ) -> SharedModel<W> {
        if self.submits(shared, wall) {
            shared.submit(self.deadline, waker)
        } else if self.rewakes(shared, waker) {
            shared.rewake(self.state->0, waker)
        } else if self.state is Some && shared.timers[self.state->0].lifecycle.is_terminal() {
            shared.release(self.state->0)
        } else {
            shared
        }
    }

    /// What polling the delay leads to.
    pub open spec fn poll_outcome<W>(
        self,
        shared: SharedModel<W>,
        wall: Instant,
        waker: Waker<W>,
    ) -> DelayPoll<W> {
        let after = self.polled(shared, wall, waker);
        DelayPoll {
            result: if after.fired_at is Some {
                Poll::Ready(Ok(()))
            } else if after.closed {
                Poll::Ready(Err(TimerClosed))
            } else {
                Poll::Pending
            },
            wake: if self.submits(shared, wall) {
                shared.queue.woken_by_send()
            } else {
                None
            },
            released: if self.submits(shared, wall) {
                Released { previous: None, unused: None }
            } else if self.rewakes(shared, waker) {
                Released {
                    previous: shared.timers[self.state->0].waker.waker,
                    unused: None,
                }
            } else {
                Released { previous: None, unused: Some(waker) }
            },
        }
    }

    /// The operation that giving up the delay queues.
    pub open spec fn cancellation<W>(self, shared: SharedModel<W>) -> Option<Operation> {
        match self.state {
            None => None,
            Some(key) => if shared.timers[key].lifecycle is Registered {
                Some(Operation::Cancel { key, slot: shared.timers[key].slot->0 })
            } else {
                None
            },
        }
    }

    /// The shared state after the delay has been given up.
    pub open spec fn shared_after_drop<W>(self, shared: SharedModel<W>) -> SharedModel<W> {
        match self.state {
            None => shared,
            Some(key) => match self.cancellation(shared) {
                Some(operation) => shared.release(key).send(operation),
                None => shared.release(key),
            },
        }
    }

    /// What giving up the delay leads to.
    pub open spec fn drop_outcome<W>(self, shared: SharedModel<W>) -> DelayDrop<W> {
        DelayDrop {
            wake: if self.cancellation(shared) is Some {
                shared.queue.woken_by_send()
            } else {
                None
            },
            released: match self.state {
                None => None,
                Some(key) => shared.timers[key].waker.taken(),
            },
        }
    }

    /// A delay with this deadline, not yet submitted.
    pub fn new(deadline: Deadline) -> (delay: Delay)
        ensures
            delay == Delay::fresh(deadline),
            delay.deadline == deadline,
            delay.fired_at is None && delay.state is None && !delay.closed,
    {
        Delay { deadline, closed: false, fired_at: None, registered_waker: None, state: None }
    }

    /// The clock reading at which the delay completed.
    pub fn completion_observation(&self) -> (observation: Instant)
        requires
            self.fired_at is Some,
        ensures
            Some(observation) == self.fired_at,
    {
        self.fired_at.unwrap()
    }

    /// Whether the deadline has come at `now`.
    pub fn is_elapsed_at(&self, now: Instant) -> (elapsed: bool)
        ensures
            elapsed == self.deadline.elapsed(now),
            elapsed <==> (self.deadline matches Deadline::At(deadline) && deadline.nanos
                <= now.nanos),
    {
        match self.deadline.as_instant() {
            Some(deadline) => deadline.nanos <= now.nanos,
            None => false,
        }
    }

    /// Acts on the lifecycle of the delay's timer, and gives the timer up once it has ended.
    fn poll_lifecycle<W>(&mut self, shared: &mut Shared<W>, lifecycle: Lifecycle) -> (result: Poll<
        Result<(), TimerClosed>,
    >)
        requires
            old(shared)@.wf(),
            old(self).wf(old(shared)@),
            old(self).state is Some,
            lifecycle == old(shared)@.timers[old(self).state->0].lifecycle,
        ensures
            match lifecycle {
                Lifecycle::Fired => {
                    let key = old(self).state->0;
                    &&& result == Poll::<Result<(), TimerClosed>>::Ready(Ok(()))
                    &&& final(shared)@ == old(shared)@.release(key)
                    &&& *final(self) == (Delay {
                        fired_at: Some(
                            observation::reading(
                                old(shared)@.genesis,
                                old(shared)@.timers[key].fired_nanos,
                            ),
                        ),
                        registered_waker: None,
                        state: None,
                        ..*old(self)
                    })
                },
                Lifecycle::Closed => {
                    &&& result == Poll::<Result<(), TimerClosed>>::Ready(Err(TimerClosed))
                    &&& final(shared)@ == old(shared)@.release(old(self).state->0)
                    &&& *final(self) == (Delay {
                        closed: true,
                        registered_waker: None,
                        state: None,
                        ..*old(self)
                    })
                },
                _ => {
                    &&& result == Poll::<Result<(), TimerClosed>>::Pending
                    &&& final(shared)@ == old(shared)@
                    &&& *final(self) == *old(self)
                },
            },
    {
        match lifecycle {
            Lifecycle::Fired => {
                let state: TimerState<W> = shared.timers.take(self.state.unwrap()).unwrap();
                self.state = None;
                self.fired_at = Some(shared.observed.decode(state.fired_nanos));
                self.registered_waker = None;
                Poll::Ready(Ok(()))
            },
            Lifecycle::Closed => {
                let _: Option<TimerState<W>> = shared.timers.take(self.state.unwrap());
                self.state = None;
                self.closed = true;
                self.registered_waker = None;
                Poll::Ready(Err(TimerClosed))
            },
            _ => Poll::Pending,
        }
    }

    /// Polls the delay at clock reading `wall` of the system clock.
    ///
    /// `waker` is the polling task's waker; it is stored, or handed back among the released ones.
    pub fn poll<W>(&mut self, shared: &mut Shared<W>, wall: Instant, waker: Waker<W>) -> (outcome:
        DelayPoll<W>)
        requires
            old(shared)@.wf(),
            old(self).submits(old(shared)@, wall) ==> old(shared)@.next_key < u64::MAX,
            old(self).wf(old(shared)@),
        ensures
            final(shared)@.wf(),
            final(self).wf(final(shared)@),
            *final(self) == old(self).polled(old(shared)@, wall, waker),
            final(shared)@ == old(self).shared_after_poll(old(shared)@, wall, waker),
            outcome == old(self).poll_outcome(old(shared)@, wall, waker),
            // Never early, and closed only with the service.
            outcome.result == Poll::<Result<(), TimerClosed>>::Ready(Ok(())) ==> final(self).fired_at
                is Some && old(self).deadline.elapsed(final(self).fired_at->0),
            outcome.result == Poll::<Result<(), TimerClosed>>::Ready(Ok(())) && old(self).fired_at
                is None ==> old(self).deadline.elapsed(old(shared)@.observation(wall)),
            outcome.result == Poll::<Result<(), TimerClosed>>::Ready(Err(TimerClosed)) ==> old(
                shared,
            )@.refuses(),
            // Results repeat.
            old(self).fired_at is Some || old(self).closed ==> *final(self) == *old(self)
                && final(shared)@ == old(shared)@ && outcome.result is Ready,
    {
        if self.fired_at.is_some() {
            return DelayPoll {
                result: Poll::Ready(Ok(())),
                wake: None,
                released: Released { previous: None, unused: Some(waker) },
            };
        }
        if self.closed {
            return DelayPoll {
                result: Poll::Ready(Err(TimerClosed)),
                wake: None,
                released: Released { previous: None, unused: Some(waker) },
            };
        }
        let key: u64 = match self.state {
            Some(key) => key,
            None => {
                return self.first_poll(shared, wall, waker);
            },
        };
        let held: bool = match self.registered_waker {
            Some(registered) => registered.matches(&waker),
            None => false,
        };
        if held {
            let lifecycle: Lifecycle = shared.timers.lifecycle(key);
            let result: Poll<Result<(), TimerClosed>> = self.poll_lifecycle(shared, lifecycle);
            proof {
                shared_lemma_release(old(shared)@, key);
            }
            return DelayPoll {
                result,
                wake: None,
                released: Released { previous: None, unused: Some(waker) },
            };
        }
        self.registered_waker = None;
        let mut state: TimerState<W> = shared.timers.take(key).unwrap();
        let (lifecycle, registered, released) = state.waker.register_and_load(
            waker,
            &state.lifecycle,
        );
        shared.timers.put(key, state);
        if registered.is_some() {
            self.registered_waker = registered;
        }
        proof {
            let before = old(shared)@;
            if before.timers[key].lifecycle.is_terminal() {
                assert(shared@.timers =~= before.timers);
                assert(shared@ == before);
                shared_lemma_release(before, key);
            } else {
                assert(shared@.timers =~= before.rewake(key, waker).timers);
                assert(shared@ == before.rewake(key, waker));
                shared_lemma_rewake(before, key, waker);
            }
        }
        let result: Poll<Result<(), TimerClosed>> = self.poll_lifecycle(shared, lifecycle);
        DelayPoll { result, wake: None, released }
    }

    /// The first poll: the delay completes, closes or is submitted.
    fn first_poll<W>(&mut self, shared: &mut Shared<W>, wall: Instant, waker: Waker<W>) -> (outcome:
        DelayPoll<W>)
        requires
            old(shared)@.wf(),
            old(self).submits(old(shared)@, wall) ==> old(shared)@.next_key < u64::MAX,
            old(self).fired_at is None,
            !old(self).closed,
            old(self).state is None,
        ensures
            final(shared)@.wf(),
            final(self).wf(final(shared)@),
            *final(self) == old(self).polled(old(shared)@, wall, waker),
            final(shared)@ == old(self).shared_after_poll(old(shared)@, wall, waker),
            outcome == old(self).poll_outcome(old(shared)@, wall, waker),
    {
        let now: Instant = shared.observation(wall);
        if self.is_elapsed_at(now) {
            self.fired_at = Some(now);
            return DelayPoll {
                result: Poll::Ready(Ok(())),
                wake: None,
                released: Released { previous: None, unused: Some(waker) },
            };
        }
        if shared.closed {
            self.closed = true;
            return DelayPoll {
                result: Poll::Ready(Err(TimerClosed)),
                wake: None,
                released: Released { previous: None, unused: Some(waker) },
            };
        }
        let identity: WakerIdentity = WakerIdentity::new(&waker);
        let key: u64 = shared.timers.vacant_key();
        let operation = Operation::Register(RegisterOp { deadline: self.deadline, key });
        match shared.send(operation) {
            Ok(wake) => {
                shared.timers.add(TimerState::new(self.deadline, waker));
                self.registered_waker = Some(identity);
                self.state = Some(key);
                proof {
                    shared_lemma_submit(old(shared)@, self.deadline, waker);
                }
                DelayPoll {
                    result: Poll::Pending,
                    wake,
                    released: Released { previous: None, unused: None },
                }
            },
            Err(_) => {
                self.closed = true;
                DelayPoll {
                    result: Poll::Ready(Err(TimerClosed)),
                    wake: None,
                    released: Released { previous: None, unused: Some(waker) },
                }
            },
        }
    }

    /// Gives the delay up.
    ///
    /// A delay that was only submitted will not be registered. The wheel entry of a registered
    /// one is unlinked when the service processes the cancellation that this queues.
    pub fn cancel<W>(self, shared: &mut Shared<W>) -> (outcome: DelayDrop<W>)
        requires
            old(shared)@.wf(),
            self.wf(old(shared)@),
        ensures
            final(shared)@.wf(),
            final(shared)@ == self.shared_after_drop(old(shared)@),
            outcome == self.drop_outcome(old(shared)@),
    {
        let key: u64 = match self.state {
            Some(key) => key,
            None => {
                return DelayDrop { wake: None, released: None };
            },
        };
        let mut state: TimerState<W> = shared.timers.take(key).unwrap();
        proof {
            shared_lemma_release(old(shared)@, key);
        }
        let wake: Option<Waker<W>> = match state.lifecycle {
            Lifecycle::Registered => {
                let slot: usize = state.slot.unwrap();
                proof {
                    shared_lemma_cancel(old(shared)@.release(key), key, slot);
                }
                match shared.send(Operation::Cancel { key, slot }) {
                    Ok(wake) => wake,
                    Err(_) => None,
                }
            },
            _ => None,
        };
        let released: Option<Waker<W>> = state.waker.clear();
        DelayDrop { wake, released }
    }
}

/// Giving up a timer keeps the invariant.
pub proof fn shared_lemma_release<W>(shared: SharedModel<W>, key: u64)
    requires
        shared.wf(),
    ensures
        shared.release(key).wf(),
{
    let after = shared.release(key);
    assert forall|k: u64| #[trigger] after.timers.contains_key(k) implies shared.timers.contains_key(
        k,
    ) by {}
}

/// Bringing another waker keeps the invariant.
pub proof fn shared_lemma_rewake<W>(shared: SharedModel<W>, key: u64, waker: Waker<W>)
    requires
        shared.wf(),
        shared.timers.contains_key(key),
        !shared.timers[key].lifecycle.is_terminal(),
    ensures
        shared.rewake(key, waker).wf(),
{
    let after = shared.rewake(key, waker);
    assert forall|k: u64| #[trigger] after.timers.contains_key(k) implies shared.timers.contains_key(
        k,
    ) by {}
}

/// Submitting a delay keeps the invariant.
pub proof fn shared_lemma_submit<W>(shared: SharedModel<W>, deadline: Deadline, waker: Waker<W>)
    requires
        shared.wf(),
        !shared.closed,
        shared.queue.accepting,
        shared.next_key < u64::MAX,
    ensures
        shared.submit(deadline, waker).wf(),
{
    let after = shared.submit(deadline, waker);
    let before_ops = shared.queue.operations;
    let after_ops = after.queue.operations;
    let count = before_ops.len() as int;
    assert(queue::registers(after_ops, count, shared.next_key));
    assert forall|i: int, k: u64, s: usize| #[trigger] queue::cancels(after_ops, i, k, s) implies k
        < after.next_key && !after.timers.contains_key(k) by {
        assert(queue::cancels(before_ops, i, k, s));
    }
    assert forall|i: int, k: u64| #[trigger] queue::registers(after_ops, i, k) implies (if i
        == count {
        k == shared.next_key
    } else {
        queue::registers(before_ops, i, k)
    }) by {}
    assert forall|k: u64| #[trigger] after.timers.contains_key(k)
        && after.timers[k].lifecycle is Submitted implies queue::awaits(after_ops, k) by {
        if k != shared.next_key {
            assert(shared.timers.contains_key(k));
            let i = choose|i: int| #[trigger] queue::registers(before_ops, i, k);
            assert(queue::registers(after_ops, i, k));
        }
    }
    assert forall|k: u64| #[trigger] after.timers.contains_key(k) && k != shared.next_key implies
        shared.timers.contains_key(k) by {}
}

/// Queueing a cancellation keeps the invariant.
pub proof fn shared_lemma_cancel<W>(shared: SharedModel<W>, key: u64, slot: usize)
    requires
        shared.wf(),
        key < shared.next_key,
        !shared.timers.contains_key(key),
    ensures
        shared.send(Operation::Cancel { key, slot }).wf(),
{
    let after = shared.send(Operation::Cancel { key, slot });
    let before_ops = shared.queue.operations;
    let after_ops = after.queue.operations;
    assert forall|i: int, k: u64| #[trigger] queue::registers(after_ops, i, k) implies
        queue::registers(before_ops, i, k) by {}
    assert forall|i: int, k: u64, s: usize| #[trigger] queue::cancels(after_ops, i, k, s) && k
        != key implies queue::cancels(before_ops, i, k, s) by {}
    assert forall|k: u64| #[trigger] after.timers.contains_key(k)
        && after.timers[k].lifecycle is Submitted implies queue::awaits(after_ops, k) by {
        assert(shared.timers.contains_key(k));
        let i = choose|i: int| #[trigger] queue::registers(before_ops, i, k);
        assert(queue::registers(after_ops, i, k));
    }
}

} // verus!
