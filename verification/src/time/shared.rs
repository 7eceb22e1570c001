//! State that a timer service shares with the tasks that use it.
//!
//! The service reads and writes it during a turn; tasks do so when they poll or drop a delay. An
//! application that runs them on different threads guards it with a lock.

use vstd::prelude::*;

use crate::time::instant::Instant;
use crate::time::observation;
use crate::time::observation::AtomicObservation;
use crate::time::queue;
use crate::time::queue::{Operation, OperationQueue, QueueModel};
use crate::time::state::{Lifecycle, TimerState};
use crate::time::timers;
use crate::time::timers::Timers;
use crate::time::waker::Waker;

verus! {

/// Which clock a handle reads.
#[derive(Clone, Copy, Debug, PartialEq, Eq, Structural)]
pub enum ClockMode {
    /// The later of the system clock and the published reading.
    System,
    /// The published reading alone.
    Driven,
}

/// What the shared state holds.
#[verifier::ext_equal]
pub struct SharedModel<W> {
    /// Which clock handles read.
    pub clock_mode: ClockMode,
    /// Whether the service has closed.
    pub closed: bool,
    /// The instant at which the service was made.
    pub genesis: Instant,
    /// The published clock reading, in nanoseconds after the genesis.
    pub observed: u64,
    /// The operations that wait for the service.
    pub queue: QueueModel<W>,
    /// The timers of the delays that tasks hold.
    pub timers: Map<u64, TimerState<W>>,
    /// The next timer key.
    pub next_key: u64,
}

/// State that a timer service shares with tasks.
pub struct Shared<W> {
    /// Which clock handles read.
    pub clock_mode: ClockMode,
    /// Whether the service has closed.
    pub closed: bool,
    /// The clock reading that the service published last.
    pub observed: AtomicObservation,
    /// The operations that wait for the service.
    pub operations: OperationQueue<W>,
    /// The timers of the delays that tasks hold.
    pub timers: Timers<W>,
}

impl<W> View for Shared<W> {
    type V = SharedModel<W>;

    open spec fn view(&self) -> SharedModel<W> {
        SharedModel {
            clock_mode: self.clock_mode,
            closed: self.closed,
            genesis: self.observed.genesis,
            observed: self.observed.nanos,
            queue: self.operations@,
            timers: self.timers@,
            next_key: self.timers.next_key(),
        }
    }
}

impl<W> SharedModel<W> {
    /// The shared state of a new service.
    pub open spec fn new(genesis: Instant, clock_mode: ClockMode) -> SharedModel<W> {
        SharedModel {
            clock_mode,
            closed: false,
            genesis,
            observed: 0,
            queue: QueueModel {
                accepting: true,
                operations: Seq::empty(),
                reactor_waker: None,
            },
            timers: Map::empty(),
            next_key: 0,
        }
    }

    /// The published clock reading.
    pub open spec fn published(self) -> Instant {
        observation::reading(self.genesis, self.observed)
    }

    /// The clock reading of a handle when the system clock reads `wall`.
    pub open spec fn observation(self, wall: Instant) -> Instant {
        match self.clock_mode {
            ClockMode::System => crate::time::instant::later_of(wall, self.published()),
            ClockMode::Driven => self.published(),
        }
    }

    /// How far a timer has come.
    pub open spec fn lifecycle(self, key: u64) -> Lifecycle {
        timers::lifecycle_of(self.timers, key)
    }

    /// Whether the service takes no more delays: it has closed, or its queue has been
    /// disconnected.
    pub open spec fn refuses(self) -> bool {
        self.closed || !self.queue.accepting
    }

    /// The invariant of the shared state.
    ///
    /// Keys are unique, a fired timer fired at a published reading and not before its deadline,
    /// a timer is closed only with its service, and a delay waits only for a service that still
    /// runs: its registration is queued, or it is registered.
    pub open spec fn wf(self) -> bool {
        &&& self.genesis.nanos + self.observed <= i128::MAX
        &&& forall|key: u64| #[trigger] self.timers.contains_key(key) ==> key < self.next_key
        &&& forall|key: u64| #[trigger]
            self.timers.contains_key(key) ==> {
                &&& self.timers[key].wf()
                &&& !(self.timers[key].lifecycle is Cancelled)
                &&& self.timers[key].lifecycle is Closed ==> self.refuses()
                &&& self.timers[key].lifecycle is Fired ==> self.timers[key].fired_nanos
                    <= self.observed && self.timers[key].deadline@.elapsed(
                    observation::reading(self.genesis, self.timers[key].fired_nanos),
                )
                &&& self.timers[key].lifecycle is Submitted ==> self.timers[key].slot is None
                    && queue::awaits(self.queue.operations, key)
                &&& self.timers[key].lifecycle is Registered ==> self.timers[key].slot is Some
            }
        &&& forall|i: int, key: u64| #[trigger]
            queue::registers(self.queue.operations, i, key) ==> key < self.next_key && (
            self.timers.contains_key(key) ==> self.queue.operations[i]->Register_0.deadline
                == self.timers[key].deadline@)
        &&& forall|i: int, j: int, key: u64| #[trigger]
            queue::registers(self.queue.operations, i, key) && #[trigger] queue::registers(
                self.queue.operations,
                j,
                key,
            ) ==> i == j
        &&& forall|i: int, key: u64, slot: usize| #[trigger]
            queue::cancels(self.queue.operations, i, key, slot) ==> key < self.next_key
                && !self.timers.contains_key(key)
        &&& self.closed ==> !self.queue.accepting && self.queue.operations.len() == 0
        &&& self.closed ==> forall|key: u64| #[trigger]
            self.timers.contains_key(key) ==> self.timers[key].lifecycle.is_terminal()
    }
}

impl<W> Shared<W> {
    /// The shared state of a new service.
    pub fn new(genesis: Instant, clock_mode: ClockMode) -> (shared: Shared<W>)
        ensures
            shared@ == SharedModel::<W>::new(genesis, clock_mode),
            shared@.wf(),
    {
        let shared = Shared {
            clock_mode,
            closed: false,
            observed: AtomicObservation::new(genesis),
            operations: OperationQueue::new(),
            timers: Timers::new(),
        };
        proof {
            let model = SharedModel::<W>::new(genesis, clock_mode);
            assert(shared@.timers =~= model.timers);
        }
        shared
    }

    /// The clock reading of a handle when the system clock reads `wall`.
    pub fn observation(&self, wall: Instant) -> (now: Instant)
        requires
            self@.wf(),
        ensures
            now == self@.observation(wall),
    {
        let published: Instant = self.observed.load();
        match self.clock_mode {
            ClockMode::System => wall.max(published),
            ClockMode::Driven => published,
        }
    }

    /// Queues an operation and returns the reactor's waker when it has to run; returns the
    /// operation when the service takes none.
    pub fn send(&mut self, operation: Operation) -> (sent: Result<Option<Waker<W>>, Operation>)
        ensures
            final(self)@ == (SharedModel {
                queue: old(self)@.queue.sent(operation),
                ..old(self)@
            }),
            match sent {
                Ok(waker) => old(self)@.queue.accepting && waker
                    == old(self)@.queue.woken_by_send(),
                Err(returned) => !old(self)@.queue.accepting && returned == operation,
            },
    {
        self.operations.send(operation)
    }
}

} // verus!
