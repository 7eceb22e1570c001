//! Queue of operations that tasks submit to the service.
//!
//! The queue also holds the reactor's waker. Registering it and finding the queue empty is one
//! step, and so is queueing the first operation and taking the waker out, so an operation that
//! arrives while the reactor prepares to wait is either seen by it or wakes it.

use std::collections::VecDeque;

use vstd::prelude::*;

use crate::time::deadline::Deadline;
use crate::time::waker::{Released, Waker};

verus! {

/// A delay that asks to be registered.
#[derive(Clone, Copy, Debug, PartialEq, Eq, Structural)]
pub struct RegisterOp {
    /// When the delay is due.
    pub deadline: Deadline,
    /// The delay's timer.
    pub key: u64,
}

/// A message from a task to the service.
#[derive(Clone, Copy, Debug, PartialEq, Eq, Structural)]
pub enum Operation {
    /// Register a delay.
    Register(RegisterOp),
    /// Unlink a delay that was dropped after it had been registered.
    Cancel {
        /// The delay's timer.
        key: u64,
        /// The wheel entry that the timer was registered under.
        slot: usize,
    },
}

/// Whether the operation at position `i` asks for the registration of a timer.
pub open spec fn registers(operations: Seq<Operation>, i: int, key: u64) -> bool {
    &&& 0 <= i < operations.len()
    &&& operations[i] matches Operation::Register(operation) && operation.key == key
}

/// Whether one of the operations asks for the registration of a timer.
pub open spec fn awaits(operations: Seq<Operation>, key: u64) -> bool {
    exists|i: int| #[trigger] registers(operations, i, key)
}

/// Whether the operation at position `i` cancels a timer.
pub open spec fn cancels(operations: Seq<Operation>, i: int, key: u64, slot: usize) -> bool {
    &&& 0 <= i < operations.len()
    &&& operations[i] == (Operation::Cancel { key, slot })
}

/// What an operation queue holds.
#[verifier::ext_equal]
pub struct QueueModel<W> {
    /// Whether operations are still taken.
    pub accepting: bool,
    /// The queued operations, oldest first.
    pub operations: Seq<Operation>,
    /// The waker of a reactor that waits for the first operation.
    pub reactor_waker: Option<Waker<W>>,
}

/// An unbounded queue of operations.
pub struct OperationQueue<W> {
    accepting: bool,
    operations: VecDeque<Operation>,
    reactor_waker: Option<Waker<W>>,
}

impl<W> QueueModel<W> {
    /// The queue after an operation has been offered.
    pub open spec fn sent(self, operation: Operation) -> QueueModel<W> {
        if !self.accepting {
            self
        } else {
            QueueModel {
                operations: self.operations.push(operation),
                reactor_waker: if self.operations.len() == 0 {
                    None
                } else {
                    self.reactor_waker
                },
                ..self
            }
        }
    }

    /// The waker that has to run because of an operation.
    pub open spec fn woken_by_send(self) -> Option<Waker<W>> {
        if self.accepting && self.operations.len() == 0 {
            self.reactor_waker
        } else {
            None
        }
    }

    /// Whether the reactor may wait: there is nothing to do, and something may still come.
    pub open spec fn idle(self) -> bool {
        self.accepting && self.operations.len() == 0
    }

    /// The queue after a reactor has offered its waker.
    pub open spec fn armed(self, waker: Waker<W>) -> QueueModel<W> {
        QueueModel {
            reactor_waker: if !self.idle() {
                None
            } else if self.holds(waker) {
                self.reactor_waker
            } else {
                Some(waker)
            },
            ..self
        }
    }

    /// Whether the queue already holds an equivalent waker.
    pub open spec fn holds(self, waker: Waker<W>) -> bool {
        self.reactor_waker matches Some(registered) && registered.identity == waker.identity
    }

    /// The wakers that are left over when a reactor has offered its waker.
    pub open spec fn released_by_arm(self, waker: Waker<W>) -> Released<W> {
        if !self.idle() {
            Released { previous: self.reactor_waker, unused: Some(waker) }
        } else if self.holds(waker) {
            Released { previous: None, unused: Some(waker) }
        } else {
            Released { previous: self.reactor_waker, unused: None }
        }
    }

    /// The queue without its oldest `count` operations.
    pub open spec fn skip(self, count: int) -> QueueModel<W> {
        QueueModel { operations: self.operations.skip(count), ..self }
    }

    /// The number of operations that a batch of at most `limit` takes.
    pub open spec fn batch(self, limit: int) -> int {
        if limit < self.operations.len() {
            limit
        } else {
            self.operations.len() as int
        }
    }

    /// The queue after it has been closed.
    pub open spec fn closed(self) -> QueueModel<W> {
        QueueModel { accepting: false, operations: Seq::empty(), reactor_waker: None }
    }
}

impl<W> View for OperationQueue<W> {
    type V = QueueModel<W>;

    closed spec fn view(&self) -> QueueModel<W> {
        QueueModel {
            accepting: self.accepting,
            operations: self.operations@,
            reactor_waker: self.reactor_waker,
        }
    }
}

impl<W> OperationQueue<W> {
    /// An empty queue that takes operations.
    pub fn new() -> (queue: OperationQueue<W>)
        ensures
            queue@ == (QueueModel::<W> {
                accepting: true,
                operations: Seq::empty(),
                reactor_waker: None,
            }),
    {
        OperationQueue { accepting: true, operations: VecDeque::new(), reactor_waker: None }
    }

    /// Queues an operation and returns the reactor's waker when it has to run; returns the
    /// operation when the queue takes none.
    pub fn send(&mut self, operation: Operation) -> (sent: Result<Option<Waker<W>>, Operation>)
        ensures
            final(self)@ == old(self)@.sent(operation),
            sent is Ok <==> old(self)@.accepting,
            final(self)@.operations == if old(self)@.accepting {
                old(self)@.operations.push(operation)
            } else {
                old(self)@.operations
            },
            sent matches Ok(waker) ==> waker == if old(self)@.operations.len() == 0 {
                old(self)@.reactor_waker
            } else {
                None
            },
            match sent {
                Ok(waker) => old(self)@.accepting && waker == old(self)@.woken_by_send(),
                Err(returned) => !old(self)@.accepting && returned == operation,
            },
    {
        if !self.accepting {
            return Err(operation);
        }
        let first: bool = self.operations.len() == 0;
        self.operations.push_back(operation);
        if first {
            Ok(self.reactor_waker.take())
        } else {
            Ok(None)
        }
    }

    /// Registers the reactor's waker when there is nothing to do, and tells whether it did.
    pub fn arm(&mut self, waker: Waker<W>) -> (outcome: (bool, Released<W>))
        ensures
            outcome.0 == old(self)@.idle(),
            outcome.0 <==> old(self)@.accepting && old(self)@.operations.len() == 0,
            final(self)@.operations == old(self)@.operations,
            final(self)@.accepting == old(self)@.accepting,
            final(self)@ == old(self)@.armed(waker),
            outcome.1 == old(self)@.released_by_arm(waker),
    {
        if self.operations.len() != 0 || !self.accepting {
            let previous: Option<Waker<W>> = self.reactor_waker.take();
            return (false, Released { previous, unused: Some(waker) });
        }
        let held: bool = match &self.reactor_waker {
            Some(registered) => registered.identity.matches(&waker),
            None => false,
        };
        if held {
            (true, Released { previous: None, unused: Some(waker) })
        } else {
            let previous: Option<Waker<W>> = self.reactor_waker.take();
            self.reactor_waker = Some(waker);
            (true, Released { previous, unused: None })
        }
    }

    /// The number of queued operations.
    pub fn len(&self) -> (len: usize)
        ensures
            len == self@.operations.len(),
    {
        self.operations.len()
    }

    /// Moves the oldest operations, at most `limit` of them, into an empty batch.
    pub fn drain_into(&mut self, limit: usize, target: &mut VecDeque<Operation>)
        requires
            old(target)@.len() == 0,
        ensures
            final(target)@ == old(self)@.operations.take(old(self)@.batch(limit as int)),
            final(self)@ == old(self)@.skip(old(self)@.batch(limit as int)),
            final(target)@ + final(self)@.operations == old(self)@.operations,
            final(target)@.len() == limit || final(self)@.operations.len() == 0,
            final(target)@.len() <= limit,
    {
        if limit >= self.operations.len() {
            std::mem::swap(target, &mut self.operations);
        } else {
            let rest: VecDeque<Operation> = self.operations.split_off(limit);
            let mut batch: VecDeque<Operation> = rest;
            std::mem::swap(&mut batch, &mut self.operations);
            target.append(&mut batch);
        }
        proof {
            let count = old(self)@.batch(limit as int);
            assert(self@.operations =~= old(self)@.operations.skip(count));
            assert(target@ =~= old(self)@.operations.take(count));
        }
    }

    /// Takes no more operations, and hands out the queued ones and the reactor's waker.
    pub fn close(&mut self) -> (left: (VecDeque<Operation>, Option<Waker<W>>))
        ensures
            final(self)@ == old(self)@.closed(),
            left.0@ == old(self)@.operations,
            final(self)@.operations.len() == 0 && !final(self)@.accepting,
            final(self)@.reactor_waker is None,
            left.1 == old(self)@.reactor_waker,
    {
        self.accepting = false;
        let mut queued: VecDeque<Operation> = VecDeque::new();
        std::mem::swap(&mut queued, &mut self.operations);
        (queued, self.reactor_waker.take())
    }

    /// Takes no more operations; the queued ones stay.
    pub fn disconnect(&mut self)
        ensures
            final(self)@ == (QueueModel { accepting: false, ..old(self)@ }),
    {
        self.accepting = false;
    }
}

/// No wake-up is lost: once a reactor's waker has been registered, the next operation hands out
/// an equivalent waker.
pub proof fn law_armed_reactor_is_woken<W>(queue: QueueModel<W>, waker: Waker<W>)
    requires
        queue.idle(),
    ensures
        queue.armed(waker).woken_by_send() matches Some(woken) && woken.identity == waker.identity,
{
}

/// A reactor that finds operations in the queue is not allowed to wait.
pub proof fn law_backlog_refuses_to_arm<W>(queue: QueueModel<W>, operation: Operation)
    requires
        queue.accepting,
    ensures
        !queue.sent(operation).idle(),
{
}

/// Operations wake the reactor once: while some are queued, another one hands out no waker.
pub proof fn law_wake_is_coalesced<W>(queue: QueueModel<W>, first: Operation)
    requires
        queue.accepting,
    ensures
        queue.sent(first).woken_by_send() is None,
{
}

} // verus!
