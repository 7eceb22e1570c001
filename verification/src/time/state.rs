//! State that a delay and the service share.

use vstd::prelude::*;

use crate::time::deadline::Deadline;
use crate::time::waker::{Released, Waker, WakerIdentity};

verus! {

/// How far a submitted delay has come.
#[derive(Clone, Copy, Debug, PartialEq, Eq, Structural)]
pub enum Lifecycle {
    /// The delay asked for registration; the service has not answered yet.
    Submitted,
    /// The service has linked the timer into its wheel.
    Registered,
    /// The service reached the deadline.
    Fired,
    /// The delay was dropped before it completed.
    Cancelled,
    /// The service closed before the delay completed.
    Closed,
}

impl Lifecycle {
    /// Whether nothing can happen to the timer any more.
    pub open spec fn is_terminal(self) -> bool {
        self is Fired || self is Cancelled || self is Closed
    }
}

/// Who may touch the waker of a slot.
#[derive(Clone, Copy, Debug, PartialEq, Eq, Structural)]
pub enum SlotState {
    /// Whoever claims the slot first.
    Ready,
    /// The polling task, which replaces the waker.
    Registering,
    /// Nobody but a polling task that had claimed the slot before. This state is never left.
    Terminal,
}

/// The waker of the task that polls a delay.
///
/// Each method is one indivisible step, and a publisher's [`take`](DelayWakeSlot::take) may come
/// between a poller's [`claim`](DelayWakeSlot::claim) and its
/// [`complete`](DelayWakeSlot::complete). A publisher that finds the slot claimed leaves the
/// waker to the poller, which then reads the published lifecycle.
pub struct DelayWakeSlot<W> {
    /// Who may touch the waker.
    pub state: SlotState,
    /// The stored waker.
    pub waker: Option<Waker<W>>,
}

impl<W> DelayWakeSlot<W> {
    /// The slot after a polling task has tried to claim it.
    pub open spec fn claimed(self) -> DelayWakeSlot<W> {
        if self.state is Ready {
            DelayWakeSlot { state: SlotState::Registering, waker: self.waker }
        } else {
            self
        }
    }

    /// The slot after the polling task that claimed it has brought its waker.
    pub open spec fn completed(self, waker: Waker<W>) -> DelayWakeSlot<W> {
        if self.state is Terminal {
            DelayWakeSlot { state: SlotState::Terminal, waker: None }
        } else {
            DelayWakeSlot { state: SlotState::Ready, waker: Some(waker) }
        }
    }

    /// The slot after a publisher has ended its use.
    pub open spec fn ended(self) -> DelayWakeSlot<W> {
        DelayWakeSlot {
            state: SlotState::Terminal,
            waker: if self.state is Ready {
                None
            } else {
                self.waker
            },
        }
    }

    /// The waker that a publisher gets when it ends the use of the slot.
    pub open spec fn taken(self) -> Option<Waker<W>> {
        if self.state is Ready {
            self.waker
        } else {
            None
        }
    }

    /// A slot that holds a waker.
    pub fn new(waker: Waker<W>) -> (slot: DelayWakeSlot<W>)
        ensures
            slot == (DelayWakeSlot { state: SlotState::Ready, waker: Some(waker) }),
    {
        DelayWakeSlot { state: SlotState::Ready, waker: Some(waker) }
    }

    /// Claims the slot for a polling task; fails when a terminal state has been published.
    pub fn claim(&mut self) -> (claimed: bool)
        ensures
            claimed == (old(self).state is Ready),
            *final(self) == old(self).claimed(),
            final(self).waker == old(self).waker,
            final(self).state == if claimed {
                SlotState::Registering
            } else {
                old(self).state
            },
    {
        match self.state {
            SlotState::Ready => {
                self.state = SlotState::Registering;
                true
            },
            _ => false,
        }
    }

    /// Replaces the waker of a claimed slot and gives the slot back. When a terminal state was
    /// published in the meantime, no waker stays behind.
    pub fn complete(&mut self, waker: Waker<W>) -> (released: Released<W>)
        requires
            !(old(self).state is Ready),
        ensures
            *final(self) == old(self).completed(waker),
            old(self).state is Terminal ==> final(self).state is Terminal
                && final(self).waker is None,
            old(self).state is Registering ==> final(self).state is Ready && final(self).waker
                == Some(waker),
            released == (Released {
                previous: old(self).waker,
                unused: if old(self).state is Terminal {
                    Some(waker)
                } else {
                    None
                },
            }),
    {
        let previous: Option<Waker<W>> = self.waker.take();
        match self.state {
            SlotState::Terminal => Released { previous, unused: Some(waker) },
            _ => {
                self.waker = Some(waker);
                self.state = SlotState::Ready;
                Released { previous, unused: None }
            },
        }
    }

    /// Ends the use of the slot and takes its waker out, unless a polling task has claimed it.
    pub fn take(&mut self) -> (waker: Option<Waker<W>>)
        ensures
            *final(self) == old(self).ended(),
            waker == old(self).taken(),
            final(self).state is Terminal,
            old(self).state is Ready ==> waker == old(self).waker && final(self).waker is None,
            !(old(self).state is Ready) ==> waker is None && final(self).waker == old(self).waker,
    {
        let before: SlotState = self.state;
        self.state = SlotState::Terminal;
        match before {
            SlotState::Ready => self.waker.take(),
            _ => None,
        }
    }

    /// Ends the use of the slot; the waker that it held need not run.
    pub fn clear(&mut self) -> (released: Option<Waker<W>>)
        ensures
            *final(self) == old(self).ended(),
            released == old(self).taken(),
            final(self).state is Terminal,
            old(self).state is Ready ==> released == old(self).waker && final(self).waker is None,
            !(old(self).state is Ready) ==> released is None && final(self).waker == old(self).waker,
    {
        self.take()
    }

    /// Registers the waker of a polling task, then loads the lifecycle that it has to act on.
    /// Returns both the lifecycle and the identity of the registered waker; without an identity
    /// when a terminal state was published before.
    pub fn register_and_load(&mut self, waker: Waker<W>, lifecycle: &Lifecycle) -> (outcome: (
        Lifecycle,
        Option<WakerIdentity>,
        Released<W>,
    ))
        ensures
            outcome.0 == *lifecycle,
            if old(self).state is Ready {
                &&& outcome.1 == Some(waker.identity)
                &&& outcome.2 == (Released { previous: old(self).waker, unused: None })
                &&& *final(self) == old(self).claimed().completed(waker)
            } else {
                &&& outcome.1 is None
                &&& outcome.2 == (Released { previous: None, unused: Some(waker) })
                &&& *final(self) == *old(self)
            },
    {
        let identity: WakerIdentity = WakerIdentity::new(&waker);
        if !self.claim() {
            return (*lifecycle, None, Released { previous: None, unused: Some(waker) });
        }
        let released: Released<W> = self.complete(waker);
        (*lifecycle, Some(identity), released)
    }
}

/// What the slot does when its use is ended while a task registers its waker: before the task
/// claims the slot, the claim fails; between claim and completion, the publisher gets no waker;
/// after completion, the publisher gets the task's waker. In each case no waker stays behind.
pub proof fn law_slot_hands_each_waker_on<W>(slot: DelayWakeSlot<W>, waker: Waker<W>)
    requires
        slot.state is Ready,
    ensures
        // Published first.
        slot.ended().state is Terminal && slot.ended().claimed() == slot.ended(),
        slot.ended().waker is None,
        // Published in between.
        slot.claimed().taken() is None,
        slot.claimed().ended().completed(waker) == (DelayWakeSlot::<W> {
            state: SlotState::Terminal,
            waker: None,
        }),
        // Published last.
        slot.claimed().completed(waker).taken() == Some(waker),
        slot.claimed().completed(waker).ended().waker is None,
{
}

/// A slot whose use has ended stays ended.
pub proof fn law_terminal_slot_is_absorbing<W>(slot: DelayWakeSlot<W>, waker: Waker<W>)
    requires
        slot.state is Terminal,
    ensures
        slot.claimed().state is Terminal,
        slot.completed(waker).state is Terminal,
        slot.ended().state is Terminal,
        slot.taken() is None,
{
}

/// The state of one submitted delay.
pub struct TimerState<W> {
    /// When the delay is due.
    pub deadline: Ghost<Deadline>,
    /// When the timer fired, in nanoseconds after the service's genesis.
    pub fired_nanos: u64,
    /// How far the delay has come.
    pub lifecycle: Lifecycle,
    /// The wheel entry that the timer is linked under.
    pub slot: Option<usize>,
    /// The waker of the task that polls the delay.
    pub waker: DelayWakeSlot<W>,
}

impl<W> TimerState<W> {
    /// The state of a delay that has just been submitted.
    pub open spec fn submitted(deadline: Deadline, waker: Waker<W>) -> TimerState<W> {
        TimerState {
            deadline: Ghost(deadline),
            fired_nanos: 0,
            lifecycle: Lifecycle::Submitted,
            slot: None,
            waker: DelayWakeSlot { state: SlotState::Ready, waker: Some(waker) },
        }
    }

    /// The state after the lifecycle has been moved from `from` to `to`, if it was `from`.
    pub open spec fn moved(self, from: Lifecycle, to: Lifecycle) -> TimerState<W> {
        if self.lifecycle == from {
            TimerState { lifecycle: to, ..self }
        } else {
            self
        }
    }

    /// The state after a publisher has ended the use of the waker slot.
    pub open spec fn unhooked(self) -> TimerState<W> {
        TimerState { waker: self.waker.ended(), ..self }
    }

    /// The state after a terminal lifecycle has been published from `from`.
    pub open spec fn published(self, from: Lifecycle, to: Lifecycle) -> TimerState<W> {
        if self.lifecycle == from {
            self.moved(from, to).unhooked()
        } else {
            self
        }
    }

    /// A live timer holds its task's waker, and a finished one holds none.
    pub open spec fn wf(self) -> bool {
        if self.lifecycle.is_terminal() {
            self.waker.state is Terminal && self.waker.waker is None && self.slot is None
        } else {
            self.waker.state is Ready && self.waker.waker is Some
        }
    }

    /// A delay that has just been submitted.
    pub fn new(deadline: Deadline, waker: Waker<W>) -> (state: TimerState<W>)
        ensures
            state == TimerState::submitted(deadline, waker),
    {
        TimerState {
            deadline: Ghost(deadline),
            fired_nanos: 0,
            lifecycle: Lifecycle::Submitted,
            slot: None,
            waker: DelayWakeSlot::new(waker),
        }
    }

    /// Moves the lifecycle from `from` to `to`, and tells whether it was `from`.
    pub fn move_lifecycle(&mut self, from: Lifecycle, to: Lifecycle) -> (moved: bool)
        ensures
            *final(self) == old(self).moved(from, to),
            final(self).lifecycle == if moved {
                to
            } else {
                old(self).lifecycle
            },
            final(self).waker == old(self).waker,
            moved == (old(self).lifecycle == from),
    {
        if self.lifecycle == from {
            self.lifecycle = to;
            true
        } else {
            false
        }
    }

    /// Ends the timer when it is still in state `from`, and returns the waker to run.
    ///
    /// The lifecycle moves before the slot is taken, so a polling task that finds the slot taken
    /// loads the new lifecycle.
    pub fn publish_terminal(&mut self, from: Lifecycle, to: Lifecycle) -> (waker: Option<Waker<W>>)
        ensures
            *final(self) == old(self).published(from, to),
            waker == if old(self).lifecycle == from {
                old(self).waker.taken()
            } else {
                None
            },
    {
        if self.move_lifecycle(from, to) {
            self.waker.take()
        } else {
            None
        }
    }
}

} // verus!
