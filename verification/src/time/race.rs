//! A task that registers its waker while the timer's end is published.
//!
//! Publication takes two indivisible steps: the lifecycle moves, then the waker slot is taken
//! ([`TimerState::publish_terminal`]). Registration takes three: the slot is claimed, the waker is
//! stored, then the lifecycle is loaded ([`DelayWakeSlot::register_and_load`]). A [`Race`] is a
//! timer on which both are under way, and its steps may come in any order.

use vstd::prelude::*;

use crate::time::state::{DelayWakeSlot, Lifecycle, SlotState, TimerState};
use crate::time::waker::Waker;

verus! {

/// How far a polling task has come with its registration.
pub enum Registration {
    /// The task has not begun.
    Start,
    /// The slot is claimed.
    Claimed,
    /// The slot could not be claimed.
    Refused,
    /// The waker is stored, or handed back when the slot was taken in the meantime.
    Stored,
    /// The task has loaded this lifecycle and acts on it.
    Loaded(Lifecycle),
}

/// How far a publisher has come.
pub enum Publication<W> {
    /// The publisher has not begun.
    Start,
    /// The lifecycle has moved; whether it was the expected one.
    Moved(bool),
    /// The publisher has finished and runs this waker.
    Done(Option<Waker<W>>),
}

/// Who takes a step.
pub enum Side {
    /// The polling task.
    Task,
    /// The publisher.
    Publisher,
}

/// A timer whose end is published while a task registers its waker.
pub struct Race<W> {
    /// The timer.
    pub state: TimerState<W>,
    /// How far the task has come.
    pub registration: Registration,
    /// How far the publisher has come.
    pub publication: Publication<W>,
}

impl<W> Race<W> {
    /// A race that has not begun.
    pub open spec fn start(state: TimerState<W>) -> Race<W> {
        Race { state, registration: Registration::Start, publication: Publication::Start }
    }

    /// The race after the task's next step.
    pub open spec fn task_step(self, waker: Waker<W>) -> Race<W> {
        match self.registration {
            Registration::Start => Race {
                state: TimerState { waker: self.state.waker.claimed(), ..self.state },
                registration: if self.state.waker.state is Ready {
                    Registration::Claimed
                } else {
                    Registration::Refused
                },
                ..self
            },
            Registration::Claimed => Race {
                state: TimerState { waker: self.state.waker.completed(waker), ..self.state },
                registration: Registration::Stored,
                ..self
            },
            Registration::Refused | Registration::Stored => Race {
                registration: Registration::Loaded(self.state.lifecycle),
                ..self
            },
            Registration::Loaded(_) => self,
        }
    }

    /// The race after the publisher's next step.
    pub open spec fn publisher_step(self, from: Lifecycle, to: Lifecycle) -> Race<W> {
        match self.publication {
            Publication::Start => Race {
                state: self.state.moved(from, to),
                publication: Publication::Moved(self.state.lifecycle == from),
                ..self
            },
            Publication::Moved(true) => Race {
                state: self.state.unhooked(),
                publication: Publication::Done(self.state.waker.taken()),
                ..self
            },
            Publication::Moved(false) => Race { publication: Publication::Done(None), ..self },
            Publication::Done(_) => self,
        }
    }

    /// The race after one side's next step.
    pub open spec fn step(
        self,
        side: Side,
        waker: Waker<W>,
        from: Lifecycle,
        to: Lifecycle,
    ) -> Race<W> {
        match side {
            Side::Task => self.task_step(waker),
            Side::Publisher => self.publisher_step(from, to),
        }
    }

    /// The race after steps in the given order.
    pub open spec fn run(
        self,
        order: Seq<Side>,
        waker: Waker<W>,
        from: Lifecycle,
        to: Lifecycle,
    ) -> Race<W>
        decreases order.len(),
    {
        if order.len() == 0 {
            self
        } else {
            self.run(order.drop_last(), waker, from, to).step(order.last(), waker, from, to)
        }
    }

    /// Whether the registration is over.
    pub open spec fn task_is_done(self) -> bool {
        self.registration is Loaded
    }

    /// Whether the publication is over.
    pub open spec fn publisher_is_done(self) -> bool {
        self.publication is Done
    }

    /// What holds at every moment of a race that began with a live timer whose slot held `held`.
    spec fn in_order(
        self,
        held: Waker<W>,
        waker: Waker<W>,
        from: Lifecycle,
        to: Lifecycle,
    ) -> bool {
        let slot = self.state.waker;
        let ended = self.publication is Done;
        // The lifecycle has moved once the publisher has begun, and the slot is taken last.
        &&& self.state.lifecycle == if self.publication is Start {
            from
        } else {
            to
        }
        &&& self.publication matches Publication::Moved(moved) ==> moved
        &&& ended <==> slot.state is Terminal
        &&& match self.registration {
            Registration::Start => if ended {
                slot.waker is None && self.publication == Publication::Done(Some(held))
            } else {
                slot.state is Ready && slot.waker == Some(held)
            },
            Registration::Claimed => {
                &&& slot.waker == Some(held)
                &&& if ended {
                    self.publication == Publication::Done(None::<Waker<W>>)
                } else {
                    slot.state is Registering
                }
            },
            Registration::Refused => ended && slot.waker is None && self.publication
                == Publication::Done(Some(held)),
            Registration::Stored => if ended {
                slot.waker is None && (self.publication == Publication::Done(None::<Waker<W>>)
                    || self.publication == Publication::Done(Some(waker)))
            } else {
                slot.state is Ready && slot.waker == Some(waker)
            },
            Registration::Loaded(lifecycle) => {
                &&& lifecycle == from || lifecycle == to
                &&& if ended {
                    &&& slot.waker is None
                    &&& lifecycle == to || self.publication == Publication::Done(Some(waker))
                } else {
                    slot.state is Ready && slot.waker == Some(waker)
                }
            },
        }
    }
}

/// The steps that one side has taken.
pub open spec fn steps_of(order: Seq<Side>, side: Side) -> nat
    decreases order.len(),
{
    if order.len() == 0 {
        0
    } else {
        steps_of(order.drop_last(), side) + if order.last() == side {
            1nat
        } else {
            0nat
        }
    }
}

/// Every moment of a race is in order.
proof fn lemma_run_is_in_order<W>(
    state: TimerState<W>,
    order: Seq<Side>,
    held: Waker<W>,
    waker: Waker<W>,
    from: Lifecycle,
    to: Lifecycle,
)
    requires
        state.lifecycle == from,
        from != to,
        state.waker == (DelayWakeSlot { state: SlotState::Ready, waker: Some(held) }),
    ensures
        Race::start(state).run(order, waker, from, to).in_order(held, waker, from, to),
    decreases order.len(),
{
    if order.len() > 0 {
        lemma_run_is_in_order(state, order.drop_last(), held, waker, from, to);
    }
}

/// No wake-up is lost, in whatever order the steps of a registration and of a publication come.
/// Once both are over:
/// - the task has loaded the terminal lifecycle, or the publisher runs the task's waker and no
///   other one;
/// - no waker stays behind, and the timer has ended.
pub proof fn law_no_order_loses_a_wake<W>(
    state: TimerState<W>,
    order: Seq<Side>,
    waker: Waker<W>,
    from: Lifecycle,
    to: Lifecycle,
)
    requires
        state.wf(),
        state.lifecycle == from,
        !from.is_terminal(),
        to.is_terminal(),
        Race::start(state).run(order, waker, from, to).task_is_done(),
        Race::start(state).run(order, waker, from, to).publisher_is_done(),
    ensures
        ({
            let end = Race::start(state).run(order, waker, from, to);
            let loaded = end.registration->Loaded_0;
            let woken = end.publication->Done_0;
            &&& loaded == to || loaded == from && woken == Some(waker)
            &&& end.state.lifecycle == to
            &&& end.state.waker.state is Terminal
            &&& end.state.waker.waker is None
        }),
{
    let held = state.waker.waker->0;
    lemma_run_is_in_order(state, order, held, waker, from, to);
}

/// A task whose poll is pending has its waker in the slot until the timer's end is published, and
/// the publisher then runs that waker: at no moment of a race is a pending task forgotten.
pub proof fn law_pending_task_is_not_forgotten<W>(
    state: TimerState<W>,
    order: Seq<Side>,
    waker: Waker<W>,
    from: Lifecycle,
    to: Lifecycle,
)
    requires
        state.wf(),
        state.lifecycle == from,
        !from.is_terminal(),
        to.is_terminal(),
        Race::start(state).run(order, waker, from, to).registration == Registration::Loaded(from),
    ensures
        ({
            let now = Race::start(state).run(order, waker, from, to);
            if now.publisher_is_done() {
                now.publication == Publication::Done(Some(waker))
            } else {
                now.state.waker.taken() == Some(waker)
            }
        }),
{
    let held = state.waker.waker->0;
    lemma_run_is_in_order(state, order, held, waker, from, to);
}

/// Every order comes to an end: a registration is over after three steps of the task, and a
/// publication after two steps of the publisher.
pub proof fn law_every_order_ends<W>(
    race: Race<W>,
    order: Seq<Side>,
    waker: Waker<W>,
    from: Lifecycle,
    to: Lifecycle,
)
    ensures
        steps_of(order, Side::Task) >= 3 ==> race.run(order, waker, from, to).task_is_done(),
        steps_of(order, Side::Publisher) >= 2 ==> race.run(
            order,
            waker,
            from,
            to,
        ).publisher_is_done(),
{
    lemma_stages(race, order, waker, from, to);
}

/// Each step of a side brings it a stage further.
proof fn lemma_stages<W>(
    race: Race<W>,
    order: Seq<Side>,
    waker: Waker<W>,
    from: Lifecycle,
    to: Lifecycle,
)
    ensures
        ({
            let now = race.run(order, waker, from, to);
            let task = steps_of(order, Side::Task);
            let publisher = steps_of(order, Side::Publisher);
            &&& task >= 1 ==> !(now.registration is Start)
            &&& task >= 2 ==> now.registration is Stored || now.registration is Loaded
            &&& task >= 3 ==> now.registration is Loaded
            &&& publisher >= 1 ==> !(now.publication is Start)
            &&& publisher >= 2 ==> now.publication is Done
        }),
    decreases order.len(),
{
    if order.len() > 0 {
        lemma_stages(race, order.drop_last(), waker, from, to);
    }
}

/// Run one after the other, the steps are those of the two methods.
pub proof fn law_steps_are_those_of_the_methods<W>(
    race: Race<W>,
    waker: Waker<W>,
    from: Lifecycle,
    to: Lifecycle,
)
    requires
        race.registration is Start,
        race.publication is Start,
    ensures
        race.publisher_step(from, to).publisher_step(from, to).state == race.state.published(
            from,
            to,
        ),
        race.publisher_step(from, to).publisher_step(from, to).publication == Publication::Done(
            if race.state.lifecycle == from {
                race.state.waker.taken()
            } else {
                None
            },
        ),
        race.state.waker.state is Ready ==> race.task_step(waker).task_step(waker).task_step(
            waker,
        ) == (Race {
            state: TimerState {
                waker: race.state.waker.claimed().completed(waker),
                ..race.state
            },
            registration: Registration::Loaded(race.state.lifecycle),
            ..race
        }),
{
}

/// Of two publishers one wins: the timer ends once, and the other one changes nothing and runs no
/// waker. So a timer that fires while its delay is given up is reclaimed once.
pub proof fn law_one_publisher_wins<W>(
    state: TimerState<W>,
    from: Lifecycle,
    first: Lifecycle,
    second: Lifecycle,
)
    requires
        state.lifecycle == from,
        first != from,
    ensures
        state.moved(from, first).lifecycle == first,
        state.moved(from, first).moved(from, second) == state.moved(from, first),
        state.published(from, first).published(from, second) == state.published(from, first),
{
}

} // verus!
