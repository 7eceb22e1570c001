//! Timeouts.

use vstd::prelude::*;

use crate::time::delay::{Delay, DelayDrop, DelayPoll};
use crate::time::instant::Instant;
use crate::time::poll::{Poll, TimeoutError, TimerClosed};
use crate::time::shared::{Shared, SharedModel};
use crate::time::waker::{Released, Waker};

verus! {

/// Guards an operation with a delay.
#[derive(Debug)]
#[must_use]
pub struct Timeout {
    /// The delay that ends the operation.
    pub delay: Delay,
}

/// What polling a guarded operation led to.
pub struct TimeoutPoll<T, W> {
    /// The operation's value, or why there is none.
    pub result: Poll<Result<T, TimeoutError>>,
    /// The reactor's waker, when it has to run.
    pub wake: Option<Waker<W>>,
    /// Wakers that are no longer needed.
    pub released: Released<W>,
}

impl Timeout {
    /// A guard that ends with `delay`.
    pub fn new(delay: Delay) -> (timeout: Timeout)
        ensures
            timeout == (Timeout { delay }),
    {
        Timeout { delay }
    }

    /// What polling the guarded operation leads to, where `guarded` is the operation's own
    /// outcome. The operation wins when both are ready.
    pub open spec fn poll_outcome<T, W>(
        self,
        guarded: Poll<T>,
        shared: SharedModel<W>,
        wall: Instant,
        waker: Waker<W>,
    ) -> TimeoutPoll<T, W> {
        match guarded {
            Poll::Ready(value) => TimeoutPoll {
                result: Poll::Ready(Ok(value)),
                wake: None,
                released: Released { previous: None, unused: Some(waker) },
            },
            Poll::Pending => {
                let poll = self.delay.poll_outcome(shared, wall, waker);
                TimeoutPoll {
                    result: match poll.result {
                        Poll::Ready(Ok(())) => Poll::Ready(Err(TimeoutError::Elapsed)),
                        Poll::Ready(Err(_)) => Poll::Ready(Err(TimeoutError::Closed)),
                        Poll::Pending => Poll::Pending,
                    },
                    wake: poll.wake,
                    released: poll.released,
                }
            },
        }
    }

    /// Combines the outcome of the guarded operation with the delay. The delay is polled only
    /// when the operation is not ready.
    pub fn poll<T, W>(
        &mut self,
        guarded: Poll<T>,
        shared: &mut Shared<W>,
        wall: Instant,
        waker: Waker<W>,
    ) -> (outcome: TimeoutPoll<T, W>)
        requires
            old(shared)@.wf(),
            guarded is Pending && old(self).delay.submits(old(shared)@, wall) ==> old(
                shared,
            )@.next_key < u64::MAX,
            old(self).delay.wf(old(shared)@),
        ensures
            final(shared)@.wf(),
            final(self).delay.wf(final(shared)@),
            outcome == old(self).poll_outcome(guarded, old(shared)@, wall, waker),
            // The operation's value wins; without one, the delay decides.
            guarded matches Poll::Ready(value) ==> outcome.result == Poll::<
                Result<T, TimeoutError>,
            >::Ready(Ok(value)),
            outcome.result matches Poll::Ready(Ok(value)) ==> guarded == Poll::Ready(value),
            guarded is Pending ==> {
                let delay = old(self).delay.poll_outcome(old(shared)@, wall, waker).result;
                &&& outcome.result is Pending <==> delay is Pending
                &&& outcome.result == Poll::<Result<T, TimeoutError>>::Ready(
                    Err(TimeoutError::Elapsed),
                ) <==> delay == Poll::<Result<(), TimerClosed>>::Ready(Ok(()))
            },
            match guarded {
                Poll::Ready(_) => *final(self) == *old(self) && final(shared)@ == old(shared)@,
                Poll::Pending => {
                    &&& final(self).delay == old(self).delay.polled(old(shared)@, wall, waker)
                    &&& final(shared)@ == old(self).delay.shared_after_poll(
                        old(shared)@,
                        wall,
                        waker,
                    )
                },
            },
    {
        match guarded {
            Poll::Ready(value) => TimeoutPoll {
                result: Poll::Ready(Ok(value)),
                wake: None,
                released: Released { previous: None, unused: Some(waker) },
            },
            Poll::Pending => {
                let poll: DelayPoll<W> = self.delay.poll(shared, wall, waker);
                let result: Poll<Result<T, TimeoutError>> = match poll.result {
                    Poll::Ready(Ok(())) => Poll::Ready(Err(TimeoutError::Elapsed)),
                    Poll::Ready(Err(_)) => Poll::Ready(Err(TimeoutError::Closed)),
                    Poll::Pending => Poll::Pending,
                };
                TimeoutPoll { result, wake: poll.wake, released: poll.released }
            },
        }
    }

    /// Gives the guard up.
    pub fn cancel<W>(self, shared: &mut Shared<W>) -> (outcome: DelayDrop<W>)
        requires
            old(shared)@.wf(),
            self.delay.wf(old(shared)@),
        ensures
            final(shared)@.wf(),
            final(shared)@ == self.delay.shared_after_drop(old(shared)@),
            outcome == self.delay.drop_outcome(old(shared)@),
    {
        self.delay.cancel(shared)
    }
}

/// A timeout ends an operation only when its deadline has come, or its service takes no more
/// delays, and it says which.
pub proof fn law_timeout_tells_why_it_ended<T, W>(
    timeout: Timeout,
    guarded: Poll<T>,
    shared: SharedModel<W>,
    wall: Instant,
    waker: Waker<W>,
)
    requires
        shared.wf(),
        timeout.delay.wf(shared),
        timeout.delay.fired_at is None,
    ensures
        timeout.poll_outcome(guarded, shared, wall, waker).result == Poll::<
            Result<T, TimeoutError>,
        >::Ready(Err(TimeoutError::Elapsed)) ==> timeout.delay.deadline.elapsed(
            shared.observation(wall),
        ),
        timeout.poll_outcome(guarded, shared, wall, waker).result == Poll::<
            Result<T, TimeoutError>,
        >::Ready(Err(TimeoutError::Closed)) ==> shared.refuses(),
{
    if let Some(key) = timeout.delay.state {
        assert(shared.timers.contains_key(key));
    }
}

/// A value that is there is never lost: whenever the guarded operation is ready, the poll returns
/// its value, whatever has become of the delay and of the service, and nobody is woken. A value is
/// returned only when the operation is ready with it.
pub proof fn law_value_is_never_lost<T, W>(
    timeout: Timeout,
    guarded: Poll<T>,
    shared: SharedModel<W>,
    wall: Instant,
    waker: Waker<W>,
    value: T,
)
    ensures
        timeout.poll_outcome(guarded, shared, wall, waker).result == Poll::<
            Result<T, TimeoutError>,
        >::Ready(Ok(value)) <==> guarded == Poll::Ready(value),
        guarded is Ready ==> {
            let outcome = timeout.poll_outcome(guarded, shared, wall, waker);
            &&& outcome.result is Ready
            &&& outcome.wake is None
            &&& outcome.released == (Released { previous: None, unused: Some(waker) })
        },
{
}

/// While the operation is not ready, the delay decides: the poll is pending exactly as long as the
/// delay is, and then it ends as the delay does. Wakers are handed on as the delay hands them on.
pub proof fn law_delay_decides_without_value<T, W>(
    timeout: Timeout,
    shared: SharedModel<W>,
    wall: Instant,
    waker: Waker<W>,
)
    ensures
        ({
            let outcome = timeout.poll_outcome(Poll::<T>::Pending, shared, wall, waker);
            let delay = timeout.delay.poll_outcome(shared, wall, waker);
            &&& outcome.result is Pending <==> delay.result is Pending
            &&& outcome.result == Poll::<Result<T, TimeoutError>>::Ready(
                Err(TimeoutError::Elapsed),
            ) <==> delay.result == Poll::<Result<(), TimerClosed>>::Ready(Ok(()))
            &&& outcome.result == Poll::<Result<T, TimeoutError>>::Ready(
                Err(TimeoutError::Closed),
            ) <==> delay.result == Poll::<Result<(), TimerClosed>>::Ready(Err(TimerClosed))
            &&& outcome.wake == delay.wake
            &&& outcome.released == delay.released
        }),
{
}

} // verus!
