//! Outcomes of polling.

use vstd::prelude::*;

verus! {

/// Whether a value is there yet.
#[derive(Debug, PartialEq, Eq, Structural)]
pub enum Poll<T> {
    /// The value.
    Ready(T),
    /// Not yet.
    Pending,
}

impl<T> Poll<T> {
    /// Whether the value is there.
    pub fn is_ready(&self) -> (ready: bool)
        ensures
            ready == (self is Ready),
    {
        match self {
            Poll::Ready(_) => true,
            Poll::Pending => false,
        }
    }

    /// Whether the value is still missing.
    pub fn is_pending(&self) -> (pending: bool)
        ensures
            pending == (self is Pending),
    {
        !self.is_ready()
    }
}

/// The service behind a timer has been closed.
#[derive(Clone, Copy, Debug, PartialEq, Eq, Structural)]
pub struct TimerClosed;

impl TimerClosed {
    /// What went wrong, in words.
    pub fn message(&self) -> (message: &'static str)
        ensures
            message@ == "timer service is closed"@,
    {
        "timer service is closed"
    }
}

/// Why a timed operation did not produce a value.
#[derive(Clone, Copy, Debug, PartialEq, Eq, Structural)]
pub enum TimeoutError {
    /// The timeout timer fired before the guarded operation completed.
    Elapsed,
    /// The timer service closed before the timeout timer fired.
    Closed,
}

impl TimeoutError {
    /// What went wrong, in words.
    pub fn message(&self) -> (message: &'static str)
        ensures
            message@ == match self {
                TimeoutError::Elapsed => "operation timed out"@,
                TimeoutError::Closed => "timer service is closed"@,
            },
    {
        match self {
            TimeoutError::Elapsed => "operation timed out",
            TimeoutError::Closed => "timer service is closed",
        }
    }
}

} // verus!
