//! A bundle of asynchronous I/O capabilities.

use vstd::prelude::*;

verus! {

/// An explicitly constructed bundle of asynchronous I/O capabilities.
///
/// It is neither a runtime nor an executor: it starts no thread, owns no driver, and is never
/// installed in global or thread-local state. Capabilities are optional, and their drivers stay
/// with the application's reactor.
///
/// `T` is the timer capability: a [`TimerHandle`](crate::time::TimerHandle), or whatever an
/// application wraps around one.
#[derive(Debug)]
pub struct IoContext<T> {
    timer: Option<T>,
}

impl<T> View for IoContext<T> {
    type V = Option<T>;

    closed spec fn view(&self) -> Option<T> {
        self.timer
    }
}

impl<T> IoContext<T> {
    /// An empty context.
    pub fn new() -> (context: IoContext<T>)
        ensures
            context@ is None,
    {
        IoContext { timer: None }
    }

    /// Installs timer capability, in place of any that was installed before.
    #[must_use]
    pub fn with_timer(self, timer: T) -> (context: IoContext<T>)
        ensures
            context@ == Some(timer),
    {
        IoContext { timer: Some(timer) }
    }

    /// The installed timer capability, if any.
    pub fn timer(&self) -> (timer: Option<&T>)
        ensures
            match timer {
                Some(timer) => self@ == Some(*timer),
                None => self@ is None,
            },
    {
        self.timer.as_ref()
    }
}

impl<T: Clone> Clone for IoContext<T> {
    fn clone(&self) -> (context: IoContext<T>)
        ensures
            match self@ {
                Some(timer) => context@ is Some && cloned(timer, context@->0),
                None => context@ is None,
            },
    {
        let timer: Option<T> = match &self.timer {
            Some(timer) => Some(timer.clone()),
            None => None,
        };
        IoContext { timer }
    }
}

impl<T> Default for IoContext<T> {
    fn default() -> (context: IoContext<T>)
        ensures
            context@ is None,
    {
        IoContext::new()
    }
}

} // verus!
