//! How much work one turn of a service may do.

use vstd::prelude::*;

verus! {

/// A number that is not zero.
#[derive(Clone, Copy, Debug, PartialEq, Eq)]
pub struct NonZeroUsize {
    value: usize,
}

impl View for NonZeroUsize {
    type V = usize;

    closed spec fn view(&self) -> usize {
        self.value
    }
}

impl NonZeroUsize {
    #[verifier::type_invariant]
    spec fn inv(self) -> bool {
        self.value != 0
    }

    /// The number `value`, or `None` when it is zero.
    pub fn new(value: usize) -> (number: Option<NonZeroUsize>)
        ensures
            match number {
                Some(number) => number@ == value && value != 0,
                None => value == 0,
            },
    {
        if value == 0 {
            None
        } else {
            Some(NonZeroUsize { value })
        }
    }

    /// The number itself.
    pub fn get(self) -> (value: usize)
        ensures
            value == self@,
            value != 0,
    {
        proof {
            use_type_invariant(&self);
        }
        self.value
    }
}

/// Work admitted during one turn of a timer service.
///
/// The default admits up to 1,024 queued operations and 4,096 timer entries.
#[derive(Clone, Copy, Debug, PartialEq, Eq)]
pub struct TurnBudget {
    max_operations: NonZeroUsize,
    max_timer_entries: NonZeroUsize,
}

impl TurnBudget {
    /// The operation limit.
    pub closed spec fn operations(self) -> usize {
        self.max_operations@
    }

    /// The timer-entry limit.
    pub closed spec fn timer_entries(self) -> usize {
        self.max_timer_entries@
    }

    /// A budget with these limits.
    pub fn new(max_operations: NonZeroUsize, max_timer_entries: NonZeroUsize) -> (budget:
        TurnBudget)
        ensures
            budget.operations() == max_operations@,
            budget.timer_entries() == max_timer_entries@,
    {
        TurnBudget { max_operations, max_timer_entries }
    }

    /// The maximum number of queued operations that one turn processes.
    pub fn max_operations(self) -> (limit: NonZeroUsize)
        ensures
            limit@ == self.operations(),
    {
        self.max_operations
    }

    /// The maximum number of wheel entries that one turn examines.
    pub fn max_timer_entries(self) -> (limit: NonZeroUsize)
        ensures
            limit@ == self.timer_entries(),
    {
        self.max_timer_entries
    }
}

impl Default for TurnBudget {
    fn default() -> (budget: TurnBudget)
        ensures
            budget.operations() == 1024,
            budget.timer_entries() == 4096,
    {
        TurnBudget::new(NonZeroUsize::new(1024).unwrap(), NonZeroUsize::new(4096).unwrap())
    }
}

} // verus!
