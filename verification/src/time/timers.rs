//! The timers of the delays that tasks hold.
//!
//! A timer is found by a key that is never given out twice. Its state is kept for as long as its
//! delay holds it, so a key without a state belongs to a delay that was dropped or has completed.

use std::collections::BTreeMap;

use vstd::prelude::*;

use crate::time::state::{Lifecycle, TimerState};

verus! {

/// The states of the timers, by key.
pub struct Timers<W> {
    states: BTreeMap<u64, TimerState<W>>,
    next_key: u64,
}

impl<W> View for Timers<W> {
    type V = Map<u64, TimerState<W>>;

    closed spec fn view(&self) -> Map<u64, TimerState<W>> {
        self.states@
    }
}

/// How far the timer with this key has come. A timer that its delay gave up counts as cancelled.
pub open spec fn lifecycle_of<W>(timers: Map<u64, TimerState<W>>, key: u64) -> Lifecycle {
    if timers.contains_key(key) {
        timers[key].lifecycle
    } else {
        Lifecycle::Cancelled
    }
}

impl<W> Timers<W> {
    /// The next key to be given out.
    pub closed spec fn next_key(self) -> u64 {
        self.next_key
    }

    /// No timers.
    pub fn new() -> (timers: Timers<W>)
        ensures
            timers@ == Map::<u64, TimerState<W>>::empty(),
            timers.next_key() == 0,
    {
        Timers { states: BTreeMap::new(), next_key: 0 }
    }

    /// Whether another timer can be added.
    pub fn has_room(&self) -> (room: bool)
        ensures
            room == (self.next_key() < u64::MAX),
    {
        self.next_key < u64::MAX
    }

    /// The key of the next timer.
    pub fn vacant_key(&self) -> (key: u64)
        ensures
            key == self.next_key(),
    {
        self.next_key
    }

    /// Adds a timer under the next key.
    pub fn add(&mut self, state: TimerState<W>) -> (key: u64)
        requires
            old(self).next_key() < u64::MAX,
        ensures
            key == old(self).next_key(),
            final(self).next_key() == key + 1,
            final(self)@ == old(self)@.insert(key, state),
    {
        broadcast use {vstd::std_specs::btree::group_btree_axioms, vstd::laws_cmp::group_laws_cmp};

        let key: u64 = self.next_key;
        self.states.insert(key, state);
        self.next_key = key + 1;
        key
    }

    /// Takes the state of a timer out.
    pub fn take(&mut self, key: u64) -> (state: Option<TimerState<W>>)
        ensures
            final(self).next_key() == old(self).next_key(),
            final(self)@ == old(self)@.remove(key),
            match state {
                Some(state) => old(self)@.contains_key(key) && state == old(self)@[key],
                None => !old(self)@.contains_key(key) && final(self)@ == old(self)@,
            },
    {
        broadcast use {vstd::std_specs::btree::group_btree_axioms, vstd::laws_cmp::group_laws_cmp};

        let state: Option<TimerState<W>> = self.states.remove(&key);
        proof {
            if state is None {
                assert(self@ =~= old(self)@);
            }
        }
        state
    }

    /// Puts the state of a timer back.
    pub fn put(&mut self, key: u64, state: TimerState<W>)
        ensures
            final(self).next_key() == old(self).next_key(),
            final(self)@ == old(self)@.insert(key, state),
    {
        broadcast use {vstd::std_specs::btree::group_btree_axioms, vstd::laws_cmp::group_laws_cmp};

        self.states.insert(key, state);
    }

    /// How far the timer with this key has come.
    pub fn lifecycle(&self, key: u64) -> (lifecycle: Lifecycle)
        ensures
            lifecycle == lifecycle_of(self@, key),
    {
        broadcast use {vstd::std_specs::btree::group_btree_axioms, vstd::laws_cmp::group_laws_cmp};

        match self.states.get(&key) {
            Some(state) => state.lifecycle,
            None => Lifecycle::Cancelled,
        }
    }
}

} // verus!
