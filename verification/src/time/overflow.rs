//! Lists of equal deadlines beyond the horizon of the wheel, in the order of their deadlines.

use std::collections::BTreeMap;

use vstd::prelude::*;

use crate::time::entries::List;
use crate::time::instant::Instant;

verus! {

/// An ordered map from deadlines to entry lists.
pub struct Overflow {
    // Keyed by the deadline's nanoseconds.
    lists: BTreeMap<i128, List>,
}

impl View for Overflow {
    type V = Map<i128, List>;

    closed spec fn view(&self) -> Map<i128, List> {
        self.lists@
    }
}

impl Overflow {
    /// A map without deadlines.
    pub fn new() -> (overflow: Overflow)
        ensures
            overflow@ == Map::<i128, List>::empty(),
    {
        Overflow { lists: BTreeMap::new() }
    }

    /// The list of a deadline, if it has one.
    pub fn get(&self, deadline: Instant) -> (list: Option<List>)
        ensures
            match list {
                Some(list) => self@.contains_key(deadline.nanos) && self@[deadline.nanos] == list,
                None => !self@.contains_key(deadline.nanos),
            },
    {
        broadcast use {vstd::std_specs::btree::group_btree_axioms, vstd::laws_cmp::group_laws_cmp};

        match self.lists.get(&deadline.nanos) {
            Some(list) => Some(*list),
            None => None,
        }
    }

    /// Gives a deadline a list, replacing the one it had.
    pub fn insert(&mut self, deadline: Instant, list: List)
        ensures
            final(self)@ == old(self)@.insert(deadline.nanos, list),
    {
        broadcast use {vstd::std_specs::btree::group_btree_axioms, vstd::laws_cmp::group_laws_cmp};

        self.lists.insert(deadline.nanos, list);
    }

    /// Takes the list of a deadline away.
    pub fn remove(&mut self, deadline: Instant)
        ensures
            final(self)@ == old(self)@.remove(deadline.nanos),
    {
        broadcast use {vstd::std_specs::btree::group_btree_axioms, vstd::laws_cmp::group_laws_cmp};

        self.lists.remove(&deadline.nanos);
    }

    /// Takes every list away.
    pub fn clear(&mut self)
        ensures
            final(self)@ == Map::<i128, List>::empty(),
    {
        self.lists.clear();
    }

    /// The earliest deadline and its list.
    pub fn first(&self) -> (first: Option<(Instant, List)>)
        ensures
            match first {
                Some((deadline, list)) => {
                    &&& self@.contains_key(deadline.nanos)
                    &&& self@[deadline.nanos] == list
                    &&& forall|nanos: i128| #[trigger]
                        self@.contains_key(nanos) ==> deadline.nanos <= nanos
                },
                None => forall|nanos: i128| !#[trigger] self@.contains_key(nanos),
            },
    {
        broadcast use {vstd::std_specs::btree::group_btree_axioms, vstd::laws_cmp::group_laws_cmp};

        for (nanos, list) in it: self.lists.iter()
            invariant
                it.seq() == vstd::std_specs::iter::IteratorSpec::remaining(&self.lists.iter()),
                vstd::std_specs::btree::increasing_seq(
                    it.seq().map_values(|pair: (&i128, &List)| *pair.0),
                ),
                it.index() == 0,
        {
            proof {
                let pairs = it.seq();
                let keys = pairs.map_values(|pair: (&i128, &List)| *pair.0);
                assert(pairs[0] == (nanos, list));
                assert(self@.contains_key(*pairs[0].0));
                assert forall|other: i128| #[trigger] self@.contains_key(other) implies *nanos
                    <= other by {
                    assert(pairs.contains((&other, &self@[other])));
                    let i = pairs.index_of((&other, &self@[other]));
                    assert(keys[0] == *nanos && keys[i] == other);
                    assert(vstd::laws_cmp::obeys_cmp::<i128>());
                    if i > 0 {
                        assert(vstd::std_specs::cmp::OrdSpec::cmp_spec(&keys[0], &keys[i]) is Less);
                    }
                }
            }
            return Some((Instant::from_nanos(*nanos), *list));
        }
        None
    }
}

} // verus!
