//! Storage of wheel entries.
//!
//! Entries live in a [`slab::Slab`], so an entry keeps its key until it is removed and a removed
//! key may be given out again. The functions of this module state what each slab method that the
//! wheel uses does to the stored entries.

use slab::Slab;
use vstd::prelude::*;

use crate::time::deadline::Deadline;
use crate::time::instant::Instant;

verus! {

/// The number of entries that are sure to fit into the address space, with room for the storage
/// to double.
pub const MAX_ENTRIES: usize = usize::MAX / 512;

/// Ends of an intrusive doubly linked list of entries.
#[derive(Clone, Copy, Debug, PartialEq, Eq, Structural)]
pub struct List {
    /// First entry.
    pub head: Option<usize>,
    /// Last entry.
    pub tail: Option<usize>,
}

impl List {
    /// A list without entries.
    pub fn empty() -> (list: List)
        ensures
            list == (List { head: None, tail: None }),
    {
        List { head: None, tail: None }
    }
}

/// The collection that owns a wheel entry.
#[derive(Clone, Copy, Debug, PartialEq, Eq, Structural)]
pub enum Location {
    /// Due when it was classified.
    Immediate,
    /// In a slot of the wheel.
    Wheel {
        /// The level of the slot.
        level: usize,
        /// The slot within its level.
        slot: usize,
    },
    /// Beyond the horizon of the wheel, ordered by deadline.
    Overflow(Instant),
    /// Without a deadline.
    Never,
}

/// One stored entry.
#[derive(Clone, Copy, Debug, PartialEq, Eq, Structural)]
pub struct Node {
    /// When the entry is due.
    pub deadline: Deadline,
    /// The list that holds the entry, if it is linked.
    pub location: Option<Location>,
    /// The entry after this one in its list.
    pub next: Option<usize>,
    /// The entry before this one in its list.
    pub prev: Option<usize>,
    /// What the entry stands for.
    pub value: u64,
}

/// Trusted: the type `slab::Slab`, of which nothing but its name is known.
#[verifier::external_type_specification]
#[verifier::external_body]
#[verifier::reject_recursive_types(T)]
pub struct ExSlab<T>(Slab<T>);

/// Trusted: a name for the entries that a `slab::Slab` holds, by key. The functions below say what
/// each method does to them.
pub uninterp spec fn slab_contents(slab: Slab<Node>) -> Map<usize, Node>;

/// Whether `keys` are the keys of `map`, in increasing order.
pub open spec fn lists_keys(keys: Seq<usize>, map: Map<usize, Node>) -> bool {
    &&& forall|i: int, j: int| 0 <= i < j < keys.len() ==> keys[i] < keys[j]
    &&& forall|i: int| 0 <= i < keys.len() ==> map.contains_key(#[trigger] keys[i])
    &&& forall|key: usize| #[trigger] map.contains_key(key) ==> keys.contains(key)
}

/// Whether `nodes` are the values of `map`, in the order of their keys.
pub open spec fn is_drain_of(nodes: Seq<Node>, map: Map<usize, Node>) -> bool {
    exists|keys: Seq<usize>| #[trigger]
        lists_keys(keys, map) && nodes == keys.map_values(|key: usize| map[key])
}

/// Trusted: `slab::Slab::new` makes a slab that holds nothing.
#[verifier::external_body]
pub(crate) fn slab_new() -> (slab: Slab<Node>)
    ensures
        slab_contents(slab) == (Map::<usize, Node>::empty()),
{
    Slab::new()
}

/// Trusted: `slab::Slab::insert` stores the value under a key that held nothing before and
/// changes no other key. Which vacant key it takes is left open. It panics when its storage would
/// exceed `isize::MAX` bytes, which `requires` leaves out: a stored node takes at most 128 bytes,
/// and the storage grows, to at most twice its length, only when every key is in use.
#[verifier::external_body]
pub(crate) fn slab_insert(slab: &mut Slab<Node>, node: Node) -> (key: usize)
    requires
        slab_contents(*old(slab)).dom().len() < MAX_ENTRIES,
    ensures
        !slab_contents(*old(slab)).contains_key(key),
        slab_contents(*final(slab)) == slab_contents(*old(slab)).insert(key, node),
{
    slab.insert(node)
}

/// Trusted: `slab::Slab::get` finds the value stored under the key, and nothing when the key is
/// vacant.
#[verifier::external_body]
pub(crate) fn slab_get(slab: &Slab<Node>, key: usize) -> (found: Option<&Node>)
    ensures
        match found {
            Some(node) => slab_contents(*slab).contains_key(key) && *node
                == slab_contents(*slab)[key],
            None => !slab_contents(*slab).contains_key(key),
        },
{
    slab.get(key)
}

/// Trusted: `slab::Slab::contains` tells whether the key holds a value.
#[verifier::external_body]
pub(crate) fn slab_contains(slab: &Slab<Node>, key: usize) -> (found: bool)
    ensures
        found == slab_contents(*slab).contains_key(key),
{
    slab.contains(key)
}

/// Trusted: indexing a slab reads the value stored under the key. It panics on a vacant key,
/// which `requires` leaves out.
#[verifier::external_body]
pub(crate) fn slab_index(slab: &Slab<Node>, key: usize) -> (node: Node)
    requires
        slab_contents(*slab).contains_key(key),
    ensures
        node == slab_contents(*slab)[key],
{
    slab[key]
}

/// Trusted: assigning through `slab::Slab`'s `IndexMut` replaces the value stored under the key
/// and changes no other key. It panics on a vacant key, which `requires` leaves out.
#[verifier::external_body]
pub(crate) fn slab_set(slab: &mut Slab<Node>, key: usize, node: Node)
    requires
        slab_contents(*old(slab)).contains_key(key),
    ensures
        slab_contents(*final(slab)) == slab_contents(*old(slab)).insert(key, node),
{
    slab[key] = node;
}

/// Trusted: `slab::Slab::remove` takes out the value stored under the key and changes no other
/// key. It panics on a vacant key, which `requires` leaves out.
#[verifier::external_body]
pub(crate) fn slab_remove(slab: &mut Slab<Node>, key: usize) -> (node: Node)
    requires
        slab_contents(*old(slab)).contains_key(key),
    ensures
        node == slab_contents(*old(slab))[key],
        slab_contents(*final(slab)) == slab_contents(*old(slab)).remove(key),
{
    slab.remove(key)
}

/// Trusted: `slab::Slab::len` counts the stored values.
#[verifier::external_body]
pub(crate) fn slab_len(slab: &Slab<Node>) -> (len: usize)
    ensures
        len == slab_contents(*slab).dom().len(),
{
    slab.len()
}

/// Trusted: `slab::Slab::drain` takes out every value, in the order of their keys, and leaves
/// the slab without values.
#[verifier::external_body]
pub(crate) fn slab_drain(slab: &mut Slab<Node>) -> (nodes: Vec<Node>)
    ensures
        slab_contents(*final(slab)) == (Map::<usize, Node>::empty()),
        is_drain_of(nodes@, slab_contents(*old(slab))),
{
    slab.drain().collect()
}

} // verus!
