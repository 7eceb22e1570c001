//! Wakers, as the library carries them.
//!
//! The library stores wakers and hands them out; it never runs one. Whoever receives a waker runs
//! it or drops it, outside of any lock that guards the timer state.

use vstd::prelude::*;

verus! {

/// What tells two wakers apart.
#[derive(Clone, Copy, Debug, PartialEq, Eq, Structural)]
pub struct WakerIdentity {
    /// The data pointer of the waker.
    pub data: usize,
    /// The function table of the waker.
    pub vtable: usize,
}

/// A waker together with its identity.
pub struct Waker<W> {
    /// What tells this waker apart from others.
    pub identity: WakerIdentity,
    /// The waker itself.
    pub raw: W,
}

impl<W> Waker<W> {
    /// A waker with this identity.
    pub fn new(identity: WakerIdentity, raw: W) -> (waker: Waker<W>)
        ensures
            waker == (Waker { identity, raw }),
    {
        Waker { identity, raw }
    }
}

impl WakerIdentity {
    /// The identity of a waker.
    pub fn new<W>(waker: &Waker<W>) -> (identity: WakerIdentity)
        ensures
            identity == waker.identity,
    {
        waker.identity
    }

    /// Whether a waker has this identity.
    pub fn matches<W>(self, waker: &Waker<W>) -> (same: bool)
        ensures
            same == (self == waker.identity),
    {
        self.data == waker.identity.data && self.vtable == waker.identity.vtable
    }
}

/// Wakers that the library no longer holds and that nobody has to run.
pub struct Released<W> {
    /// A waker that was stored before and has been replaced or taken out.
    pub previous: Option<Waker<W>>,
    /// The waker that was offered and not stored.
    pub unused: Option<Waker<W>>,
}

} // verus!
