//! The clock reading that a service has published last.

use vstd::prelude::*;

use crate::time::instant::{Duration, Instant};

verus! {

/// A clock reading, stored as nanoseconds since the service's genesis.
///
/// Only the service stores here; a reading is at most `u64::MAX` nanoseconds after the genesis.
#[derive(Clone, Copy, Debug, PartialEq, Eq, Structural)]
pub struct AtomicObservation {
    /// The instant at which the service was made.
    pub genesis: Instant,
    /// The reading, in nanoseconds after the genesis.
    pub nanos: u64,
}

/// The clock reading that lies `nanos` after the genesis.
pub open spec fn reading(genesis: Instant, nanos: u64) -> Instant {
    Instant { nanos: (genesis.nanos + nanos) as i128 }
}

/// Whether a clock reading can be published.
pub open spec fn publishable(genesis: Instant, instant: Instant) -> bool {
    instant.nanos - genesis.nanos <= u64::MAX
}

/// How many nanoseconds after the genesis a clock reading lies; none for a reading before it.
pub open spec fn encoded(genesis: Instant, instant: Instant) -> u64 {
    if instant.nanos <= genesis.nanos {
        0
    } else {
        (instant.nanos - genesis.nanos) as u64
    }
}

impl AtomicObservation {
    /// Whether the published reading is a clock reading.
    pub open spec fn wf(self) -> bool {
        self.genesis.nanos + self.nanos <= i128::MAX
    }

    /// An observation of the genesis itself.
    pub fn new(genesis: Instant) -> (observation: AtomicObservation)
        ensures
            observation == (AtomicObservation { genesis, nanos: 0 }),
            observation.wf(),
    {
        AtomicObservation { genesis, nanos: 0 }
    }

    /// The published reading.
    pub fn load(&self) -> (instant: Instant)
        requires
            self.wf(),
        ensures
            instant == reading(self.genesis, self.nanos),
            instant.nanos == self.genesis.nanos + self.nanos,
    {
        self.decode(self.nanos)
    }

    /// Publishes a reading.
    pub fn store(&mut self, observation: Instant)
        requires
            publishable(old(self).genesis, observation),
        ensures
            *final(self) == (AtomicObservation {
                nanos: encoded(old(self).genesis, observation),
                ..*old(self)
            }),
            final(self).wf(),
            old(self).genesis.nanos <= observation.nanos ==> reading(
                final(self).genesis,
                final(self).nanos,
            ) == observation,
    {
        self.nanos = self.encode(observation);
    }

    /// How many nanoseconds after the genesis a reading lies.
    pub fn encode(&self, observation: Instant) -> (nanos: u64)
        requires
            publishable(self.genesis, observation),
        ensures
            nanos == encoded(self.genesis, observation),
            self.genesis.nanos <= observation.nanos ==> nanos == observation.nanos
                - self.genesis.nanos,
    {
        encode_observation_nanos(observation.duration_since(self.genesis))
    }

    /// The reading that lies `nanos` after the genesis.
    pub fn decode(&self, nanos: u64) -> (instant: Instant)
        requires
            self.genesis.nanos + nanos <= i128::MAX,
        ensures
            instant == reading(self.genesis, nanos),
            instant.nanos == self.genesis.nanos + nanos,
    {
        Instant { nanos: self.genesis.nanos + nanos as i128 }
    }
}

/// The length of a span in nanoseconds, for spans of at most `u64::MAX` of them.
pub fn encode_observation_nanos(elapsed: Duration) -> (nanos: u64)
    requires
        elapsed.nanos <= u64::MAX,
    ensures
        nanos == elapsed.nanos,
{
    elapsed.as_nanos() as u64
}

/// What has been published is read back: decoding undoes encoding, for every reading at or after
/// the genesis that can be published.
pub proof fn law_observation_round_trip(genesis: Instant, instant: Instant)
    requires
        genesis.nanos <= instant.nanos,
        publishable(genesis, instant),
    ensures
        reading(genesis, encoded(genesis, instant)) == instant,
{
}

/// Readings are published in order: a later one is not encoded below an earlier one.
pub proof fn law_observation_is_monotone(genesis: Instant, earlier: Instant, later: Instant)
    requires
        earlier.nanos <= later.nanos,
        publishable(genesis, later),
    ensures
        encoded(genesis, earlier) <= encoded(genesis, later),
{
}

} // verus!
