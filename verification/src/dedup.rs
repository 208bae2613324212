//! The guard against spawning one peer twice within a batch.
//!
//! The messages of one tick are handled as a batch. While a batch is being
//! handled, the guard remembers the identities for which a representation
//! has been asked for, so that a burst of reports from a newly seen peer
//! asks for one representation only. A new batch starts with a new guard.

use crate::message::PeerIdentity;
use std::collections::HashSet;
use vstd::prelude::*;

verus! {

broadcast use vstd::std_specs::hash::group_hash_axioms;

/// The identities spawned so far in the current batch.
pub struct SpawnGuard {
    spawned: HashSet<PeerIdentity>,
}

impl View for SpawnGuard {
    type V = Set<PeerIdentity>;

    closed spec fn view(&self) -> Set<PeerIdentity> {
        self.spawned@
    }
}

impl SpawnGuard {
    /// The guard for a batch that is about to begin: nothing spawned yet.
    pub fn new() -> (g: SpawnGuard)
        ensures
            g@ == Set::<PeerIdentity>::empty(),
    {
        SpawnGuard { spawned: HashSet::new() }
    }

    /// Whether `id` has been spawned in this batch.
    pub fn contains(&self, id: PeerIdentity) -> (r: bool)
        ensures
            r == self@.contains(id),
    {
        self.spawned.contains(&id)
    }

    /// Checks and inserts in one step: returns whether `id` may be spawned,
    /// which it may unless it has been in this batch, and remembers it.
    pub fn check_and_insert(&mut self, id: PeerIdentity) -> (fresh: bool)
        ensures
            fresh == !old(self)@.contains(id),
            final(self)@ == old(self)@.insert(id),
    {
        self.spawned.insert(id)
    }
}

} // verus!
