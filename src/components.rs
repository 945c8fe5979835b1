//! Handles and markers that the reconciliation engine reads and writes on
//! objects of the entity store.

use vstd::prelude::*;

verus! {

/// A weak handle into the entity store (index and generation packed in 64
/// bits). The store may destroy the object at any time.
#[derive(Clone, Copy, Debug, PartialEq, Eq, Structural, Hash)]
pub struct Entity(pub u64);

/// Marks an object as a speculative spawn that should be matched with the
/// server's copy of the same logical spawn.
#[derive(Clone, Copy, Debug, PartialEq, Eq, Structural)]
pub struct PreSpawnedPlayerObject {
    /// The fingerprint that identifies the spawn. When it is not set, it is
    /// derived from the spawn tick and the object's component kinds; an
    /// application may set it to a value that client and server agree on.
    pub hash: Option<u64>,
}

impl Default for PreSpawnedPlayerObject {
    fn default() -> (r: Self)
        ensures
            r.hash is None,
    {
        PreSpawnedPlayerObject { hash: None }
    }
}

/// The two phases of a step in which the engine runs.
#[derive(Clone, Copy, Debug, PartialEq, Eq, Structural, Hash)]
pub enum PreSpawnedPlayerObjectSet {
    /// Arrivals of server objects that carry a fingerprint are matched with
    /// local candidates.
    Spawn,
    /// Candidates that no server object claimed in time are cleaned up.
    CleanUp,
}

} // verus!
