//! Registration of speculative candidates and reconciliation of confirmed
//! arrivals against the pending-match index.

use vstd::prelude::*;

use crate::components::{Entity, PreSpawnedPlayerObject};
use crate::fingerprint::{compute_fingerprint, fingerprint, ComponentKind};
use crate::index::{oldest, with_candidate, without_oldest, PendingMatchIndex};

verus! {

/// Marker on a confirmed (server-replicated) object, naming its predicted
/// counterpart and the server tick it was confirmed at.
#[derive(Clone, Copy, Debug, PartialEq, Eq, Structural)]
pub struct Confirmed {
    pub predicted: Option<Entity>,
    pub interpolated: Option<Entity>,
    pub tick: u16,
}

/// What the engine reads and writes on a confirmed object that arrived from
/// the server.
#[derive(Clone, Copy, Debug, PartialEq, Eq, Structural)]
pub struct ConfirmedObject {
    /// The object's handle in the entity store.
    pub entity: Entity,
    /// The server tick the client holds data for on this object.
    pub tick: u16,
    /// The speculative-spawn marker as replicated from the server; removed
    /// once the arrival is reconciled.
    pub prespawn: Option<PreSpawnedPlayerObject>,
    /// Whether the object still asks for a predicted counterpart; cleared
    /// once the arrival is reconciled.
    pub should_be_predicted: bool,
    /// The link to the predicted counterpart, once known.
    pub confirmed: Option<Confirmed>,
}

/// How one confirmed arrival was resolved.
#[derive(Clone, Copy, Debug, PartialEq, Eq, Structural)]
pub enum Resolution {
    /// The object carries no speculative-spawn marker (it was reconciled
    /// already): nothing was done.
    AlreadyLinked,
    /// The marker carries no fingerprint: the arrival is skipped and left as
    /// it is.
    MissingFingerprint,
    /// The oldest live local candidate with the same fingerprint becomes the
    /// predicted counterpart; the confirmed object is linked to it.
    Reused(Entity),
    /// No live local candidate: the caller spawns a fresh predicted
    /// placeholder and links it with `link_predicted`.
    SpawnFresh,
}

/// The confirmed object after its arrival was resolved as `r`: markers
/// stripped, and linked to the reused candidate if there was one.
pub open spec fn settled(a: ConfirmedObject, r: Resolution) -> ConfirmedObject {
    ConfirmedObject {
        prespawn: None,
        should_be_predicted: false,
        confirmed: match r {
            Resolution::Reused(e) => Some(Confirmed { predicted: Some(e), interpolated: None, tick: a.tick }),
            _ => a.confirmed,
        },
        ..a
    }
}

/// The confirmed object linked to `predicted`.
pub open spec fn linked(a: ConfirmedObject, predicted: Entity) -> ConfirmedObject {
    ConfirmedObject {
        confirmed: Some(Confirmed { predicted: Some(predicted), interpolated: None, tick: a.tick }),
        ..a
    }
}

/// The fingerprint a candidate is registered under: the one its marker
/// carries, else the one derived from its spawn tick and component kinds.
pub open spec fn candidate_fingerprint(
    marker: PreSpawnedPlayerObject,
    tick: u16,
    kinds: Seq<ComponentKind>,
) -> u64 {
    match marker.hash {
        Some(h) => h,
        None => fingerprint(tick, kinds),
    }
}

/// Links the confirmed object to its predicted counterpart, recording the
/// confirmed tick.
pub fn link_predicted(arrival: &mut ConfirmedObject, predicted: Entity)
    ensures
        *final(arrival) == linked(*old(arrival), predicted),
{
    arrival.confirmed = Some(Confirmed { predicted: Some(predicted), interpolated: None, tick: arrival.tick });
}

impl PendingMatchIndex {
    /// Registers a freshly spawned speculative candidate. Its fingerprint is
    /// the marker's own if set, else computed from `tick` and `kinds`, and is
    /// then kept on the marker so that later calls reuse it unchanged.
    pub fn register_candidate(
        &mut self,
        entity: Entity,
        marker: &mut PreSpawnedPlayerObject,
        tick: u16,
        kinds: &Vec<ComponentKind>,
    ) -> (fp: u64)
        requires
            old(self).wf(),
        ensures
            final(self).wf(),
            fp == candidate_fingerprint(*old(marker), tick, kinds@),
            final(marker).hash == Some(fp),
            final(self).candidates() == with_candidate(old(self).candidates(), fp, entity),
            old(self).queue(fp).contains(entity) ==> final(self).expiry() == old(self).expiry(),
    {
        let fp = match marker.hash {
            Some(h) => h,
            None => compute_fingerprint(tick, kinds),
        };
        marker.hash = Some(fp);
        self.register(entity, fp, tick);
        fp
    }

    /// Reconciles one confirmed arrival: takes the oldest candidate queued
    /// under the arrival's fingerprint and reuses it when `is_alive` says it
    /// still exists; otherwise a fresh placeholder is called for. Either way
    /// the arrival's markers are stripped, so that it is not processed twice.
    pub fn process_arrival<F: Fn(Entity) -> bool>(
        &mut self,
        arrival: &mut ConfirmedObject,
        is_alive: F,
    ) -> (r: Resolution)
        requires
            old(self).wf(),
            forall|e: Entity| is_alive.requires((e,)),
        ensures
            final(self).wf(),
            final(self).expiry() == old(self).expiry(),
            old(arrival).prespawn is None ==> r == Resolution::AlreadyLinked && *final(arrival)
                == *old(arrival) && final(self).candidates() == old(self).candidates(),
            old(arrival).prespawn is Some && old(arrival).prespawn.unwrap().hash is None ==> r
                == Resolution::MissingFingerprint && *final(arrival) == *old(arrival)
                && final(self).candidates() == old(self).candidates(),
            old(arrival).prespawn is Some && old(arrival).prespawn.unwrap().hash is Some ==> {
                let h = old(arrival).prespawn.unwrap().hash.unwrap();
                &&& final(self).candidates() == without_oldest(old(self).candidates(), h)
                &&& *final(arrival) == settled(*old(arrival), r)
                &&& match oldest(old(self).candidates(), h) {
                    None => r == Resolution::SpawnFresh,
                    Some(e) => (r == Resolution::Reused(e) && is_alive.ensures((e,), true)) || (r
                        == Resolution::SpawnFresh && is_alive.ensures((e,), false)),
                }
            },
    {
        let h = match arrival.prespawn {
            None => {
                return Resolution::AlreadyLinked;
            },
            Some(p) => match p.hash {
                None => {
                    return Resolution::MissingFingerprint;
                },
                Some(h) => h,
            },
        };
        let r = match self.take_one(h) {
            Some(e) => {
                if is_alive(e) {
                    Resolution::Reused(e)
                } else {
                    Resolution::SpawnFresh
                }
            },
            None => Resolution::SpawnFresh,
        };
        arrival.prespawn = None;
        arrival.should_be_predicted = false;
        if let Resolution::Reused(e) = r {
            link_predicted(arrival, e);
        }
        r
    }
}

/// No double link: once an arrival is resolved (by reuse or by a fresh
/// placeholder, linked or not yet), it carries no speculative-spawn marker,
/// so processing it again resolves to `AlreadyLinked` and changes nothing.
pub proof fn lemma_no_double_link(a: ConfirmedObject, r: Resolution, predicted: Entity)
    requires
        r is Reused || r is SpawnFresh,
    ensures
        settled(a, r).prespawn is None,
        linked(settled(a, r), predicted).prespawn is None,
        !settled(a, r).should_be_predicted,
{
}

} // verus!
