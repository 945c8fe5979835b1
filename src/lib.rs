//! Reconciliation of speculatively spawned objects with their server-confirmed
//! counterparts: deterministic fingerprints, a pending-match index with
//! tick-based expiry, the per-arrival reconciler and the expiry sweeper.

mod components;
mod fingerprint;
mod index;
mod reconcile;
mod sweep;

pub use components::{Entity, PreSpawnedPlayerObject, PreSpawnedPlayerObjectSet};
pub use fingerprint::{compute_fingerprint, fingerprint_input, sort_kind_ids, ComponentKind};
pub use index::{Expired, ExpiryEntry, PendingMatchIndex};
pub use reconcile::{link_predicted, Confirmed, ConfirmedObject, Resolution};
pub use sweep::expiry_horizon;
