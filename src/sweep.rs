//! The expiry sweeper: once per step, candidates registered at or before a
//! safe horizon that no confirmed arrival claimed are abandoned.

use vstd::prelude::*;

use crate::components::Entity;
use crate::index::{
    expired_prefix, mentions, queue_of, without_mentioned, ExpiryEntry, PendingMatchIndex,
};

verus! {

/// `a - b`, or 0 when `b > a`.
pub open spec fn sat_sub(a: int, b: int) -> int {
    if a >= b {
        a - b
    } else {
        0
    }
}

/// The horizon: current tick minus twice the interpolation delay, each
/// subtraction saturating at zero.
pub open spec fn horizon(current_tick: u16, interpolation_tick: u16) -> int {
    sat_sub(current_tick as int, 2 * sat_sub(current_tick as int, interpolation_tick as int))
}

/// The candidates abandoned when the registrations `s` expire: for each, in
/// order, the queue of its fingerprint unless an earlier one already took it.
pub open spec fn abandoned(m: Map<u64, Seq<Entity>>, s: Seq<ExpiryEntry>) -> Seq<Entity>
    decreases s.len(),
{
    if s.len() == 0 {
        Seq::empty()
    } else {
        abandoned(m, s.drop_last()) + if mentions(s.drop_last(), s.last().fingerprint) {
            Seq::empty()
        } else {
            queue_of(m, s.last().fingerprint)
        }
    }
}

/// The tick at or before which unmatched candidates are abandoned.
pub fn expiry_horizon(current_tick: u16, interpolation_tick: u16) -> (r: u16)
    ensures
        r == horizon(current_tick, interpolation_tick),
{
    let delay: u16 = current_tick.saturating_sub(interpolation_tick);
    if current_tick / 2 >= delay {
        current_tick - 2 * delay
    } else {
        0
    }
}

impl PendingMatchIndex {
    /// Drains every registration at or before the horizon and returns the
    /// candidates still queued under the drained fingerprints, to be
    /// destroyed by the caller where they still exist.
    pub fn sweep(&mut self, current_tick: u16, interpolation_tick: u16) -> (doomed: Vec<Entity>)
        requires
            old(self).wf(),
        ensures
            final(self).wf(),
            exists|n: int|
                {
                    &&& expired_prefix(
                        old(self).expiry(),
                        horizon(current_tick, interpolation_tick) as u16,
                        n,
                    )
                    &&& final(self).expiry() == old(self).expiry().skip(n)
                    &&& final(self).candidates() == without_mentioned(
                        old(self).candidates(),
                        old(self).expiry().take(n),
                    )
                    &&& doomed@ == abandoned(old(self).candidates(), old(self).expiry().take(n))
                },
    {
        let threshold = expiry_horizon(current_tick, interpolation_tick);
        let ghost e0 = self.expiry();
        let ghost c0 = self.candidates();
        let drained = self.drain_expired(threshold);
        let ghost n = drained.len() as int;
        let mut doomed: Vec<Entity> = Vec::new();
        let mut i: usize = 0;
        while i < drained.len()
            invariant
                0 <= i <= drained.len(),
                drained.len() == n <= e0.len(),
                forall|j: int|
                    0 <= j < n ==> (#[trigger] drained@[j]).fingerprint == e0[j].fingerprint,
                forall|j: int|
                    0 <= j < n ==> (#[trigger] drained@[j]).candidates@ == if mentions(
                        e0.take(j),
                        drained@[j].fingerprint,
                    ) {
                        Seq::<Entity>::empty()
                    } else {
                        queue_of(c0, drained@[j].fingerprint)
                    },
                doomed@ == abandoned(c0, e0.take(i as int)),
            decreases drained.len() - i,
        {
            let batch = &drained[i].candidates;
            let mut k: usize = 0;
            let ghost start = doomed@;
            while k < batch.len()
                invariant
                    0 <= k <= batch.len(),
                    doomed@ == start + batch@.take(k as int),
                decreases batch.len() - k,
            {
                doomed.push(batch[k]);
                k = k + 1;
                assert(batch@.take(k as int) == batch@.take(k - 1).push(batch@[k - 1]));
            }
            proof {
                assert(batch@.take(batch.len() as int) == batch@);
                let t1 = e0.take(i + 1);
                assert(t1.drop_last() == e0.take(i as int));
                assert(t1.last() == e0[i as int]);
            }
            i = i + 1;
        }
        assert(e0.take(n) == e0.take(drained.len() as int));
        doomed
    }
}

} // verus!
