//! The pending-match index: speculative candidates queued by fingerprint, and
//! a tick-ordered expiry queue used to clean up candidates nobody claimed.

use std::collections::HashMap;

use vstd::prelude::*;

use crate::components::Entity;

verus! {

broadcast use vstd::std_specs::hash::group_hash_axioms;

/// One registration as the expiry queue records it.
#[derive(Clone, Copy, Debug, PartialEq, Eq, Structural)]
pub struct ExpiryEntry {
    pub tick: u16,
    pub fingerprint: u64,
}

/// A registration removed from the expiry queue, with the candidates that
/// were still queued under its fingerprint and are now abandoned.
#[derive(Debug)]
pub struct Expired {
    pub tick: u16,
    pub fingerprint: u64,
    pub candidates: Vec<Entity>,
}

/// Candidates awaiting their server counterpart, in two indices kept
/// consistent: fingerprint to FIFO list of candidates, and the expiry queue of
/// registrations ordered by tick.
pub struct PendingMatchIndex {
    queues: HashMap<u64, Vec<Entity>>,
    expiry: Vec<ExpiryEntry>,
}

pub open spec fn ticks_sorted(s: Seq<ExpiryEntry>) -> bool {
    forall|i: int, j: int| 0 <= i < j < s.len() ==> s[i].tick <= s[j].tick
}

/// Some registration in `s` carries fingerprint `fp`.
pub open spec fn mentions(s: Seq<ExpiryEntry>, fp: u64) -> bool {
    exists|j: int| 0 <= j < s.len() && (#[trigger] s[j]).fingerprint == fp
}

/// `m` without the fingerprints that `s` mentions.
pub open spec fn without_mentioned(m: Map<u64, Seq<Entity>>, s: Seq<ExpiryEntry>) -> Map<
    u64,
    Seq<Entity>,
> {
    Map::new(|k: u64| m.contains_key(k) && !mentions(s, k), |k: u64| m[k])
}

/// `new` is `old` with `e` placed after every entry whose tick is not above
/// `e.tick`, and before the others.
pub open spec fn inserted_by_tick(old: Seq<ExpiryEntry>, new: Seq<ExpiryEntry>, e: ExpiryEntry) -> bool {
    exists|p: int|
        0 <= p <= old.len() && new == old.insert(p, e) && (forall|i: int|
            0 <= i < p ==> (#[trigger] old[i]).tick <= e.tick) && (forall|i: int|
            p <= i < old.len() ==> (#[trigger] old[i]).tick > e.tick)
}

/// The candidates queued under `fp` in `m`, oldest first (empty if none).
pub open spec fn queue_of(m: Map<u64, Seq<Entity>>, fp: u64) -> Seq<Entity> {
    if m.contains_key(fp) {
        m[fp]
    } else {
        Seq::empty()
    }
}

/// `m` after registering `e` under `fp`: appended, unless already queued there.
pub open spec fn with_candidate(m: Map<u64, Seq<Entity>>, fp: u64, e: Entity) -> Map<
    u64,
    Seq<Entity>,
> {
    if queue_of(m, fp).contains(e) {
        m
    } else {
        m.insert(fp, queue_of(m, fp).push(e))
    }
}

/// `m` after the oldest candidate under `fp` is taken.
pub open spec fn without_oldest(m: Map<u64, Seq<Entity>>, fp: u64) -> Map<u64, Seq<Entity>> {
    if queue_of(m, fp).len() == 0 {
        m
    } else if queue_of(m, fp).len() == 1 {
        m.remove(fp)
    } else {
        m.insert(fp, queue_of(m, fp).drop_first())
    }
}

/// The oldest candidate queued under `fp`, if any.
pub open spec fn oldest(m: Map<u64, Seq<Entity>>, fp: u64) -> Option<Entity> {
    if queue_of(m, fp).len() == 0 {
        None
    } else {
        Some(queue_of(m, fp)[0])
    }
}

/// Exactly the first `n` registrations of `s` have a tick at most `threshold`.
pub open spec fn expired_prefix(s: Seq<ExpiryEntry>, threshold: u16, n: int) -> bool {
    &&& 0 <= n <= s.len()
    &&& forall|i: int| 0 <= i < s.len() ==> (i < n <==> (#[trigger] s[i]).tick <= threshold)
}

impl PendingMatchIndex {
    /// The candidates queued under each fingerprint, oldest first.
    pub closed spec fn candidates(&self) -> Map<u64, Seq<Entity>> {
        self.queues@.map_values(|v: Vec<Entity>| v@)
    }

    /// The registrations not yet expired, in tick order.
    pub closed spec fn expiry(&self) -> Seq<ExpiryEntry> {
        self.expiry@
    }

    /// The candidates queued under `fp`, oldest first (empty if none).
    pub open spec fn queue(&self, fp: u64) -> Seq<Entity> {
        queue_of(self.candidates(), fp)
    }

    /// The expiry queue is ordered by tick, no queue is empty, and every
    /// queued fingerprint still has a registration in the expiry queue.
    pub open spec fn wf(&self) -> bool {
        &&& ticks_sorted(self.expiry())
        &&& forall|fp: u64| #[trigger]
            self.candidates().contains_key(fp) ==> self.candidates()[fp].len() > 0 && mentions(
                self.expiry(),
                fp,
            )
    }

    /// An empty index.
    pub fn new() -> (r: Self)
        ensures
            r.wf(),
            r.candidates() == Map::<u64, Seq<Entity>>::empty(),
            r.expiry() == Seq::<ExpiryEntry>::empty(),
    {
        let r = PendingMatchIndex { queues: HashMap::new(), expiry: Vec::new() };
        assert(r.candidates() =~= Map::<u64, Seq<Entity>>::empty());
        r
    }

    /// The candidates queued under `fingerprint`, oldest first.
    pub fn queued(&self, fingerprint: u64) -> (r: Vec<Entity>)
        ensures
            r@ == self.queue(fingerprint),
    {
        match self.queues.get(&fingerprint) {
            Some(l) => l.clone(),
            None => Vec::new(),
        }
    }

    /// The registrations not yet expired, in tick order.
    pub fn pending_expiry(&self) -> (r: Vec<ExpiryEntry>)
        ensures
            r@ == self.expiry(),
    {
        self.expiry.clone()
    }

    /// Queues `entity` under `fingerprint` and records `(tick, fingerprint)`
    /// for expiry. Registering a candidate that is already queued under that
    /// fingerprint changes nothing. Returns whether the candidate was added.
    pub fn register(&mut self, entity: Entity, fingerprint: u64, tick: u16) -> (added: bool)
        requires
            old(self).wf(),
        ensures
            final(self).wf(),
            added == !old(self).queue(fingerprint).contains(entity),
            !added ==> final(self).candidates() == old(self).candidates() && final(self).expiry()
                == old(self).expiry(),
            final(self).candidates() == with_candidate(old(self).candidates(), fingerprint, entity),
            added ==> inserted_by_tick(
                old(self).expiry(),
                final(self).expiry(),
                ExpiryEntry { tick, fingerprint },
            ),
    {
        let mut list: Vec<Entity> = match self.queues.get(&fingerprint) {
            Some(l) => l.clone(),
            None => Vec::new(),
        };
        assert(list@ == self.queue(fingerprint));
        let mut i: usize = 0;
        while i < list.len()
            invariant
                0 <= i <= list.len(),
                list@ == old(self).queue(fingerprint),
                forall|j: int| 0 <= j < i ==> list@[j] != entity,
                old(self).wf(),
                self.wf(),
            decreases list.len() - i,
        {
            if list[i] == entity {
                assert(list@.contains(entity)) by {
                    assert(list@[i as int] == entity);
                }
                return false;
            }
            i = i + 1;
        }
        assert(!list@.contains(entity));
        list.push(entity);
        self.queues.insert(fingerprint, list);
        let mut pos: usize = 0;
        while pos < self.expiry.len() && self.expiry[pos].tick <= tick
            invariant
                0 <= pos <= self.expiry.len(),
                self.expiry@ == old(self).expiry@,
                forall|j: int| 0 <= j < pos ==> (#[trigger] self.expiry@[j]).tick <= tick,
            decreases self.expiry.len() - pos,
        {
            pos = pos + 1;
        }
        let e = ExpiryEntry { tick, fingerprint };
        self.expiry.insert(pos, e);
        let ghost before = old(self).expiry@;
        let ghost p = pos as int;
        assert(self.candidates() =~= old(self).candidates().insert(
            fingerprint,
            old(self).queue(fingerprint).push(entity),
        ));
        assert(self.expiry@ == before.insert(p, e));
        assert forall|j: int| p <= j < before.len() implies (#[trigger] before[j]).tick > tick by {
            assert(before[p].tick > tick);
            if j > p {
                assert(before[p].tick <= before[j].tick);
            }
        }
        assert(inserted_by_tick(before, self.expiry@, e));
        assert(ticks_sorted(self.expiry@)) by {
            assert forall|a: int, b: int| 0 <= a < b < self.expiry@.len() implies self.expiry@[a].tick
                <= self.expiry@[b].tick by {
                if b < p {
                } else if b == p {
                } else if a < p {
                    assert(before[a].tick <= before[b - 1].tick);
                } else if a == p {
                    assert(before[b - 1].tick > tick);
                } else {
                    assert(before[a - 1].tick <= before[b - 1].tick);
                }
            }
        }
        assert forall|fp: u64| #[trigger] self.candidates().contains_key(fp) implies self.candidates()[fp].len()
            > 0 && mentions(self.expiry(), fp) by {
            if fp == fingerprint {
                assert(self.expiry@[p] == e);
            } else {
                let j = choose|j: int| 0 <= j < before.len() && (#[trigger] before[j]).fingerprint == fp;
                if j < p {
                    assert(self.expiry@[j] == before[j]);
                } else {
                    assert(self.expiry@[j + 1] == before[j]);
                }
            }
        }
        true
    }

    /// Removes and returns the oldest candidate queued under `fingerprint`,
    /// or `None` when none is. The expiry queue is left as it is: its entry
    /// for a claimed candidate expires later without effect.
    pub fn take_one(&mut self, fingerprint: u64) -> (r: Option<Entity>)
        requires
            old(self).wf(),
        ensures
            final(self).wf(),
            final(self).expiry() == old(self).expiry(),
            r == oldest(old(self).candidates(), fingerprint),
            final(self).candidates() == without_oldest(old(self).candidates(), fingerprint),
    {
        match self.queues.remove(&fingerprint) {
            None => {
                assert(self.candidates() =~= old(self).candidates());
                None
            },
            Some(mut list) => {
                assert(list@ == old(self).queue(fingerprint));
                let e = list.remove(0);
                if list.len() > 0 {
                    self.queues.insert(fingerprint, list);
                    assert(self.candidates() =~= old(self).candidates().insert(
                        fingerprint,
                        old(self).queue(fingerprint).drop_first(),
                    ));
                } else {
                    assert(self.candidates() =~= old(self).candidates().remove(fingerprint));
                }
                Some(e)
            },
        }
    }

    /// Removes every registration whose tick is at most `threshold`, in tick
    /// order, together with every candidate still queued under its
    /// fingerprint. The first drained registration of a fingerprint carries
    /// that fingerprint's whole queue; any later one carries none.
    pub fn drain_expired(&mut self, threshold: u16) -> (r: Vec<Expired>)
        requires
            old(self).wf(),
        ensures
            final(self).wf(),
            expired_prefix(old(self).expiry(), threshold, r.len() as int),
            forall|i: int|
                0 <= i < r.len() ==> (#[trigger] r@[i]).tick == old(self).expiry()[i].tick
                    && r@[i].fingerprint == old(self).expiry()[i].fingerprint,
            forall|i: int|
                0 <= i < r.len() ==> (#[trigger] r@[i]).candidates@ == if mentions(
                    old(self).expiry().take(i),
                    r@[i].fingerprint,
                ) {
                    Seq::<Entity>::empty()
                } else {
                    old(self).queue(r@[i].fingerprint)
                },
            final(self).expiry() == old(self).expiry().skip(r.len() as int),
            final(self).candidates() == without_mentioned(
                old(self).candidates(),
                old(self).expiry().take(r.len() as int),
            ),
    {
        let ghost e0 = self.expiry@;
        let ghost c0 = self.candidates();
        let mut n: usize = 0;
        while n < self.expiry.len() && self.expiry[n].tick <= threshold
            invariant
                0 <= n <= self.expiry.len(),
                self.expiry@ == e0,
                forall|j: int| 0 <= j < n ==> (#[trigger] e0[j]).tick <= threshold,
            decreases self.expiry.len() - n,
        {
            n = n + 1;
        }
        assert forall|i: int| 0 <= i < e0.len() implies (i < n <==> (#[trigger] e0[i]).tick
            <= threshold) by {
            if i >= n {
                assert(e0[n as int].tick > threshold);
                assert(e0[n as int].tick <= e0[i].tick);
            }
        }
        let mut drained: Vec<Expired> = Vec::new();
        let mut i: usize = 0;
        while i < n
            invariant
                0 <= i <= n <= e0.len(),
                self.expiry@ == e0,
                drained.len() == i,
                self.candidates() == without_mentioned(c0, e0.take(i as int)),
                forall|j: int|
                    0 <= j < i ==> (#[trigger] drained@[j]).tick == e0[j].tick
                        && drained@[j].fingerprint == e0[j].fingerprint,
                forall|j: int|
                    0 <= j < i ==> (#[trigger] drained@[j]).candidates@ == if mentions(
                        e0.take(j),
                        drained@[j].fingerprint,
                    ) {
                        Seq::<Entity>::empty()
                    } else {
                        if c0.contains_key(drained@[j].fingerprint) {
                            c0[drained@[j].fingerprint]
                        } else {
                            Seq::<Entity>::empty()
                        }
                    },
            decreases n - i,
        {
            let e = self.expiry[i];
            let ghost before = self.candidates();
            let list: Vec<Entity> = match self.queues.remove(&e.fingerprint) {
                Some(l) => l,
                None => Vec::new(),
            };
            assert(list@ == (if before.contains_key(e.fingerprint) {
                before[e.fingerprint]
            } else {
                Seq::<Entity>::empty()
            }));
            assert(self.candidates() =~= before.remove(e.fingerprint));
            proof {
                let t = e0.take(i as int);
                let t1 = e0.take(i + 1);
                assert forall|k: u64| mentions(t1, k) == (mentions(t, k) || k == e.fingerprint) by {
                    if mentions(t1, k) {
                        let j = choose|j: int| 0 <= j < t1.len() && (#[trigger] t1[j]).fingerprint == k;
                        if j < i {
                            assert(t[j] == t1[j]);
                        }
                    }
                    if mentions(t, k) {
                        let j = choose|j: int| 0 <= j < t.len() && (#[trigger] t[j]).fingerprint == k;
                        assert(t1[j] == t[j]);
                    }
                    if k == e.fingerprint {
                        assert(t1[i as int] == e);
                    }
                }
                assert(self.candidates() =~= without_mentioned(c0, t1));
            }
            let ghost old_drained = drained@;
            drained.push(Expired { tick: e.tick, fingerprint: e.fingerprint, candidates: list });
            assert(drained@[i as int].candidates@ == list@);
            assert(forall|j: int| 0 <= j < i ==> drained@[j] == old_drained[j]);
            i = i + 1;
        }
        let mut rest: Vec<ExpiryEntry> = Vec::new();
        let mut k: usize = n;
        while k < self.expiry.len()
            invariant
                n <= k <= self.expiry.len(),
                self.expiry@ == e0,
                rest@ == e0.subrange(n as int, k as int),
            decreases self.expiry.len() - k,
        {
            rest.push(self.expiry[k]);
            k = k + 1;
        }
        self.expiry = rest;
        proof {
            assert(self.expiry@ =~= e0.skip(n as int));
            assert forall|fp: u64| #[trigger] self.candidates().contains_key(fp) implies self.candidates()[fp].len()
                > 0 && mentions(self.expiry(), fp) by {
                let j = choose|j: int| 0 <= j < e0.len() && (#[trigger] e0[j]).fingerprint == fp;
                if j < n {
                    assert(e0.take(n as int)[j] == e0[j]);
                } else {
                    assert(self.expiry@[j - n] == e0[j]);
                }
            }
        }
        drained
    }
}

/// Idempotent registration: once a candidate is registered under a
/// fingerprint it is queued there, so registering it again is refused and
/// changes neither index; the queues are the same as after one registration.
pub proof fn lemma_register_idempotent(m: Map<u64, Seq<Entity>>, fp: u64, e: Entity)
    ensures
        queue_of(with_candidate(m, fp, e), fp).contains(e),
        with_candidate(with_candidate(m, fp, e), fp, e) == with_candidate(m, fp, e),
{
    if !queue_of(m, fp).contains(e) {
        let q = queue_of(m, fp).push(e);
        assert(q[q.len() - 1] == e);
    }
}

/// FIFO matching: of two distinct candidates registered one after the other
/// under a fingerprint that had none queued, the first `take_one` returns the
/// earlier one and the next returns the later one.
pub proof fn lemma_fifo_matching(m: Map<u64, Seq<Entity>>, fp: u64, first: Entity, second: Entity)
    requires
        queue_of(m, fp).len() == 0,
        first != second,
    ensures
        oldest(with_candidate(with_candidate(m, fp, first), fp, second), fp) == Some(first),
        oldest(without_oldest(with_candidate(with_candidate(m, fp, first), fp, second), fp), fp)
            == Some(second),
{
    let m1 = with_candidate(m, fp, first);
    assert(!queue_of(m, fp).contains(first));
    assert(queue_of(m1, fp) =~= seq![first]);
    assert(!queue_of(m1, fp).contains(second)) by {
        if queue_of(m1, fp).contains(second) {
            assert(queue_of(m1, fp)[0] == second);
        }
    }
    let m2 = with_candidate(m1, fp, second);
    assert(queue_of(m2, fp) =~= seq![first, second]);
    assert(queue_of(without_oldest(m2, fp), fp) =~= seq![second]);
}

/// Registration never changes which candidate a fingerprint offers first.
pub proof fn lemma_register_keeps_oldest(m: Map<u64, Seq<Entity>>, fp: u64, e: Entity)
    requires
        queue_of(m, fp).len() > 0,
    ensures
        oldest(with_candidate(m, fp, e), fp) == oldest(m, fp),
{
}

/// Expiry boundary: a registration at tick `t > 0` survives a drain up to
/// `t - 1` (it is in what remains) and is taken by a drain up to `t`.
pub proof fn lemma_expiry_boundary(s: Seq<ExpiryEntry>, i: int, kept: int, taken: int)
    requires
        ticks_sorted(s),
        0 <= i < s.len(),
        s[i].tick > 0,
        expired_prefix(s, (s[i].tick - 1) as u16, kept),
        expired_prefix(s, s[i].tick, taken),
    ensures
        s.skip(kept).contains(s[i]),
        !s.take(kept).contains(s[i]),
        s.take(taken).contains(s[i]),
{
    assert(s.skip(kept)[i - kept] == s[i]);
    assert(s.take(taken)[i] == s[i]);
    if s.take(kept).contains(s[i]) {
        let j = choose|j: int| 0 <= j < kept && s.take(kept)[j] == s[i];
        assert(s[j].tick <= s[i].tick - 1);
    }
}

} // verus!
