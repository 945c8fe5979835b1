//! Deterministic fingerprints of speculative spawns.
//!
//! A fingerprint is the SeaHash of the spawn tick followed by the sorted
//! network ids of the candidate's meaningful component kinds, each written as
//! two little-endian bytes.

use vstd::prelude::*;
use vstd::relations::{sorted_by, total_ordering};
use vstd::seq_lib::lemma_sorted_unique;

verus! {

/// One component kind found on a candidate, as the entity store reports it.
#[derive(Clone, Copy, Debug, PartialEq, Eq, Structural)]
pub struct ComponentKind {
    /// The kind's network id in the component registry, if it has one.
    pub net_id: Option<u16>,
    /// Infrastructure markers (ownership, replication target, history,
    /// interpolation, ...) that differ between client and server copies.
    pub bookkeeping: bool,
}

/// The id that a kind contributes to the fingerprint, if any.
pub open spec fn hashed_id(k: ComponentKind) -> Option<u16> {
    if k.bookkeeping {
        None
    } else {
        k.net_id
    }
}

pub open spec fn id_leq() -> spec_fn(u16, u16) -> bool {
    |a: u16, b: u16| a <= b
}

/// The ids that take part in the fingerprint, in input order.
pub open spec fn meaningful_ids(kinds: Seq<ComponentKind>) -> Seq<u16> {
    kinds.filter_map(|k: ComponentKind| hashed_id(k))
}

/// The ids that take part in the fingerprint, in ascending order.
pub open spec fn sorted_ids(kinds: Seq<ComponentKind>) -> Seq<u16> {
    meaningful_ids(kinds).sort_by(id_leq())
}

pub open spec fn le_bytes(x: u16) -> Seq<u8> {
    seq![(x % 256) as u8, (x / 256) as u8]
}

pub open spec fn ids_bytes(ids: Seq<u16>) -> Seq<u8>
    decreases ids.len(),
{
    if ids.len() == 0 {
        Seq::empty()
    } else {
        ids_bytes(ids.drop_last()) + le_bytes(ids.last())
    }
}

/// The byte stream that is hashed for a spawn at `tick` with these kinds.
pub open spec fn fingerprint_bytes(tick: u16, kinds: Seq<ComponentKind>) -> Seq<u8> {
    le_bytes(tick) + ids_bytes(sorted_ids(kinds))
}

/// SeaHash (default seeds) of a byte sequence.
pub uninterp spec fn sea_hash(bytes: Seq<u8>) -> u64;

/// The fingerprint of a spawn at `tick` whose component kinds are `kinds`.
pub open spec fn fingerprint(tick: u16, kinds: Seq<ComponentKind>) -> u64 {
    sea_hash(fingerprint_bytes(tick, kinds))
}

/// Relies on seahash::hash: the SeaHash of a buffer under the crate's fixed
/// default seeds, which depends on the bytes alone (no per-process seed).
#[verifier::external_body]
fn seahash_bytes(bytes: &Vec<u8>) -> (r: u64)
    ensures
        r == sea_hash(bytes@),
{
    seahash::hash(bytes.as_slice())
}

pub proof fn lemma_id_leq_total()
    ensures
        total_ordering(id_leq()),
{
}

/// Inserts `x` into the ascending vector `v`, after every element not above it.
fn insert_sorted(v: &mut Vec<u16>, x: u16)
    requires
        sorted_by(old(v)@, id_leq()),
    ensures
        sorted_by(final(v)@, id_leq()),
        final(v)@.to_multiset() == old(v)@.to_multiset().insert(x),
{
    let mut pos: usize = 0;
    while pos < v.len() && v[pos] <= x
        invariant
            0 <= pos <= v.len(),
            v@ == old(v)@,
            forall|i: int| 0 <= i < pos ==> v@[i] <= x,
        decreases v.len() - pos,
    {
        pos = pos + 1;
    }
    proof {
        broadcast use vstd::seq_lib::to_multiset_insert;
    }
    let ghost before = v@;
    v.insert(pos, x);
    assert(v@ == before.insert(pos as int, x));
    assert(sorted_by(v@, id_leq())) by {
        assert forall|i: int, j: int| 0 <= i < j < v@.len() implies #[trigger] (id_leq())(
            v@[i],
            v@[j],
        ) by {
            if j < pos {
            } else if j == pos {
            } else if i < pos {
                assert(before[i] <= before[pos as int]);
            } else if i == pos {
                assert(x < before[pos as int]);
                if pos as int != j - 1 {
                    assert((id_leq())(before[pos as int], before[j - 1]));
                }
            } else {
            }
        }
    }
}

/// The network ids of the meaningful kinds, in ascending order: bookkeeping
/// kinds and kinds without a network id are left out.
pub fn sort_kind_ids(kinds: &Vec<ComponentKind>) -> (r: Vec<u16>)
    ensures
        r@ == sorted_ids(kinds@),
{
    let mut out: Vec<u16> = Vec::new();
    let mut i: usize = 0;
    while i < kinds.len()
        invariant
            0 <= i <= kinds.len(),
            sorted_by(out@, id_leq()),
            out@.to_multiset() == meaningful_ids(kinds@.take(i as int)).to_multiset(),
        decreases kinds.len() - i,
    {
        let k = kinds[i];
        proof {
            kinds@.lemma_filter_map_take_succ(|k: ComponentKind| hashed_id(k), i as int);
            broadcast use vstd::seq_lib::group_to_multiset_ensures;
            broadcast use vstd::seq_lib::lemma_multiset_commutative;
        }
        if !k.bookkeeping {
            if let Some(id) = k.net_id {
                insert_sorted(&mut out, id);
                assert(meaningful_ids(kinds@.take(i + 1)) == meaningful_ids(kinds@.take(i as int))
                    .push(id));
            }
        }
        i = i + 1;
    }
    proof {
        assert(kinds@.take(kinds.len() as int) == kinds@);
        lemma_id_leq_total();
        meaningful_ids(kinds@).lemma_sort_by_ensures(id_leq());
        lemma_sorted_unique(out@, sorted_ids(kinds@), id_leq());
    }
    out
}

/// The bytes hashed for a spawn at `tick` with component kinds `kinds`: the
/// tick, then each sorted meaningful id, as two little-endian bytes each.
pub fn fingerprint_input(tick: u16, kinds: &Vec<ComponentKind>) -> (r: Vec<u8>)
    ensures
        r@ == fingerprint_bytes(tick, kinds@),
{
    let ids = sort_kind_ids(kinds);
    let mut out: Vec<u8> = Vec::new();
    out.push((tick % 256) as u8);
    out.push((tick / 256) as u8);
    let mut i: usize = 0;
    while i < ids.len()
        invariant
            0 <= i <= ids.len(),
            ids@ == sorted_ids(kinds@),
            out@ == le_bytes(tick) + ids_bytes(ids@.take(i as int)),
        decreases ids.len() - i,
    {
        let id = ids[i];
        out.push((id % 256) as u8);
        out.push((id / 256) as u8);
        proof {
            assert(ids@.take(i + 1).drop_last() == ids@.take(i as int));
            assert(le_bytes(tick) + ids_bytes(ids@.take(i + 1)) == le_bytes(tick) + ids_bytes(
                ids@.take(i as int),
            ) + le_bytes(id));
        }
        i = i + 1;
    }
    assert(ids@.take(ids.len() as int) == ids@);
    out
}

/// The fingerprint of a candidate spawned at `tick` carrying `kinds`.
pub fn compute_fingerprint(tick: u16, kinds: &Vec<ComponentKind>) -> (r: u64)
    ensures
        r == fingerprint(tick, kinds@),
{
    let bytes = fingerprint_input(tick, kinds);
    seahash_bytes(&bytes)
}

/// What a single kind adds to the meaningful ids.
pub open spec fn contribution(k: ComponentKind) -> Seq<u16> {
    match hashed_id(k) {
        Some(id) => seq![id],
        None => Seq::empty(),
    }
}

proof fn lemma_meaningful_ids_remove(s: Seq<ComponentKind>, j: int)
    requires
        0 <= j < s.len(),
    ensures
        meaningful_ids(s).to_multiset() == meaningful_ids(s.remove(j)).to_multiset().add(
            contribution(s[j]).to_multiset(),
        ),
    decreases s.len(),
{
    broadcast use vstd::seq_lib::lemma_multiset_commutative;
    broadcast use vstd::multiset::group_multiset_axioms;

    let f = |k: ComponentKind| hashed_id(k);
    assert(meaningful_ids(s) == meaningful_ids(s.drop_last()) + contribution(s.last()));
    if j == s.len() - 1 {
        assert(s.remove(j) == s.drop_last());
    } else {
        let r = s.remove(j);
        assert(r.drop_last() == s.drop_last().remove(j));
        assert(r.last() == s.last());
        assert(meaningful_ids(r) == meaningful_ids(r.drop_last()) + contribution(r.last()));
        lemma_meaningful_ids_remove(s.drop_last(), j);
        assert(s.drop_last()[j] == s[j]);
        assert(meaningful_ids(s).to_multiset() =~= meaningful_ids(r).to_multiset().add(
            contribution(s[j]).to_multiset(),
        ));
    }
}

proof fn lemma_meaningful_ids_permutation(a: Seq<ComponentKind>, b: Seq<ComponentKind>)
    requires
        a.to_multiset() == b.to_multiset(),
    ensures
        meaningful_ids(a).to_multiset() == meaningful_ids(b).to_multiset(),
    decreases a.len(),
{
    broadcast use vstd::seq_lib::group_to_multiset_ensures;
    broadcast use vstd::seq_lib::lemma_multiset_commutative;
    broadcast use vstd::multiset::group_multiset_axioms;

    if a.len() == 0 {
        assert(a.to_multiset().len() == 0);
        assert(b.to_multiset().len() == b.len());
        assert(b.len() == 0);
        assert(b == Seq::<ComponentKind>::empty());
    } else {
        let x = a.last();
        assert(a.to_multiset().contains(x)) by {
            assert(a.contains(x)) by {
                assert(a[a.len() - 1] == x);
            }
        }
        assert(b.contains(x));
        let j = choose|j: int| 0 <= j < b.len() && b[j] == x;
        assert(a.drop_last().push(x) == a);
        assert(b.remove(j).to_multiset() == b.to_multiset().remove(x));
        assert(a.drop_last().to_multiset() =~= a.to_multiset().remove(x));
        lemma_meaningful_ids_permutation(a.drop_last(), b.remove(j));
        lemma_meaningful_ids_remove(b, j);
        assert(meaningful_ids(a) == meaningful_ids(a.drop_last()) + contribution(x));
    }
}

/// Determinism: the fingerprint is a function of the spawn tick and the
/// component kinds alone, so equal inputs give equal fingerprints in every
/// process.
pub proof fn lemma_fingerprint_deterministic(
    t1: u16,
    k1: Seq<ComponentKind>,
    t2: u16,
    k2: Seq<ComponentKind>,
)
    requires
        t1 == t2,
        k1 == k2,
    ensures
        fingerprint(t1, k1) == fingerprint(t2, k2),
        fingerprint_bytes(t1, k1) == fingerprint_bytes(t2, k2),
{
}

/// Order independence: listing the same component kinds in another order
/// gives the same hashed bytes, hence the same fingerprint.
pub proof fn lemma_fingerprint_order_independent(
    tick: u16,
    a: Seq<ComponentKind>,
    b: Seq<ComponentKind>,
)
    requires
        a.to_multiset() == b.to_multiset(),
    ensures
        sorted_ids(a) == sorted_ids(b),
        fingerprint_bytes(tick, a) == fingerprint_bytes(tick, b),
        fingerprint(tick, a) == fingerprint(tick, b),
{
    lemma_meaningful_ids_permutation(a, b);
    lemma_id_leq_total();
    meaningful_ids(a).lemma_sort_by_ensures(id_leq());
    meaningful_ids(b).lemma_sort_by_ensures(id_leq());
    lemma_sorted_unique(sorted_ids(a), sorted_ids(b), id_leq());
}

/// Bookkeeping kinds never change a fingerprint.
pub proof fn lemma_bookkeeping_ignored(tick: u16, kinds: Seq<ComponentKind>, k: ComponentKind)
    requires
        k.bookkeeping,
    ensures
        fingerprint(tick, kinds.push(k)) == fingerprint(tick, kinds),
{
    assert(kinds.push(k).drop_last() == kinds);
    assert(meaningful_ids(kinds.push(k)) == meaningful_ids(kinds));
}

} // verus!
