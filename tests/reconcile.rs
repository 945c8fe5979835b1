use prespawn::{
    compute_fingerprint, expiry_horizon, link_predicted, ComponentKind, Confirmed,
    ConfirmedObject, Entity, PendingMatchIndex, PreSpawnedPlayerObject,
    PreSpawnedPlayerObjectSet, Resolution,
};

fn arrival(hash: Option<u64>, tick: u16) -> ConfirmedObject {
    ConfirmedObject {
        entity: Entity(1000),
        tick,
        prespawn: Some(PreSpawnedPlayerObject { hash }),
        should_be_predicted: true,
        confirmed: None,
    }
}

fn shape() -> Vec<ComponentKind> {
    vec![
        ComponentKind { net_id: Some(4), bookkeeping: false },
        ComponentKind { net_id: Some(1), bookkeeping: true },
    ]
}

#[test]
fn marker_default_has_no_hash() {
    assert_eq!(PreSpawnedPlayerObject::default().hash, None);
    assert_ne!(PreSpawnedPlayerObjectSet::Spawn, PreSpawnedPlayerObjectSet::CleanUp);
}

#[test]
fn register_candidate_computes_and_caches_fingerprint() {
    let mut index = PendingMatchIndex::new();
    let mut marker = PreSpawnedPlayerObject::default();
    let fp = index.register_candidate(Entity(1), &mut marker, 100, &shape());
    assert_eq!(fp, compute_fingerprint(100, &shape()));
    assert_eq!(marker.hash, Some(fp));
    let again = index.register_candidate(Entity(1), &mut marker, 101, &Vec::new());
    assert_eq!(again, fp);
    assert_eq!(index.queued(fp), vec![Entity(1)]);
    assert_eq!(index.pending_expiry().len(), 1);
}

#[test]
fn register_candidate_uses_assigned_fingerprint_verbatim() {
    let mut index = PendingMatchIndex::new();
    let mut marker = PreSpawnedPlayerObject { hash: Some(12345) };
    let fp = index.register_candidate(Entity(2), &mut marker, 100, &shape());
    assert_eq!(fp, 12345);
    assert_eq!(index.queued(12345), vec![Entity(2)]);
}

#[test]
fn earliest_duplicate_candidate_is_claimed_and_the_other_swept() {
    let mut index = PendingMatchIndex::new();
    let mut m1 = PreSpawnedPlayerObject::default();
    let mut m2 = PreSpawnedPlayerObject::default();
    let h1 = index.register_candidate(Entity(1), &mut m1, 100, &shape());
    let h2 = index.register_candidate(Entity(2), &mut m2, 100, &shape());
    assert_eq!(h1, h2);
    assert_eq!(index.queued(h1), vec![Entity(1), Entity(2)]);

    let mut a = arrival(Some(h1), 105);
    let r = index.process_arrival(&mut a, |_| true);
    assert_eq!(r, Resolution::Reused(Entity(1)));
    assert_eq!(
        a.confirmed,
        Some(Confirmed { predicted: Some(Entity(1)), interpolated: None, tick: 105 })
    );
    assert_eq!(a.prespawn, None);
    assert!(!a.should_be_predicted);
    assert_eq!(index.queued(h1), vec![Entity(2)]);

    assert_eq!(index.sweep(300, 250), vec![Entity(2)]);
    assert!(index.queued(h1).is_empty());
}

#[test]
fn arrival_without_candidate_spawns_fresh_placeholder() {
    let mut index = PendingMatchIndex::new();
    let mut a = arrival(Some(99), 40);
    let r = index.process_arrival(&mut a, |_| true);
    assert_eq!(r, Resolution::SpawnFresh);
    assert_eq!(a.prespawn, None);
    assert_eq!(a.confirmed, None);
    link_predicted(&mut a, Entity(7));
    assert_eq!(
        a.confirmed,
        Some(Confirmed { predicted: Some(Entity(7)), interpolated: None, tick: 40 })
    );
}

#[test]
fn stale_candidate_falls_through_to_fresh_spawn() {
    let mut index = PendingMatchIndex::new();
    index.register(Entity(5), 31, 10);
    let mut a = arrival(Some(31), 12);
    let r = index.process_arrival(&mut a, |e| e != Entity(5));
    assert_eq!(r, Resolution::SpawnFresh);
    assert!(index.queued(31).is_empty());
    assert_eq!(a.prespawn, None);
}

#[test]
fn duplicate_arrival_is_not_linked_twice() {
    let mut index = PendingMatchIndex::new();
    index.register(Entity(1), 8, 10);
    index.register(Entity(2), 8, 10);
    let mut a = arrival(Some(8), 11);
    assert_eq!(index.process_arrival(&mut a, |_| true), Resolution::Reused(Entity(1)));
    let after_first = a;
    assert_eq!(index.process_arrival(&mut a, |_| true), Resolution::AlreadyLinked);
    assert_eq!(a, after_first);
    assert_eq!(index.queued(8), vec![Entity(2)]);

    let mut b = arrival(Some(77), 11);
    assert_eq!(index.process_arrival(&mut b, |_| true), Resolution::SpawnFresh);
    link_predicted(&mut b, Entity(50));
    let linked = b;
    assert_eq!(index.process_arrival(&mut b, |_| true), Resolution::AlreadyLinked);
    assert_eq!(b, linked);
}

#[test]
fn arrival_without_fingerprint_is_skipped() {
    let mut index = PendingMatchIndex::new();
    index.register(Entity(1), 8, 10);
    let mut a = arrival(None, 11);
    let before = a;
    assert_eq!(index.process_arrival(&mut a, |_| true), Resolution::MissingFingerprint);
    assert_eq!(a, before);
    assert_eq!(index.queued(8), vec![Entity(1)]);
}

#[test]
fn candidate_behind_horizon_is_evicted() {
    assert_eq!(expiry_horizon(50, 40), 30);
    let mut index = PendingMatchIndex::new();
    index.register(Entity(4), 3, 10);
    index.register(Entity(6), 5, 31);
    assert_eq!(index.sweep(50, 40), vec![Entity(4)]);
    assert!(index.queued(3).is_empty());
    assert_eq!(index.queued(5), vec![Entity(6)]);
}

#[test]
fn horizon_subtraction_saturates() {
    assert_eq!(expiry_horizon(10, 2), 0);
    assert_eq!(expiry_horizon(5, 40), 5);
    assert_eq!(expiry_horizon(0, 0), 0);
    assert_eq!(expiry_horizon(u16::MAX, u16::MAX), u16::MAX);
    assert_eq!(expiry_horizon(u16::MAX, 0), 0);
    assert_eq!(expiry_horizon(100, 75), 50);
}
