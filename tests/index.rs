use prespawn::{Entity, ExpiryEntry, PendingMatchIndex};

#[test]
fn registering_twice_is_a_no_op() {
    let mut index = PendingMatchIndex::new();
    assert!(index.register(Entity(1), 77, 10));
    let queued = index.queued(77);
    let expiry = index.pending_expiry();
    assert!(!index.register(Entity(1), 77, 10));
    assert_eq!(index.queued(77), queued);
    assert_eq!(index.pending_expiry(), expiry);
    assert_eq!(queued, vec![Entity(1)]);
    assert_eq!(expiry, vec![ExpiryEntry { tick: 10, fingerprint: 77 }]);
}

#[test]
fn take_one_is_first_in_first_out() {
    let mut index = PendingMatchIndex::new();
    index.register(Entity(1), 5, 20);
    index.register(Entity(2), 5, 21);
    assert_eq!(index.take_one(5), Some(Entity(1)));
    assert_eq!(index.take_one(5), Some(Entity(2)));
    assert_eq!(index.take_one(5), None);
}

#[test]
fn take_one_of_unknown_fingerprint_is_none() {
    let mut index = PendingMatchIndex::new();
    index.register(Entity(1), 5, 20);
    assert_eq!(index.take_one(6), None);
    assert_eq!(index.queued(5), vec![Entity(1)]);
}

#[test]
fn take_one_leaves_expiry_entries() {
    let mut index = PendingMatchIndex::new();
    index.register(Entity(1), 5, 20);
    assert_eq!(index.take_one(5), Some(Entity(1)));
    assert_eq!(index.pending_expiry(), vec![ExpiryEntry { tick: 20, fingerprint: 5 }]);
    let drained = index.drain_expired(20);
    assert_eq!(drained.len(), 1);
    assert!(drained[0].candidates.is_empty());
}

#[test]
fn registration_expires_exactly_at_its_tick() {
    let mut index = PendingMatchIndex::new();
    index.register(Entity(3), 9, 10);
    assert!(index.drain_expired(9).is_empty());
    assert_eq!(index.queued(9), vec![Entity(3)]);
    let drained = index.drain_expired(10);
    assert_eq!(drained.len(), 1);
    assert_eq!(drained[0].tick, 10);
    assert_eq!(drained[0].fingerprint, 9);
    assert_eq!(drained[0].candidates, vec![Entity(3)]);
    assert!(index.queued(9).is_empty());
    assert!(index.pending_expiry().is_empty());
}

#[test]
fn drain_returns_entries_in_tick_order() {
    let mut index = PendingMatchIndex::new();
    index.register(Entity(1), 100, 30);
    index.register(Entity(2), 200, 10);
    index.register(Entity(3), 300, 20);
    index.register(Entity(4), 400, 40);
    assert_eq!(
        index.pending_expiry(),
        vec![
            ExpiryEntry { tick: 10, fingerprint: 200 },
            ExpiryEntry { tick: 20, fingerprint: 300 },
            ExpiryEntry { tick: 30, fingerprint: 100 },
            ExpiryEntry { tick: 40, fingerprint: 400 },
        ]
    );
    let drained = index.drain_expired(30);
    let ticks: Vec<u16> = drained.iter().map(|e| e.tick).collect();
    assert_eq!(ticks, vec![10, 20, 30]);
    assert_eq!(index.pending_expiry(), vec![ExpiryEntry { tick: 40, fingerprint: 400 }]);
    assert_eq!(index.queued(400), vec![Entity(4)]);
}

#[test]
fn equal_ticks_keep_registration_order() {
    let mut index = PendingMatchIndex::new();
    index.register(Entity(1), 1, 5);
    index.register(Entity(2), 2, 5);
    assert_eq!(
        index.pending_expiry(),
        vec![ExpiryEntry { tick: 5, fingerprint: 1 }, ExpiryEntry { tick: 5, fingerprint: 2 }]
    );
}

#[test]
fn first_drained_entry_of_a_fingerprint_takes_its_whole_queue() {
    let mut index = PendingMatchIndex::new();
    index.register(Entity(1), 8, 10);
    index.register(Entity(2), 8, 12);
    let drained = index.drain_expired(12);
    assert_eq!(drained.len(), 2);
    assert_eq!(drained[0].candidates, vec![Entity(1), Entity(2)]);
    assert!(drained[1].candidates.is_empty());
}

#[test]
fn empty_index_drains_nothing() {
    let mut index = PendingMatchIndex::new();
    assert!(index.drain_expired(u16::MAX).is_empty());
    assert!(index.sweep(u16::MAX, 0).is_empty());
}
