use formation::entity::{AccessError, EntityStore, Slot};

#[derive(Debug, PartialEq)]
struct Counter {
    count: usize,
}

#[test]
fn last_release_is_reported_exactly_once() {
    let mut s: EntityStore<Counter> = EntityStore::new();
    let r = s.reserve();
    let h = s.insert(r, Counter { count: 0 });
    let id = h.id();
    for n in 1..4 {
        let mut v = s.lease(&h);
        v.count = n;
        s.end_lease(id, v);
    }
    assert!(s.take_dropped().is_empty());
    s.release(h);
    let batch = s.take_dropped();
    assert_eq!(batch.len(), 1);
    assert_eq!(batch[0].0, id);
    assert_eq!(batch[0].1, Counter { count: 3 });
    assert!(s.take_dropped().is_empty());
    assert!(matches!(s.slots_at(id), Some(Slot::Finalized)));
}

#[test]
fn release_during_lease_drops_at_end_of_lease() {
    let mut s: EntityStore<Counter> = EntityStore::new();
    let r = s.reserve();
    let h = s.insert(r, Counter { count: 5 });
    let id = h.id();
    let v = s.lease(&h);
    s.release(h);
    assert_eq!(s.strong_count(id), 0);
    assert!(s.pending_ids().is_empty());
    s.end_lease(id, v);
    assert_eq!(s.pending_ids(), vec![id]);
    let batch = s.take_dropped();
    assert_eq!(batch.len(), 1);
    assert_eq!(batch[0].1, Counter { count: 5 });
    assert!(s.pending_ids().is_empty());
}

#[test]
fn drops_are_reported_in_order() {
    let mut s: EntityStore<Counter> = EntityStore::new();
    let r0 = s.reserve();
    let a = s.insert(r0, Counter { count: 0 });
    let r1 = s.reserve();
    let b = s.insert(r1, Counter { count: 1 });
    let (ia, ib) = (a.id(), b.id());
    s.release(b);
    s.release(a);
    let batch = s.take_dropped();
    assert_eq!(batch.iter().map(|e| e.0).collect::<Vec<_>>(), vec![ib, ia]);
    assert_eq!(s.len(), 2);
}

#[test]
fn lease_errors() {
    let mut s: EntityStore<Counter> = EntityStore::new();
    let r = s.reserve();
    assert!(s.is_reserved(&r));
    let h = s.insert(r, Counter { count: 0 });
    let w = s.downgrade(&h);
    let extra = s.clone_handle(&h).unwrap();
    assert_eq!(s.strong_count(h.id()), 2);
    let v = s.lease(&h);
    assert_eq!(s.try_lease(&extra).err(), Some(AccessError::Reentrant));
    assert_eq!(s.try_lease(&h).err(), Some(AccessError::Reentrant));
    s.end_lease(h.id(), v);
    s.release(extra);
    s.release(h);
    assert!(s.upgrade(&w).is_none());
    s.take_dropped();
    let again = s.upgrade(&w);
    assert!(again.is_none());
    assert_eq!(s.get(w.id()), None);
}
