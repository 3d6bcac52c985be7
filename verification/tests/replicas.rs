use respstore::replicas::ReplicaRegistry;

#[test]
fn registry_needs_a_usable_capacity() {
    assert!(ReplicaRegistry::new(0).is_none());
    assert!(ReplicaRegistry::new(usize::MAX).is_none());
    assert!(ReplicaRegistry::new(usize::MAX / 8 + 1).is_none());
    assert!(ReplicaRegistry::new(1).is_some());
    assert!(ReplicaRegistry::new(usize::MAX / 8).is_some());
}

#[test]
fn new_registry_is_empty_and_attach_appends() {
    let mut registry = ReplicaRegistry::new(4).unwrap();
    assert_eq!(registry.len(), 0);
    let _first = registry.attach();
    let _second = registry.attach();
    assert_eq!(registry.len(), 2);
}

#[test]
fn broadcast_reaches_every_replica_with_the_same_bytes() {
    let mut registry = ReplicaRegistry::new(4).unwrap();
    let mut first = registry.attach();
    let mut second = registry.attach();
    assert_eq!(registry.broadcast(b"*1\r\n$4\r\nPING\r\n"), 2);
    assert_eq!(first.try_recv().ok().map(|b| b.to_vec()), Some(b"*1\r\n$4\r\nPING\r\n".to_vec()));
    assert_eq!(second.try_recv().ok().map(|b| b.to_vec()), Some(b"*1\r\n$4\r\nPING\r\n".to_vec()));
    assert!(first.try_recv().is_err());
    assert_eq!(registry.len(), 2);
}

#[test]
fn broadcast_keeps_the_order_of_writes() {
    let mut registry = ReplicaRegistry::new(4).unwrap();
    let mut source = registry.attach();
    registry.broadcast(b"one");
    registry.broadcast(b"two");
    registry.broadcast(b"three");
    assert_eq!(source.try_recv().ok().map(|b| b.to_vec()), Some(b"one".to_vec()));
    assert_eq!(source.try_recv().ok().map(|b| b.to_vec()), Some(b"two".to_vec()));
    assert_eq!(source.try_recv().ok().map(|b| b.to_vec()), Some(b"three".to_vec()));
}

#[test]
fn broadcast_to_no_replica_delivers_nothing() {
    let mut registry = ReplicaRegistry::new(1).unwrap();
    assert_eq!(registry.broadcast(b"x"), 0);
    assert_eq!(registry.len(), 0);
}

#[test]
fn closed_replica_is_detached_and_the_others_are_served() {
    let mut registry = ReplicaRegistry::new(4).unwrap();
    let first = registry.attach();
    let mut second = registry.attach();
    drop(first);
    assert_eq!(registry.broadcast(b"x"), 1);
    assert_eq!(registry.len(), 1);
    assert_eq!(second.try_recv().ok().map(|b| b.to_vec()), Some(b"x".to_vec()));
    assert_eq!(registry.broadcast(b"y"), 1);
    assert_eq!(second.try_recv().ok().map(|b| b.to_vec()), Some(b"y".to_vec()));
}

#[test]
fn full_queue_detaches_the_slow_replica_only() {
    let mut registry = ReplicaRegistry::new(1).unwrap();
    let mut slow = registry.attach();
    let mut fast = registry.attach();
    assert_eq!(registry.broadcast(b"1"), 2);
    assert_eq!(fast.try_recv().ok().map(|b| b.to_vec()), Some(b"1".to_vec()));
    assert_eq!(registry.broadcast(b"2"), 1);
    assert_eq!(registry.len(), 1);
    assert_eq!(fast.try_recv().ok().map(|b| b.to_vec()), Some(b"2".to_vec()));
    assert_eq!(slow.try_recv().ok().map(|b| b.to_vec()), Some(b"1".to_vec()));
    assert!(slow.try_recv().is_err());
}

#[test]
fn prune_closed_detaches_without_a_broadcast() {
    let mut registry = ReplicaRegistry::new(2).unwrap();
    let first = registry.attach();
    let mut second = registry.attach();
    let third = registry.attach();
    assert_eq!(registry.probe_all(), vec![true, true, true]);
    drop(first);
    drop(third);
    assert_eq!(registry.probe_all(), vec![false, true, false]);
    registry.prune_closed();
    assert_eq!(registry.len(), 1);
    assert_eq!(registry.broadcast(b"z"), 1);
    assert_eq!(second.try_recv().ok().map(|b| b.to_vec()), Some(b"z".to_vec()));
}

#[test]
fn prune_keeps_exactly_the_marked_replicas_in_order() {
    let mut registry = ReplicaRegistry::new(2).unwrap();
    let mut a = registry.attach();
    let mut b = registry.attach();
    let mut c = registry.attach();
    registry.prune(&vec![true, false, true]);
    assert_eq!(registry.len(), 2);
    assert_eq!(registry.offer_all(b"m"), vec![true, true]);
    assert_eq!(a.try_recv().ok().map(|b| b.to_vec()), Some(b"m".to_vec()));
    assert!(b.try_recv().is_err());
    assert_eq!(c.try_recv().ok().map(|b| b.to_vec()), Some(b"m".to_vec()));
    registry.prune(&vec![false, true]);
    assert_eq!(registry.offer_all(b"n"), vec![true]);
    assert!(a.try_recv().is_err());
    assert_eq!(c.try_recv().ok().map(|b| b.to_vec()), Some(b"n".to_vec()));
}

#[test]
fn offer_all_reports_without_detaching() {
    let mut registry = ReplicaRegistry::new(1).unwrap();
    let _kept = registry.attach();
    assert_eq!(registry.offer_all(b"1"), vec![true]);
    assert_eq!(registry.offer_all(b"2"), vec![false]);
    assert_eq!(registry.len(), 1);
}
