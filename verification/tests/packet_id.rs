//! Tests of the packet identifier allocator.

use mqtt_broker::session::PacketIdAllocator;

#[test]
fn test_allocate_sequential() {
    let mut alloc = PacketIdAllocator::new();

    assert_eq!(alloc.allocate(), Some(1));
    assert_eq!(alloc.allocate(), Some(2));
    assert_eq!(alloc.allocate(), Some(3));

    assert!(alloc.is_in_use(1));
    assert!(alloc.is_in_use(2));
    assert!(alloc.is_in_use(3));
    assert!(!alloc.is_in_use(4));
}

#[test]
fn test_release_and_reuse() {
    let mut alloc = PacketIdAllocator::new();

    let id1 = alloc.allocate().unwrap();
    let id2 = alloc.allocate().unwrap();

    alloc.release(id1);
    assert!(!alloc.is_in_use(id1));
    assert!(alloc.is_in_use(id2));

    // Should continue with next sequential ID, not reuse id1 immediately
    let id3 = alloc.allocate().unwrap();
    assert_eq!(id3, 3);
}

#[test]
fn test_wraparound() {
    let mut alloc = PacketIdAllocator::new();
    // Move the next identifier to u16::MAX: hand out and give back all below it
    for _ in 1..u16::MAX {
        let id = alloc.allocate().unwrap();
        alloc.release(id);
    }

    let id1 = alloc.allocate().unwrap();
    assert_eq!(id1, u16::MAX);

    let id2 = alloc.allocate().unwrap();
    assert_eq!(id2, 1); // Wrapped to 1
}

#[test]
fn test_exhaustion() {
    let mut alloc = PacketIdAllocator::new();

    // Fill up all IDs
    for _ in 0..65535 {
        assert!(alloc.allocate().is_some());
    }

    // Should fail
    assert!(alloc.allocate().is_none());
    assert!(!alloc.has_capacity());

    // Release one
    alloc.release(1000);
    assert!(alloc.has_capacity());

    // Should succeed now
    assert_eq!(alloc.allocate(), Some(1000));
}

#[test]
fn packet_id_test_clear() {
    let mut alloc = PacketIdAllocator::new();

    alloc.allocate();
    alloc.allocate();
    alloc.allocate();

    assert_eq!(alloc.in_use_count(), 3);

    alloc.clear();

    assert_eq!(alloc.in_use_count(), 0);
    assert_eq!(alloc.allocate(), Some(1));
}
