use udp_multiplexer::counter::ThroughputCounter;

#[test]
fn new_counter_is_zero() {
    assert_eq!(ThroughputCounter::new().total(), 0);
}

#[test]
fn record_adds_each_payload_length() {
    let mut counter = ThroughputCounter::new();
    let mut expected = 0u64;
    for size in [5usize, 8192, 1, 300] {
        let before = counter.total();
        counter.record(size);
        expected += size as u64;
        assert_eq!(counter.total(), before + size as u64);
    }
    assert_eq!(counter.total(), 8498);
    assert_eq!(counter.total(), expected);
}

#[test]
fn record_of_an_empty_datagram_leaves_the_total() {
    let mut counter = ThroughputCounter::new();
    counter.record(12);
    counter.record(0);
    assert_eq!(counter.total(), 12);
}

#[test]
fn has_room_is_exact_at_the_limit() {
    let mut counter = ThroughputCounter::new();
    assert!(counter.has_room(0));
    assert!(counter.has_room(usize::MAX));
    counter.record(usize::MAX);
    let left = u64::MAX - counter.total();
    if left < usize::MAX as u64 {
        assert!(counter.has_room(left as usize));
        assert!(!counter.has_room(left as usize + 1));
    }
}
