use marecchia::registry::SegmentRequestCache;

#[test]
fn capacity_overflow_times_out_oldest() {
    let mut cache: SegmentRequestCache<&str> = SegmentRequestCache::new(2);
    assert_eq!(cache.insert("r1".to_string(), "sink1"), None);
    assert_eq!(cache.insert("r2".to_string(), "sink2"), None);
    assert_eq!(cache.insert("r3".to_string(), "sink3"), Some("sink1"));
    assert_eq!(cache.len(), 2);
    assert!(!cache.contains("r1"));
    assert!(cache.contains("r2"));
    assert!(cache.contains("r3"));
}

#[test]
fn overflow_evicts_exactly_one_in_insertion_order() {
    let mut cache: SegmentRequestCache<u32> = SegmentRequestCache::new(3);
    for i in 0..3u32 {
        assert_eq!(cache.insert(format!("s{}", i), i), None);
    }
    assert_eq!(cache.insert("s3".to_string(), 3), Some(0));
    assert_eq!(cache.insert("s4".to_string(), 4), Some(1));
    assert_eq!(cache.len(), 3);
    assert_eq!(cache.into_sinks(), vec![2, 3, 4]);
}

#[test]
fn size_never_exceeds_capacity() {
    let mut cache: SegmentRequestCache<usize> = SegmentRequestCache::new(10);
    for i in 0..100usize {
        cache.insert(format!("seg-{}", i % 37), i);
        assert!(cache.len() <= cache.capacity());
    }
    assert_eq!(cache.len(), 10);
}

#[test]
fn duplicate_id_replaces_and_times_out_old_sink() {
    let mut cache: SegmentRequestCache<u8> = SegmentRequestCache::new(2);
    assert_eq!(cache.insert("a".to_string(), 1), None);
    assert_eq!(cache.insert("b".to_string(), 2), None);
    assert_eq!(cache.insert("a".to_string(), 3), Some(1));
    assert_eq!(cache.len(), 2);
    // "a" is now the newest, so "b" leaves first.
    assert_eq!(cache.insert("c".to_string(), 4), Some(2));
    assert_eq!(cache.remove("a"), Some(3));
    assert_eq!(cache.remove("c"), Some(4));
    assert_eq!(cache.len(), 0);
}

#[test]
fn remove_takes_entry_once() {
    let mut cache: SegmentRequestCache<u8> = SegmentRequestCache::new(4);
    cache.insert("x".to_string(), 7);
    assert_eq!(cache.remove("y"), None);
    assert_eq!(cache.remove("x"), Some(7));
    assert_eq!(cache.remove("x"), None);
}

#[test]
fn zero_capacity_times_out_every_request() {
    let mut cache: SegmentRequestCache<u8> = SegmentRequestCache::new(0);
    assert_eq!(cache.insert("x".to_string(), 9), Some(9));
    assert_eq!(cache.len(), 0);
}

#[test]
fn new_registry_is_empty() {
    let cache: SegmentRequestCache<u8> = SegmentRequestCache::new(10);
    assert_eq!(cache.len(), 0);
    assert_eq!(cache.capacity(), 10);
    assert!(cache.into_sinks().is_empty());
}
