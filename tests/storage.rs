use marecchia::storage::{MemoryStorage, SegmentStorage, MEMORY_STORAGE_CAPACITY};

#[test]
fn memory_storage_set_and_get() {
    let mut store = MemoryStorage::new();
    assert_eq!(store.get("a"), None);
    assert_eq!(store.set("a", vec![1, 2]), None);
    assert_eq!(store.get("a"), Some(&vec![1, 2]));
}

#[test]
fn memory_storage_replacement_returns_old() {
    let mut store = MemoryStorage::new();
    store.set("a", vec![1]);
    assert_eq!(store.set("a", vec![2]), Some(("a".to_string(), vec![1])));
    assert_eq!(store.get("a"), Some(&vec![2]));
}

#[test]
fn memory_storage_evicts_least_recently_used() {
    let mut store = MemoryStorage::new();
    for i in 0..MEMORY_STORAGE_CAPACITY {
        assert_eq!(store.set(&format!("k{}", i), vec![i as u8]), None);
    }
    // Touch the oldest so that the second oldest leaves first.
    assert_eq!(store.get("k0"), Some(&vec![0]));
    assert_eq!(store.set("new", vec![99]), None);
    assert_eq!(store.get("k1"), None);
    assert_eq!(store.get("k0"), Some(&vec![0]));
    assert_eq!(store.get("new"), Some(&vec![99]));
}
