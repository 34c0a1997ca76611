use managed_cache::store::memory::MemoryStore;
use managed_cache::store::CacheStoreStrategy;

#[test]
fn memory_store_put_get_peek() {
    let mut store: MemoryStore<u64, String> = MemoryStore::new();
    assert_eq!(store.get(&1), None);
    store.put(&1, String::from("one"));
    assert_eq!(store.get(&1), Some(String::from("one")));
    assert_eq!(store.peek(&1), Some(String::from("one")));
    assert_eq!(store.peek(&2), None);
}

#[test]
fn memory_store_put_overwrites() {
    let mut store: MemoryStore<u64, u64> = MemoryStore::new();
    store.put(&1, 10);
    store.put(&1, 20);
    assert_eq!(store.get(&1), Some(20));
    assert_eq!(store.get_keys(), vec![1]);
}

#[test]
fn memory_store_delete_reports_presence() {
    let mut store: MemoryStore<u64, u64> = MemoryStore::new();
    store.put(&1, 10);
    assert!(store.delete(&1));
    assert!(!store.delete(&1));
    assert_eq!(store.get(&1), None);
}

#[test]
fn memory_store_flush_clears() {
    let mut store: MemoryStore<u64, u64> = MemoryStore::new();
    store.put(&1, 10);
    store.put(&2, 20);
    store.flush();
    assert!(!store.contains(&1));
    assert!(!store.contains(&2));
    assert_eq!(store.get_keys(), Vec::<u64>::new());
}

#[test]
fn memory_store_keys_and_contains() {
    let mut store: MemoryStore<u64, u64> = MemoryStore::new();
    store.put(&1, 10);
    store.put(&2, 20);
    store.put(&3, 30);
    assert!(store.contains(&2));
    assert!(!store.contains(&4));
    let mut keys = store.get_keys();
    keys.sort();
    assert_eq!(keys, vec![1, 2, 3]);
}

#[test]
fn memory_store_string_keys() {
    let mut store: MemoryStore<String, u64> = MemoryStore::new();
    store.put(&String::from("a"), 1);
    store.put(&String::from("b"), 2);
    assert_eq!(store.get(&String::from("a")), Some(1));
    assert!(store.delete(&String::from("b")));
    assert!(!store.contains(&String::from("b")));
}
