use managed_cache::store::memory::MemoryStore;
use managed_cache::store::replacement::LruReplacementStrategy;
use managed_cache::store::CacheStoreStrategy;

type Lru = LruReplacementStrategy<u64, u64, MemoryStore<u64, u64>>;

#[test]
fn lru_capacity_two_scenario() {
    // Capacity 2: put(A,1); put(B,2); put(C,3) evicts A.
    let mut lru: Lru = LruReplacementStrategy::new(2, MemoryStore::new());
    let (a, b, c, d) = (1u64, 2u64, 3u64, 4u64);
    lru.put(&a, 1);
    lru.put(&b, 2);
    lru.put(&c, 3);
    assert!(!lru.contains(&a));
    assert!(lru.contains(&b));
    assert!(lru.contains(&c));
    // get(B) makes C the least recently used; put(D,4) then evicts C.
    assert_eq!(lru.get(&b), Some(2));
    lru.put(&d, 4);
    assert!(lru.contains(&b));
    assert!(!lru.contains(&c));
    assert!(lru.contains(&d));
}

#[test]
fn lru_fill_past_capacity_evicts_first_inserted() {
    let mut lru: Lru = LruReplacementStrategy::new(3, MemoryStore::new());
    for k in 1..=4u64 {
        lru.put(&k, k * 10);
    }
    assert!(!lru.contains(&1));
    for k in 2..=4u64 {
        assert!(lru.contains(&k));
    }
}

#[test]
fn lru_eviction_removes_from_backing_store() {
    let mut lru: Lru = LruReplacementStrategy::new(1, MemoryStore::new());
    lru.put(&1, 10);
    lru.put(&2, 20);
    // peek delegates to the backing store, so the evicted entry is gone there
    // too, not just from the index.
    assert_eq!(lru.peek(&1), None);
    assert_eq!(lru.peek(&2), Some(20));
}

#[test]
fn lru_peek_does_not_bump_recency() {
    let mut lru: Lru = LruReplacementStrategy::new(2, MemoryStore::new());
    lru.put(&1, 10);
    lru.put(&2, 20);
    // A peek of the least-recently-used key must not save it from eviction.
    assert_eq!(lru.peek(&1), Some(10));
    lru.put(&3, 30);
    assert!(!lru.contains(&1));
    assert!(lru.contains(&2));
    assert!(lru.contains(&3));
}

#[test]
fn lru_get_keys_most_recent_first() {
    let mut lru: Lru = LruReplacementStrategy::new(3, MemoryStore::new());
    lru.put(&1, 10);
    lru.put(&2, 20);
    lru.put(&3, 30);
    assert_eq!(lru.get_keys(), vec![3, 2, 1]);
    assert_eq!(lru.get(&1), Some(10));
    assert_eq!(lru.get_keys(), vec![1, 3, 2]);
}

#[test]
fn lru_put_existing_key_updates_and_bumps() {
    let mut lru: Lru = LruReplacementStrategy::new(2, MemoryStore::new());
    lru.put(&1, 10);
    lru.put(&2, 20);
    lru.put(&1, 11);
    assert_eq!(lru.get_keys(), vec![1, 2]);
    assert_eq!(lru.peek(&1), Some(11));
    // No eviction happened: both keys still fit.
    assert!(lru.contains(&2));
}

#[test]
fn lru_delete_and_flush() {
    let mut lru: Lru = LruReplacementStrategy::new(3, MemoryStore::new());
    lru.put(&1, 10);
    lru.put(&2, 20);
    assert!(lru.delete(&1));
    assert!(!lru.delete(&1));
    assert!(!lru.contains(&1));
    lru.flush();
    assert!(!lru.contains(&2));
    assert_eq!(lru.get_keys(), Vec::<u64>::new());
}

#[test]
fn lru_over_capacity_seed_is_evicted_at_construction() {
    let mut backing: MemoryStore<u64, u64> = MemoryStore::new();
    backing.put(&1, 10);
    backing.put(&2, 20);
    backing.put(&3, 30);
    let mut lru: Lru = LruReplacementStrategy::new(1, backing);
    // The excess was evicted at construction, from the index and the backing
    // store alike; which key survives depends on the backing store's
    // arbitrary enumeration order.
    let keys = lru.get_keys();
    assert_eq!(keys.len(), 1);
    let survivor = keys[0];
    assert_eq!(lru.peek(&survivor), Some(survivor * 10));
    for k in 1..=3u64 {
        if k != survivor {
            assert!(!lru.contains(&k));
            assert_eq!(lru.peek(&k), None);
        }
    }
    // The bound now holds after every put.
    lru.put(&4, 40);
    assert!(lru.contains(&4));
    assert_eq!(lru.get_keys().len(), 1);
    assert_eq!(lru.peek(&survivor), None);
}

#[test]
fn lru_seeds_index_from_populated_backing_store() {
    let mut backing: MemoryStore<u64, u64> = MemoryStore::new();
    backing.put(&1, 10);
    backing.put(&2, 20);
    backing.put(&3, 30);
    let mut lru: Lru = LruReplacementStrategy::new(5, backing);
    for k in 1..=3u64 {
        assert!(lru.contains(&k));
        assert_eq!(lru.get(&k), Some(k * 10));
    }
    let mut keys = lru.get_keys();
    keys.sort();
    assert_eq!(keys, vec![1, 2, 3]);
}
