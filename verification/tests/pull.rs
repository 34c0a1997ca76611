use std::cell::Cell;
use std::collections::HashMap;

use managed_cache::hydration::pull::PullCacheHydrator;
use managed_cache::hydration::{CacheHydrationStrategy, CacheLookupSuccess};
use managed_cache::source_of_record::SourceOfRecord;
use managed_cache::store::memory::MemoryStore;
use managed_cache::store::CacheStoreStrategy;

/// A source whose values are fixed; a held value is valid iff it is the one
/// the source currently has.
struct BasicSource {
    inner: HashMap<u64, String>,
}

impl SourceOfRecord<u64, String> for BasicSource {
    fn retrieve(&self, key: &u64) -> Option<String> {
        self.inner.get(key).cloned()
    }

    fn retrieve_with_hint(&self, key: &u64, _current: &String) -> Option<String> {
        self.retrieve(key)
    }

    fn is_valid(&self, key: &u64, value: &String) -> bool {
        self.inner.get(key) == Some(value)
    }
}

/// A source that forgets each value once it has been retrieved; whatever is
/// cached afterwards is invalid and cannot be replaced.
struct ForgetfulSource {
    inner: HashMap<u64, Cell<Option<u64>>>,
}

impl SourceOfRecord<u64, u64> for ForgetfulSource {
    fn retrieve(&self, key: &u64) -> Option<u64> {
        self.inner.get(key).and_then(|cell| {
            let previous = cell.get();
            cell.set(None);
            previous
        })
    }

    fn retrieve_with_hint(&self, key: &u64, _current: &u64) -> Option<u64> {
        self.retrieve(key)
    }

    fn is_valid(&self, key: &u64, value: &u64) -> bool {
        self.inner.get(key).map_or(false, |cell| cell.get() == Some(*value))
    }
}

fn basic_source() -> BasicSource {
    let mut inner = HashMap::new();
    inner.insert(1, String::from("AAAA"));
    inner.insert(2, String::from("AAAAAAAA"));
    BasicSource { inner }
}

#[test]
fn pull_first_get_misses_then_hits() {
    let mut cache = PullCacheHydrator::new(MemoryStore::new(), basic_source());
    assert_eq!(
        cache.get(&1),
        Some(CacheLookupSuccess::Miss(String::from("AAAA")))
    );
    // The miss persisted the value, so the same lookup now hits without any
    // further retrieval.
    assert_eq!(
        cache.get(&1),
        Some(CacheLookupSuccess::Hit(String::from("AAAA")))
    );
}

#[test]
fn pull_get_unknown_key_fails() {
    let mut cache = PullCacheHydrator::new(MemoryStore::new(), basic_source());
    assert_eq!(cache.get(&3), None);
    assert_eq!(cache.get(&3), None);
}

#[test]
fn pull_invalid_refreshes_and_persists() {
    // The store holds a value the source no longer agrees with; the source
    // can refresh it.
    let mut store: MemoryStore<u64, String> = MemoryStore::new();
    store.put(&1, String::from("outdated"));
    let mut cache = PullCacheHydrator::new(store, basic_source());
    assert_eq!(
        cache.get(&1),
        Some(CacheLookupSuccess::Refresh(String::from("AAAA")))
    );
    // The refreshed value was written back: it is now valid and hits.
    assert_eq!(
        cache.get(&1),
        Some(CacheLookupSuccess::Hit(String::from("AAAA")))
    );
}

#[test]
fn pull_invalid_without_replacement_is_stale() {
    let mut inner = HashMap::new();
    inner.insert(1, Cell::new(Some(0)));
    inner.insert(2, Cell::new(Some(1)));
    let source = ForgetfulSource { inner };
    let mut cache = PullCacheHydrator::new(MemoryStore::new(), source);
    assert_eq!(cache.get(&1), Some(CacheLookupSuccess::Miss(0)));
    // The source forgot the value: the cached one is invalid, nothing can
    // replace it, and the old value comes back as a best effort — repeatedly,
    // since a stale outcome writes nothing.
    assert_eq!(cache.get(&1), Some(CacheLookupSuccess::Stale(0)));
    assert_eq!(cache.get(&1), Some(CacheLookupSuccess::Stale(0)));
}

#[test]
fn pull_stop_tracking_then_get_misses_again() {
    let mut cache = PullCacheHydrator::new(MemoryStore::new(), basic_source());
    assert_eq!(
        cache.get(&1),
        Some(CacheLookupSuccess::Miss(String::from("AAAA")))
    );
    assert_eq!(
        cache.get(&1),
        Some(CacheLookupSuccess::Hit(String::from("AAAA")))
    );
    cache.stop_tracking(&1);
    // The key behaves as if it had never been seen.
    assert_eq!(
        cache.get(&1),
        Some(CacheLookupSuccess::Miss(String::from("AAAA")))
    );
}

#[test]
fn pull_repeated_get_of_valid_entry_is_idempotent() {
    let mut cache = PullCacheHydrator::new(MemoryStore::new(), basic_source());
    assert_eq!(
        cache.get(&2),
        Some(CacheLookupSuccess::Miss(String::from("AAAAAAAA")))
    );
    for _ in 0..3 {
        assert_eq!(
            cache.get(&2),
            Some(CacheLookupSuccess::Hit(String::from("AAAAAAAA")))
        );
    }
}

/// A source that counts its retrievals; a held value is always valid.
struct CountingSource {
    retrievals: std::rc::Rc<Cell<u64>>,
}

impl SourceOfRecord<u64, u64> for CountingSource {
    fn retrieve(&self, _key: &u64) -> Option<u64> {
        self.retrievals.set(self.retrievals.get() + 1);
        Some(42)
    }

    fn retrieve_with_hint(&self, key: &u64, _current: &u64) -> Option<u64> {
        self.retrieve(key)
    }

    fn is_valid(&self, _key: &u64, _value: &u64) -> bool {
        true
    }
}

#[test]
fn pull_hit_does_not_contact_source() {
    let retrievals = std::rc::Rc::new(Cell::new(0));
    let source = CountingSource { retrievals: retrievals.clone() };
    let mut cache = PullCacheHydrator::new(MemoryStore::new(), source);
    assert_eq!(cache.get(&1), Some(CacheLookupSuccess::Miss(42)));
    assert_eq!(retrievals.get(), 1);
    // A valid stored value hits without any further retrieval.
    assert_eq!(cache.get(&1), Some(CacheLookupSuccess::Hit(42)));
    assert_eq!(cache.get(&1), Some(CacheLookupSuccess::Hit(42)));
    assert_eq!(retrievals.get(), 1);
}

#[test]
fn pull_flush_forgets_everything() {
    let mut cache = PullCacheHydrator::new(MemoryStore::new(), basic_source());
    assert_eq!(
        cache.get(&1),
        Some(CacheLookupSuccess::Miss(String::from("AAAA")))
    );
    cache.flush();
    assert_eq!(
        cache.get(&1),
        Some(CacheLookupSuccess::Miss(String::from("AAAA")))
    );
}
