use std::cell::Cell;

use managed_cache::hydration::polling::{
    check_polling_interval, sweep, sweep_key, write_back_if_present, PollHydrationError,
};
use managed_cache::hydration::pull::hydrate_get;
use managed_cache::hydration::CacheLookupSuccess;
use managed_cache::source_of_record::SourceOfRecord;
use managed_cache::store::memory::MemoryStore;
use managed_cache::store::CacheStoreStrategy;

/// A source that hands out an incrementing counter and never considers a
/// held value valid.
struct IncrementingSource {
    value: Cell<u64>,
}

impl IncrementingSource {
    fn new() -> Self {
        IncrementingSource { value: Cell::new(0) }
    }
}

impl SourceOfRecord<String, u64> for IncrementingSource {
    fn retrieve(&self, _key: &String) -> Option<u64> {
        let v = self.value.get();
        self.value.set(v + 1);
        Some(v)
    }

    fn is_valid(&self, _key: &String, _value: &u64) -> bool {
        false
    }
}

#[test]
fn interval_validation_accepts_positive_representable() {
    assert_eq!(check_polling_interval(1), Ok(1));
    assert_eq!(check_polling_interval(1000), Ok(1000));
    assert_eq!(check_polling_interval(u64::MAX as u128), Ok(u64::MAX));
}

#[test]
fn interval_validation_rejects_zero_and_overflow() {
    assert!(matches!(
        check_polling_interval(0),
        Err(PollHydrationError::IntervalRangeError(_))
    ));
    assert!(matches!(
        check_polling_interval(u64::MAX as u128 + 1),
        Err(PollHydrationError::IntervalRangeError(_))
    ));
}

#[test]
fn write_back_respects_deletion() {
    let mut store: MemoryStore<u64, u64> = MemoryStore::new();
    store.put(&1, 10);
    // Present: the write goes through.
    assert!(write_back_if_present(&mut store, &1, 11));
    assert_eq!(store.peek(&1), Some(11));
    // Deleted while the value was being fetched: the fetched value is
    // discarded.
    store.delete(&1);
    assert!(!write_back_if_present(&mut store, &1, 12));
    assert_eq!(store.peek(&1), None);
}

#[test]
fn sweep_key_skips_untracked_keys() {
    let mut store: MemoryStore<String, u64> = MemoryStore::new();
    let source = IncrementingSource::new();
    assert_eq!(sweep_key(&mut store, &source, &String::from("k")), None);
    // No superfluous retrieve was issued for the absent key.
    assert_eq!(source.value.get(), 0);
}

#[test]
fn sweep_key_refreshes_tracked_key() {
    let mut store: MemoryStore<String, u64> = MemoryStore::new();
    let source = IncrementingSource::new();
    store.put(&String::from("k"), 99);
    assert_eq!(sweep_key(&mut store, &source, &String::from("k")), Some(0));
    assert_eq!(store.peek(&String::from("k")), Some(0));
}

#[test]
fn sweep_advances_counter_between_foreground_gets() {
    // The polling scenario, one tick at a time: an incrementing,
    // never-valid source. The first lookup misses and stores 0; a background
    // sweep then refreshes the entry; the next lookup carries a strictly
    // greater counter value although no foreground call intervened.
    let mut store: MemoryStore<String, u64> = MemoryStore::new();
    let source = IncrementingSource::new();
    let key = String::from("asdf");
    assert_eq!(
        hydrate_get(&mut store, &source, &key),
        Some(CacheLookupSuccess::Miss(0))
    );
    sweep(&mut store, &source);
    assert_eq!(store.peek(&key), Some(1));
    let second = hydrate_get(&mut store, &source, &key);
    match second {
        Some(CacheLookupSuccess::Refresh(v)) | Some(CacheLookupSuccess::Stale(v)) => {
            assert!(v > 0);
        }
        other => panic!("expected Refresh or Stale, got {:?}", other),
    }
}
