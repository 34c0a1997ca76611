//! Pull-based (on-demand, synchronous) hydration: all work happens on the
//! caller's thread during `get`.

use vstd::prelude::*;

use crate::hydration::{
    get_transition, lookup_view, CacheHydrationStrategy, CacheLookupSuccess, StoreResult,
};
use crate::keys::{CacheKey, CacheValue};
use crate::source_of_record::SourceOfRecord;
use crate::store::CacheStoreStrategy;

verus! {

/// One synchronous hydrating lookup of `key`: consult the store; on a hit
/// validate against the source and refresh only when invalid; on a miss fetch
/// from the source and persist what it offers.
pub fn hydrate_get<Key, Value, S, D>(store: &mut S, source: &D, key: &Key) -> (r: Option<
    CacheLookupSuccess<Value>,
>) where
    Key: CacheKey,
    Value: CacheValue,
    S: CacheStoreStrategy<Key, Value>,
    D: SourceOfRecord<Key, Value>,

    requires
        old(store).inv(),
    ensures
        final(store).inv(),
        get_transition(
            old(store).contents(),
            key@,
            source.spec_valid(key@, old(store).contents()[key@]),
            lookup_view(r),
            final(store).contents(),
        ),
{
    match store.get(key) {
        Some(value) => {
            if source.is_valid(key, &value) {
                Some(CacheLookupSuccess::new(StoreResult::Valid, false, value))
            } else {
                match source.retrieve_with_hint(key, &value) {
                    Some(new_value) => {
                        store.put(key, new_value.duplicate_value());
                        Some(CacheLookupSuccess::new(StoreResult::Invalid, true, new_value))
                    },
                    None => Some(CacheLookupSuccess::new(StoreResult::Invalid, false, value)),
                }
            }
        },
        None => match source.retrieve(key) {
            Some(value) => {
                store.put(key, value.duplicate_value());
                Some(CacheLookupSuccess::new(StoreResult::NotFound, true, value))
            },
            None => None,
        },
    }
}

/// The pull hydration strategy: a store and a source of record consulted
/// synchronously on every lookup.
pub struct PullCacheHydrator<Key, Value, S, D> {
    store: S,
    data_source: D,
    marker: core::marker::PhantomData<(Key, Value)>,
}

impl<
    Key: CacheKey,
    Value: CacheValue,
    S: CacheStoreStrategy<Key, Value>,
    D: SourceOfRecord<Key, Value>,
> PullCacheHydrator<Key, Value, S, D> {
    /// A pull hydrator over `store` and `data_source`.
    pub fn new(store: S, data_source: D) -> (r: Self)
        requires
            store.inv(),
        ensures
            r.inv(),
            r.contents() == store.contents(),
            forall|k: Key::V, v: Value::V|
                #![trigger r.valid_entry(k, v)]
                r.valid_entry(k, v) == data_source.spec_valid(k, v),
    {
        PullCacheHydrator { store, data_source, marker: core::marker::PhantomData }
    }
}

impl<
    Key: CacheKey,
    Value: CacheValue,
    S: CacheStoreStrategy<Key, Value>,
    D: SourceOfRecord<Key, Value>,
> CacheHydrationStrategy<Key, Value> for PullCacheHydrator<Key, Value, S, D> {
    closed spec fn contents(&self) -> Map<Key::V, Value::V> {
        self.store.contents()
    }

    closed spec fn inv(&self) -> bool {
        self.store.inv()
    }

    closed spec fn valid_entry(&self, k: Key::V, v: Value::V) -> bool {
        self.data_source.spec_valid(k, v)
    }

    fn get(&mut self, key: &Key) -> (r: Option<CacheLookupSuccess<Value>>) {
        hydrate_get(&mut self.store, &self.data_source, key)
    }

    fn flush(&mut self) {
        self.store.flush();
    }

    /// Deletes the key from the store.
    fn stop_tracking(&mut self, key: &Key) {
        let _deleted = self.store.delete(key);
    }
}

} // verus!
