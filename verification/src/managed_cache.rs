//! The outer policy gate around a hydration strategy.
//!
//! A `Stale` lookup means the stored value is invalid and the source could
//! not replace it. Whether that counts as a success (best-effort answer) or
//! a failure is a policy decision, configured per cache through
//! [`InvalidCacheEntryBehavior`].

use vstd::prelude::*;

use crate::hydration::{get_transition, CacheHydrationStrategy, CacheLookupSuccess};
use crate::keys::{CacheKey, CacheValue};

verus! {

/// Why a lookup produced no value.
#[derive(Debug, Eq, PartialEq)]
pub enum CacheLookupFailure {
    /// Neither the store nor the source of record had a value for the key.
    NotFound,
    /// The stored value is invalid, the source could not replace it, and the
    /// cache is configured not to return stale values.
    NotValid,
}

/// What to do when only an invalid (stale) value is available.
#[derive(Clone, Copy, Debug, Eq, PartialEq)]
pub enum InvalidCacheEntryBehavior {
    /// No valid value could be fetched: fail the lookup.
    ReturnNotValid,
    /// Value isn't in a valid state, but is returned anyway as a best effort.
    ReturnStale,
}

/// A cache handle that applies the stale-value policy on top of a hydration
/// strategy.
pub struct ManagedCache<Key, Value, H> {
    hydrator: H,
    when_invalid: InvalidCacheEntryBehavior,
    marker: core::marker::PhantomData<(Key, Value)>,
}

impl<Key: CacheKey, Value: CacheValue, H: CacheHydrationStrategy<Key, Value>> ManagedCache<
    Key,
    Value,
    H,
> {
    /// The entries currently held by the underlying store.
    pub closed spec fn contents(&self) -> Map<Key::V, Value::V> {
        self.hydrator.contents()
    }

    /// Well-formedness of the underlying strategy.
    pub closed spec fn inv(&self) -> bool {
        self.hydrator.inv()
    }

    /// Whether the source of record considers `v` still valid for `k`.
    pub closed spec fn valid_entry(&self, k: Key::V, v: Value::V) -> bool {
        self.hydrator.valid_entry(k, v)
    }

    /// The configured stale-value policy.
    pub closed spec fn policy(&self) -> InvalidCacheEntryBehavior {
        self.when_invalid
    }

    /// A cache applying `when_invalid` on top of `hydrator`.
    pub fn new(hydrator: H, when_invalid: InvalidCacheEntryBehavior) -> (r: Self)
        requires
            hydrator.inv(),
        ensures
            r.inv(),
            r.contents() == hydrator.contents(),
            r.policy() == when_invalid,
            forall|k: Key::V, v: Value::V|
                #![trigger r.valid_entry(k, v)]
                r.valid_entry(k, v) == hydrator.valid_entry(k, v),
    {
        ManagedCache { hydrator, when_invalid, marker: core::marker::PhantomData }
    }

    /// Looks up `key` through the hydration strategy and applies the
    /// stale-value policy: a `Stale` outcome is passed through only under
    /// `ReturnStale`, and otherwise becomes `Err(NotValid)`; a failed lookup
    /// becomes `Err(NotFound)`.
    pub fn get(&mut self, key: &Key) -> (r: Result<CacheLookupSuccess<Value>, CacheLookupFailure>)
        requires
            old(self).inv(),
        ensures
            final(self).inv(),
            final(self).policy() == old(self).policy(),
            forall|k: Key::V, v: Value::V|
                #![trigger final(self).valid_entry(k, v)]
                final(self).valid_entry(k, v) == old(self).valid_entry(k, v),
            r matches Ok(x) ==> get_transition(
                old(self).contents(),
                key@,
                old(self).valid_entry(key@, old(self).contents()[key@]),
                Some(x@),
                final(self).contents(),
            ) && (x is Stale ==> old(self).policy() == InvalidCacheEntryBehavior::ReturnStale),
            r == Err::<CacheLookupSuccess<Value>, _>(CacheLookupFailure::NotFound) ==> !old(
                self,
            ).contents().dom().contains(key@) && final(self).contents() == old(self).contents(),
            r == Err::<CacheLookupSuccess<Value>, _>(CacheLookupFailure::NotValid) ==> old(
                self,
            ).policy() == InvalidCacheEntryBehavior::ReturnNotValid && old(
                self,
            ).contents().dom().contains(key@) && !old(self).valid_entry(
                key@,
                old(self).contents()[key@],
            ) && final(self).contents() == old(self).contents(),
    {
        match self.hydrator.get(key) {
            None => Err(CacheLookupFailure::NotFound),
            Some(lookup_result) => match lookup_result {
                CacheLookupSuccess::Stale(v) => match self.when_invalid {
                    InvalidCacheEntryBehavior::ReturnStale => Ok(CacheLookupSuccess::Stale(v)),
                    InvalidCacheEntryBehavior::ReturnNotValid => Err(CacheLookupFailure::NotValid),
                },
                other => Ok(other),
            },
        }
    }

    /// Clears the underlying store.
    pub fn flush(&mut self)
        requires
            old(self).inv(),
        ensures
            final(self).inv(),
            final(self).policy() == old(self).policy(),
            forall|k: Key::V, v: Value::V|
                #![trigger final(self).valid_entry(k, v)]
                final(self).valid_entry(k, v) == old(self).valid_entry(k, v),
            final(self).contents() == Map::<Key::V, Value::V>::empty(),
    {
        self.hydrator.flush();
    }

    /// Indicates that a given key is no longer relevant and can be purged:
    /// for example, a client session ends or a machine is deallocated. This
    /// is not a cache-invalidation mechanism: a purged key hydrates from
    /// scratch on its next lookup.
    pub fn stop_tracking(&mut self, key: &Key)
        requires
            old(self).inv(),
        ensures
            final(self).inv(),
            final(self).policy() == old(self).policy(),
            forall|k: Key::V, v: Value::V|
                #![trigger final(self).valid_entry(k, v)]
                final(self).valid_entry(k, v) == old(self).valid_entry(k, v),
            final(self).contents() == old(self).contents().remove(key@),
    {
        self.hydrator.stop_tracking(key);
    }
}

} // verus!
