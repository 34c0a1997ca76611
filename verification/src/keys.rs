//! Capability traits for the keys and values a cache can manage.
//!
//! A cache key is opaque to the cache itself: all the cache needs is a way to
//! decide whether two keys denote the same entry, and a way to copy a key into
//! its internal indices. Likewise a cache value only needs to be duplicable,
//! because the same value may be returned to the caller, written to a store,
//! and handed to the source of record independently.
//!
//! Both traits are stated against the mathematical view (`View`) of the type,
//! so every contract in this crate can speak of maps from key views to value
//! views.

use vstd::prelude::*;

verus! {

/// A type usable as a cache key: it can be compared for equality of its
/// abstract value and copied into internal indices.
pub trait CacheKey: View + Sized {
    /// Decides whether `self` and `other` denote the same key.
    fn same(&self, other: &Self) -> (r: bool)
        ensures
            r <==> self@ == other@,
    ;

    /// Copies the key, preserving its abstract value.
    fn duplicate_key(&self) -> (r: Self)
        ensures
            r@ == self@,
    ;
}

/// A type usable as a cache value: it can be copied, preserving its abstract
/// value.
pub trait CacheValue: View + Sized {
    /// Copies the value, preserving its abstract value.
    fn duplicate_value(&self) -> (r: Self)
        ensures
            r@ == self@,
    ;
}

impl CacheKey for u64 {
    fn same(&self, other: &Self) -> (r: bool)
        ensures
            r <==> self@ == other@,
    {
        *self == *other
    }

    fn duplicate_key(&self) -> (r: Self)
        ensures
            r@ == self@,
    {
        *self
    }
}

impl CacheKey for String {
    fn same(&self, other: &Self) -> (r: bool)
        ensures
            r <==> self@ == other@,
    {
        *self == *other
    }

    fn duplicate_key(&self) -> (r: Self)
        ensures
            r@ == self@,
    {
        self.clone()
    }
}

impl CacheValue for u64 {
    fn duplicate_value(&self) -> (r: Self)
        ensures
            r@ == self@,
    {
        *self
    }
}

impl CacheValue for String {
    fn duplicate_value(&self) -> (r: Self)
        ensures
            r@ == self@,
    {
        self.clone()
    }
}

} // verus!
