//! The key/value persistence contract that every cache store satisfies.
//!
//! A store's abstract state is a map from key views to value views
//! ([`CacheStoreStrategy::contents`]). `get` may have tracking side effects
//! (a replacement layer bumps recency) but never changes the contents; `peek`
//! is side-effect-free by construction. A bounded store may evict entries on
//! `put`, which is why the general `put` contract is [`crate::hydration::put_effect`];
//! stores whose `put` is an exact insertion say so through
//! [`CacheStoreStrategy::exact_puts`].

pub mod memory;
pub mod replacement;

use vstd::prelude::*;

use crate::hydration::put_effect;
use crate::keys::{CacheKey, CacheValue};

verus! {

/// The views of a sequence of keys.
pub open spec fn key_views<Key: View>(s: Seq<Key>) -> Seq<Key::V> {
    s.map_values(|k: Key| k@)
}

/// A key/value persistence strategy with a map of key views to value views as
/// its abstract state.
pub trait CacheStoreStrategy<Key: CacheKey, Value: CacheValue>: Sized {
    /// The entries the store currently holds.
    open spec fn contents(&self) -> Map<Key::V, Value::V> {
        Map::empty()
    }

    /// Well-formedness of the store's state; established by constructors and
    /// preserved by every operation. An implementation that leaves this at
    /// its default can never be called from verified code.
    open spec fn inv(&self) -> bool {
        false
    }

    /// Whether this store's `put` is an exact insertion, never evicting other
    /// entries. A replacement layer must wrap a store for which this holds,
    /// so that its own bookkeeping stays authoritative.
    open spec fn exact_puts() -> bool {
        false
    }

    /// A platform read of a value. When replacement strategies are layered on
    /// top, reads have side effects that update usage tracking, so the store
    /// takes `&mut self`; the contents themselves never change.
    fn get(&mut self, key: &Key) -> (r: Option<Value>)
        requires
            old(self).inv(),
        ensures
            final(self).inv(),
            final(self).contents() == old(self).contents(),
            r matches Some(v) ==> old(self).contents().dom().contains(key@) && v@ == old(self).contents()[key@],
            r is None ==> !old(self).contents().dom().contains(key@),
    ;

    /// Inspects the stored value without any side effect, so that a layer
    /// performing maintenance reads does not skew usage tracking.
    fn peek(&self, key: &Key) -> (r: Option<Value>)
        requires
            self.inv(),
        ensures
            r matches Some(v) ==> self.contents().dom().contains(key@) && v@
                == self.contents()[key@],
            r is None ==> !self.contents().dom().contains(key@),
    ;

    /// Stores `value` under `key`, replacing any previous value. A bounded
    /// store may evict other entries to make room; the inserted entry itself
    /// always survives.
    fn put(&mut self, key: &Key, value: Value)
        requires
            old(self).inv(),
        ensures
            final(self).inv(),
            put_effect(old(self).contents(), key@, value@, final(self).contents()),
            Self::exact_puts() ==> final(self).contents() == old(self).contents().insert(
                key@,
                value@,
            ),
    ;

    /// Removes the entry under `key`, reporting whether one was removed.
    fn delete(&mut self, key: &Key) -> (r: bool)
        requires
            old(self).inv(),
        ensures
            final(self).inv(),
            final(self).contents() == old(self).contents().remove(key@),
            r == old(self).contents().dom().contains(key@),
    ;

    /// Removes every entry.
    fn flush(&mut self)
        requires
            old(self).inv(),
        ensures
            final(self).inv(),
            final(self).contents() == Map::<Key::V, Value::V>::empty(),
    ;

    /// A snapshot of the currently stored keys, in no promised order.
    fn get_keys(&self) -> (r: Vec<Key>)
        requires
            self.inv(),
        ensures
            key_views(r@).no_duplicates(),
            forall|j: int|
                0 <= j < r@.len() ==> self.contents().dom().contains(#[trigger] key_views(r@)[j]),
            forall|kv: Key::V|
                #[trigger] self.contents().dom().contains(kv) ==> key_views(r@).contains(kv),
    ;

    /// Membership test for `key`.
    fn contains(&self, key: &Key) -> (r: bool)
        requires
            self.inv(),
        ensures
            r == self.contents().dom().contains(key@),
    ;
}

} // verus!
