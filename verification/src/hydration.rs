//! Classification of cache lookups and the hydration-strategy interface.
//!
//! Every successful lookup is classified by where its value came from: straight
//! from the source of record (`Miss`), from the store after a refresh
//! (`Refresh`), from the store although the source could not replace an
//! invalid value (`Stale`), or from the store while still valid (`Hit`).
//!
//! The spec function [`get_transition`] is the abstract state machine of a
//! hydrating lookup: it relates the store contents before the call, the
//! validity of the stored value, the classified outcome, and the store
//! contents after the call. Every hydration strategy's `get` is proved to
//! follow it.

pub mod polling;
pub mod pull;

use vstd::prelude::*;

use crate::keys::{CacheKey, CacheValue};

verus! {

/// The four ways a cache lookup can succeed.
#[derive(Debug, Eq, PartialEq)]
pub enum CacheLookupSuccess<Value> {
    /// Value was not present in the underlying store and had to be fetched
    /// from the source of record.
    Miss(Value),
    /// Value was found in the underlying store, but had to be refreshed from
    /// the source of record.
    Refresh(Value),
    /// Stale value was found in the underlying store, and a fresh value could
    /// not be fetched from the source of record.
    Stale(Value),
    /// Valid value found in the underlying store.
    Hit(Value),
}

impl<Value: View> View for CacheLookupSuccess<Value> {
    type V = CacheLookupSuccess<Value::V>;

    open spec fn view(&self) -> CacheLookupSuccess<Value::V> {
        match self {
            CacheLookupSuccess::Miss(v) => CacheLookupSuccess::Miss(v@),
            CacheLookupSuccess::Refresh(v) => CacheLookupSuccess::Refresh(v@),
            CacheLookupSuccess::Stale(v) => CacheLookupSuccess::Stale(v@),
            CacheLookupSuccess::Hit(v) => CacheLookupSuccess::Hit(v@),
        }
    }
}

/// What the store held for a key, as judged by the source of record.
pub enum StoreResult {
    /// Valid value found in the store for the corresponding key.
    Valid,
    /// No value found in the store for the corresponding key.
    NotFound,
    /// Invalid value found in the store for the corresponding key.
    Invalid,
}

/// The classification rule: given what the store held (`store_result`) and
/// whether a fresh value was successfully obtained this call (`hydrated`),
/// name the outcome carrying `value`.
pub open spec fn spec_classify<Value>(
    store_result: StoreResult,
    hydrated: bool,
    value: Value,
) -> CacheLookupSuccess<Value> {
    match store_result {
        StoreResult::NotFound => CacheLookupSuccess::Miss(value),
        StoreResult::Valid => CacheLookupSuccess::Hit(value),
        StoreResult::Invalid => if hydrated {
            CacheLookupSuccess::Refresh(value)
        } else {
            CacheLookupSuccess::Stale(value)
        },
    }
}

impl<Value> CacheLookupSuccess<Value> {
    /// Classifies a lookup outcome. `store_result` says what the store held,
    /// `hydrated` whether a fresh value was obtained from the source this
    /// call, and `value` is the concrete value the outcome carries.
    pub fn new(store_result: StoreResult, hydrated: bool, value: Value) -> (r: Self)
        ensures
            r == spec_classify(store_result, hydrated, value),
    {
        match store_result {
            StoreResult::Invalid => {
                if hydrated {
                    CacheLookupSuccess::Refresh(value)
                } else {
                    CacheLookupSuccess::Stale(value)
                }
            },
            StoreResult::NotFound => CacheLookupSuccess::Miss(value),
            StoreResult::Valid => CacheLookupSuccess::Hit(value),
        }
    }
}

/// The view of an optional lookup outcome.
pub open spec fn lookup_view<Value: View>(r: Option<CacheLookupSuccess<Value>>) -> Option<
    CacheLookupSuccess<Value::V>,
> {
    match r {
        Some(x) => Some(x@),
        None => None,
    }
}

/// How a `put` of `v` under `k` may change a store's contents: `k` now maps to
/// `v`, and every other surviving entry is unchanged. A bounded store may
/// additionally have evicted entries, so the domain may shrink; it never gains
/// a key other than `k`.
pub open spec fn put_effect<KV, VV>(pre: Map<KV, VV>, k: KV, v: VV, post: Map<KV, VV>) -> bool {
    &&& post.dom().contains(k)
    &&& post[k] == v
    &&& forall|k2: KV|
        post.dom().contains(k2) && k2 != k ==> #[trigger] pre.dom().contains(k2) && post[k2]
            == pre[k2]
}

/// The abstract state machine of one hydrating lookup of `k`.
///
/// `pre` and `post` are the store contents before and after the call, `valid`
/// says whether the source of record considered the stored value `pre[k]`
/// still valid, and `r` is the classified outcome. The relation pins the
/// outcome exactly: the only freedom left is the source's own — whether it
/// could produce a value when one was asked for.
pub open spec fn get_transition<KV, VV>(
    pre: Map<KV, VV>,
    k: KV,
    valid: bool,
    r: Option<CacheLookupSuccess<VV>>,
    post: Map<KV, VV>,
) -> bool {
    match r {
        None => !pre.dom().contains(k) && post == pre,
        Some(CacheLookupSuccess::Miss(v)) => !pre.dom().contains(k) && put_effect(pre, k, v, post),
        Some(CacheLookupSuccess::Hit(v)) => pre.dom().contains(k) && valid && v == pre[k] && post
            == pre,
        Some(CacheLookupSuccess::Stale(v)) => pre.dom().contains(k) && !valid && v == pre[k]
            && post == pre,
        Some(CacheLookupSuccess::Refresh(v)) => pre.dom().contains(k) && !valid && put_effect(
            pre,
            k,
            v,
            post,
        ),
    }
}

/// A lookup of a key the store does not hold can only fail (when the source
/// had nothing, leaving the store unchanged) or yield `Miss`, after which the
/// store holds exactly the missed value under that key. In particular, the
/// first lookup of a never-seen key that the source can supply yields `Miss`
/// and leaves the store containing that key.
pub proof fn lemma_lookup_of_absent_key<KV, VV>(
    pre: Map<KV, VV>,
    k: KV,
    valid: bool,
    r: Option<CacheLookupSuccess<VV>>,
    post: Map<KV, VV>,
)
    requires
        !pre.dom().contains(k),
        get_transition(pre, k, valid, r, post),
    ensures
        r matches Some(x) ==> (x matches CacheLookupSuccess::Miss(v) && post.dom().contains(k)
            && post[k] == v),
        r is None ==> post == pre,
{
}

/// A lookup of a key whose stored value is still valid yields `Hit` with
/// exactly the stored value and changes nothing — the source of record is
/// never asked for a replacement, since the transition forbids any other
/// outcome and any other final store.
pub proof fn lemma_lookup_of_valid_entry<KV, VV>(
    pre: Map<KV, VV>,
    k: KV,
    r: Option<CacheLookupSuccess<VV>>,
    post: Map<KV, VV>,
)
    requires
        pre.dom().contains(k),
        get_transition(pre, k, true, r, post),
    ensures
        r == Some(CacheLookupSuccess::Hit(pre[k])),
        post == pre,
{
}

/// A lookup of a key whose stored value is invalid always succeeds, in one of
/// two ways. If the source could refresh, the outcome is `Refresh` carrying
/// the new value and the store subsequently holds that value under the key.
/// If the source had nothing, the outcome is `Stale` carrying the old value
/// and the store is unchanged.
pub proof fn lemma_lookup_of_invalid_entry<KV, VV>(
    pre: Map<KV, VV>,
    k: KV,
    r: Option<CacheLookupSuccess<VV>>,
    post: Map<KV, VV>,
)
    requires
        pre.dom().contains(k),
        get_transition(pre, k, false, r, post),
    ensures
        r is Some,
        r matches Some(x) ==> (x is Refresh || x is Stale),
        r matches Some(x) ==> (x matches CacheLookupSuccess::Refresh(v) ==> post.dom().contains(k)
            && post[k] == v),
        r matches Some(x) ==> (x matches CacheLookupSuccess::Stale(v) ==> v == pre[k] && post
            == pre),
{
}

/// After a key stops being tracked, a lookup of it behaves identically to a
/// lookup of a key that was never seen: whatever the store held before, the
/// lookup can only yield `Miss` (when the source still has the key) or fail.
pub proof fn lemma_stop_tracking_resets<KV, VV>(
    pre: Map<KV, VV>,
    k: KV,
    valid: bool,
    r: Option<CacheLookupSuccess<VV>>,
    post: Map<KV, VV>,
)
    requires
        get_transition(pre.remove(k), k, valid, r, post),
    ensures
        r matches Some(x) ==> (x matches CacheLookupSuccess::Miss(v) && post.dom().contains(k)
            && post[k] == v),
        r is None ==> post == pre.remove(k),
{
    lemma_lookup_of_absent_key(pre.remove(k), k, valid, r, post);
}

/// Idempotence: two successive lookups of an unchanging, valid entry both
/// yield `Hit` with the identical value, and leave the store as it was.
pub proof fn lemma_lookup_idempotent_on_valid_entry<KV, VV>(
    pre: Map<KV, VV>,
    k: KV,
    r1: Option<CacheLookupSuccess<VV>>,
    mid: Map<KV, VV>,
    r2: Option<CacheLookupSuccess<VV>>,
    post: Map<KV, VV>,
)
    requires
        pre.dom().contains(k),
        get_transition(pre, k, true, r1, mid),
        get_transition(mid, k, true, r2, post),
    ensures
        r1 == Some(CacheLookupSuccess::Hit(pre[k])),
        r2 == r1,
        post == pre,
{
}

/// A hydration strategy: a policy for answering `get` by consulting a store
/// and the source of record, classifying every lookup as it goes.
pub trait CacheHydrationStrategy<Key: CacheKey, Value: CacheValue>: Sized {
    /// The entries currently held by the strategy's store.
    open spec fn contents(&self) -> Map<Key::V, Value::V> {
        Map::empty()
    }

    /// Well-formedness of the strategy's state. An implementation that
    /// leaves this at its default can never be called from verified code.
    open spec fn inv(&self) -> bool {
        false
    }

    /// Whether the strategy's source of record considers `v` a still-valid
    /// value for `k`.
    open spec fn valid_entry(&self, k: Key::V, v: Value::V) -> bool {
        false
    }

    /// Looks up `key`, hydrating from the source of record as needed, and
    /// classifies the outcome. Returns `None` when the key is neither stored
    /// nor known to the source.
    fn get(&mut self, key: &Key) -> (r: Option<CacheLookupSuccess<Value>>)
        requires
            old(self).inv(),
        ensures
            final(self).inv(),
            forall|k: Key::V, v: Value::V|
                #![trigger final(self).valid_entry(k, v)]
                final(self).valid_entry(k, v) == old(self).valid_entry(k, v),
            get_transition(
                old(self).contents(),
                key@,
                old(self).valid_entry(key@, old(self).contents()[key@]),
                lookup_view(r),
                final(self).contents(),
            ),
    ;

    /// Clears every entry of the strategy's store.
    fn flush(&mut self)
        requires
            old(self).inv(),
        ensures
            final(self).inv(),
            forall|k: Key::V, v: Value::V|
                #![trigger final(self).valid_entry(k, v)]
                final(self).valid_entry(k, v) == old(self).valid_entry(k, v),
            final(self).contents() == Map::<Key::V, Value::V>::empty(),
    ;

    /// Indicates that a given key is no longer relevant and can be purged,
    /// for example when a client session ends.
    fn stop_tracking(&mut self, key: &Key)
        requires
            old(self).inv(),
        ensures
            final(self).inv(),
            forall|k: Key::V, v: Value::V|
                #![trigger final(self).valid_entry(k, v)]
                final(self).valid_entry(k, v) == old(self).valid_entry(k, v),
            final(self).contents() == old(self).contents().remove(key@),
    ;
}

} // verus!
