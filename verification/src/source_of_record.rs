//! The contract of the authoritative source of values.
//!
//! A source of record can produce the canonical value for a key
//! (`retrieve`), possibly taking the currently held value as an optimization
//! hint (`retrieve_with_hint`), and can judge whether a held value is still
//! valid without refetching it (`is_valid`).
//!
//! Retrieval is deliberately unspecified: a source may be unreachable, may
//! have forgotten a key, or may answer differently on every call. Validity,
//! in contrast, is a judgement about a key/value pair and is described by the
//! spec function [`SourceOfRecord::spec_valid`], so that a caching layer can
//! state exactly when it returns a `Hit`.

use vstd::prelude::*;

use crate::keys::{CacheKey, CacheValue};

verus! {

/// The authority that produces canonical values and judges freshness.
pub trait SourceOfRecord<Key: CacheKey, Value: CacheValue>: Sized {
    /// Whether this source considers `v` a still-valid value for `k`. An
    /// implementation that leaves this at its default judges nothing valid,
    /// so nothing can be concluded of its `is_valid`.
    open spec fn spec_valid(&self, k: Key::V, v: Value::V) -> bool {
        false
    }

    /// Fetches the canonical value for `key`; `None` when the source has no
    /// value to offer (unknown key, failure, ...).
    fn retrieve(&self, key: &Key) -> (r: Option<Value>);

    /// Accepts the current value, if one exists, in case it can be used for
    /// an optimized load; for example an HTTP source receiving a 304 response
    /// can replay the current value. The default ignores the hint.
    fn retrieve_with_hint(&self, key: &Key, _current_value: &Value) -> (r: Option<Value>) {
        self.retrieve(key)
    }

    /// Decides whether `value` is still valid for `key`, without refetching.
    fn is_valid(&self, key: &Key, value: &Value) -> (r: bool)
        ensures
            r == self.spec_valid(key@, value@),
    ;
}

} // verus!
