//! The verified core of polling-based (background, periodic) hydration.
//!
//! A polling strategy re-validates every tracked key proactively: it
//! snapshots the key set, peeks each key's current value, asks the source of
//! record for a replacement, and writes the replacement back only if the key
//! is still present — a delete that happened during the retrieval must be
//! respected. The pieces here are the decisions of that loop, verified
//! against the store contract; the thread, the lock juggling and the timer
//! around them are ordinary plumbing that a host binary supplies.

use vstd::prelude::*;

use crate::hydration::put_effect;
use crate::keys::{CacheKey, CacheValue};
use crate::source_of_record::SourceOfRecord;
use crate::store::CacheStoreStrategy;

verus! {

/// Why a polling strategy could not be constructed.
#[derive(Debug, Eq, PartialEq)]
pub enum PollHydrationError {
    /// The polling interval does not validate to a positive, representable
    /// number of milliseconds.
    IntervalRangeError(String),
}

/// Validates a polling interval given in milliseconds: it must be positive
/// and representable in 64 bits. Construction of a polling strategy fails
/// fast on an invalid interval; it is never a runtime error.
pub fn check_polling_interval(millis: u128) -> (r: Result<u64, PollHydrationError>)
    ensures
        1 <= millis <= u64::MAX <==> (r matches Ok(m) && m == millis),
        r is Err <==> millis == 0 || millis > u64::MAX,
{
    if millis == 0 || millis > u64::MAX as u128 {
        Err(PollHydrationError::IntervalRangeError(
            "polling interval must be positive and fit in 64 bits of milliseconds".to_owned(),
        ))
    } else {
        Ok(millis as u64)
    }
}

/// Writes `value` back under `key` only if the key is still present,
/// respecting a delete that happened while the value was being retrieved.
/// Reports whether it wrote.
pub fn write_back_if_present<Key, Value, S>(store: &mut S, key: &Key, value: Value) -> (wrote:
    bool) where Key: CacheKey, Value: CacheValue, S: CacheStoreStrategy<Key, Value>,
    requires
        old(store).inv(),
    ensures
        final(store).inv(),
        old(store).contents().dom().contains(key@) ==> wrote && put_effect(
            old(store).contents(),
            key@,
            value@,
            final(store).contents(),
        ),
        !old(store).contents().dom().contains(key@) ==> !wrote && final(store).contents() == old(
            store,
        ).contents(),
        S::exact_puts() && old(store).contents().dom().contains(key@) ==> final(store).contents()
            == old(store).contents().insert(key@, value@),
{
    if store.contains(key) {
        store.put(key, value);
        true
    } else {
        false
    }
}

/// One step of the background sweep: peek the current value of `key`; if the
/// key was deleted since the key set was snapshotted, do nothing (no
/// superfluous retrieve); otherwise ask the source for a replacement, and
/// write one back only if the key is still present. Returns the value the
/// source supplied, if any.
pub fn sweep_key<Key, Value, S, D>(store: &mut S, source: &D, key: &Key) -> (r: Option<
    Value,
>) where
    Key: CacheKey,
    Value: CacheValue,
    S: CacheStoreStrategy<Key, Value>,
    D: SourceOfRecord<Key, Value>,

    requires
        old(store).inv(),
    ensures
        final(store).inv(),
        r is None ==> final(store).contents() == old(store).contents(),
        r matches Some(v) ==> old(store).contents().dom().contains(key@) && put_effect(
            old(store).contents(),
            key@,
            v@,
            final(store).contents(),
        ) && (S::exact_puts() ==> final(store).contents() == old(store).contents().insert(
            key@,
            v@,
        )),
{
    match store.peek(key) {
        None => None,
        Some(current) => match source.retrieve_with_hint(key, &current) {
            None => None,
            Some(fresh) => {
                let copy = fresh.duplicate_value();
                let _wrote = write_back_if_present(store, key, copy);
                Some(fresh)
            },
        },
    }
}

/// One full sweep over a snapshot of the store's keys, re-validating each in
/// turn. A sweep never adds an entry; over a store whose `put` is an exact
/// insertion it leaves the key set exactly as it found it, only values
/// change.
pub fn sweep<Key, Value, S, D>(store: &mut S, source: &D) where
    Key: CacheKey,
    Value: CacheValue,
    S: CacheStoreStrategy<Key, Value>,
    D: SourceOfRecord<Key, Value>,

    requires
        old(store).inv(),
    ensures
        final(store).inv(),
        final(store).contents().dom().subset_of(old(store).contents().dom()),
        S::exact_puts() ==> final(store).contents().dom() == old(store).contents().dom(),
{
    let ghost d0 = store.contents().dom();
    let keys = store.get_keys();
    let mut i: usize = 0;
    while i < keys.len()
        invariant
            store.inv(),
            store.contents().dom().subset_of(d0),
            S::exact_puts() ==> store.contents().dom() == d0,
        decreases keys@.len() - i,
    {
        let key = &keys[i];
        let ghost pre = store.contents();
        let updated = sweep_key(store, source, key);
        proof {
            if updated is Some {
                assert(store.contents().dom().subset_of(pre.dom()));
                if S::exact_puts() {
                    assert(store.contents().dom() =~= pre.dom());
                }
            }
        }
        i = i + 1;
    }
}

} // verus!
