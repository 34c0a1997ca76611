//! The least-recently-used replacement layer.
//!
//! [`LruReplacementStrategy`] wraps any store whose `put` is an exact
//! insertion and adds a capacity bound with least-recently-used eviction. Its
//! auxiliary state is a recency index: a sequence of keys, most recently used
//! first, that always enumerates exactly the keys of the backing store.
//! Membership queries and key enumeration are answered from this in-memory
//! index, not from the backing store.
//!
//! The spec functions [`move_to_front`], [`lru_put_order`] and
//! [`lru_put_eviction`] describe how one operation rearranges the recency
//! index; the public lemmas at the end of the module state the replacement
//! policy's laws: filling a cache one key past its capacity evicts exactly
//! the first-inserted key, and touching the least-recently-used key first
//! saves it from the next eviction.

use vstd::prelude::*;

use crate::keys::{CacheKey, CacheValue};
use crate::store::{key_views, CacheStoreStrategy};

verus! {

/// The recency order after key `k` is used: `k` moves to (or enters at) the
/// front; everything else keeps its relative order.
pub open spec fn move_to_front<KV>(s: Seq<KV>, k: KV) -> Seq<KV> {
    seq![k] + s.remove_value(k)
}

/// The recency order after `k` is stored in a cache of capacity `cap`: `k`
/// moves to the front, and if the index then exceeds the capacity, the last
/// (least recently used) key leaves.
pub open spec fn lru_put_order<KV>(s: Seq<KV>, k: KV, cap: nat) -> Seq<KV> {
    let t = move_to_front(s, k);
    if t.len() > cap {
        t.drop_last()
    } else {
        t
    }
}

/// The key that storing `k` evicts, if any: the last key of the over-full
/// index.
pub open spec fn lru_put_eviction<KV>(s: Seq<KV>, k: KV, cap: nat) -> Option<KV> {
    let t = move_to_front(s, k);
    if t.len() > cap {
        Some(t.last())
    } else {
        None
    }
}

/// In a duplicate-free sequence, the first occurrence of `s[i]` is `i`.
proof fn lemma_first_occurrence<KV>(s: Seq<KV>, i: int)
    requires
        s.no_duplicates(),
        0 <= i < s.len(),
    ensures
        s.index_of_first(s[i]) == Some(i),
{
    s.index_of_first_ensures(s[i]);
    assert(s.contains(s[i]));
}

/// How `move_to_front` rearranges a duplicate-free sequence.
proof fn lemma_move_to_front_props<KV>(s: Seq<KV>, k: KV)
    requires
        s.no_duplicates(),
    ensures
        move_to_front(s, k).no_duplicates(),
        move_to_front(s, k).to_set() == s.to_set().insert(k),
        move_to_front(s, k).len() == if s.contains(k) {
            s.len()
        } else {
            s.len() + 1
        },
        move_to_front(s, k)[0] == k,
{
    s.index_of_first_ensures(k);
    let u = s.remove_value(k);
    let t = move_to_front(s, k);
    if s.contains(k) {
        let i = s.index_of_first(k).unwrap();
        s.remove_ensures(i);
        assert(forall|j: int| 0 <= j < u.len() ==> u[j] == if j < i {
            s[j]
        } else {
            s[j + 1]
        });
    }
    assert(u.no_duplicates());
    assert(!u.contains(k)) by {
        if u.contains(k) {
            let j = choose|j: int| 0 <= j < u.len() && u[j] == k;
            if s.contains(k) {
                let i = s.index_of_first(k).unwrap();
                assert(s[if j < i {
                    j
                } else {
                    j + 1
                }] == k);
            } else {
                assert(s[j] == k);
            }
        }
    }
    assert(t.no_duplicates()) by {
        assert forall|a: int, b: int| 0 <= a < b < t.len() implies t[a] != t[b] by {
            if a == 0 {
                assert(t[b] == u[b - 1]);
                if t[b] == k {
                    assert(u.contains(k));
                }
            } else {
                assert(t[a] == u[a - 1] && t[b] == u[b - 1]);
            }
        }
    }
    assert(t.to_set() =~= s.to_set().insert(k)) by {
        assert forall|x: KV| t.contains(x) implies (x == k || s.contains(x)) by {
            let j = choose|j: int| 0 <= j < t.len() && t[j] == x;
            if j > 0 {
                assert(u[j - 1] == x);
                if s.contains(k) {
                    let i = s.index_of_first(k).unwrap();
                    assert(s[if j - 1 < i {
                        j - 1
                    } else {
                        j
                    }] == x);
                }
            }
        }
        assert forall|x: KV| x == k || s.contains(x) implies t.contains(x) by {
            if x == k {
                assert(t[0] == x);
            } else {
                let j = choose|j: int| 0 <= j < s.len() && s[j] == x;
                if s.contains(k) {
                    let i = s.index_of_first(k).unwrap();
                    if j < i {
                        assert(t[j + 1] == u[j]);
                        assert(u[j] == x);
                    } else {
                        assert(j != i);
                        assert(t[j] == u[j - 1]);
                        assert(u[j - 1] == x);
                    }
                } else {
                    assert(t[j + 1] == x);
                }
            }
        }
    }
}

/// Dropping the last element of a duplicate-free sequence removes exactly
/// that element from its set of members.
proof fn lemma_drop_last_props<KV>(s: Seq<KV>)
    requires
        s.no_duplicates(),
        s.len() > 0,
    ensures
        s.drop_last().no_duplicates(),
        s.drop_last().to_set() == s.to_set().remove(s.last()),
        !s.drop_last().contains(s.last()),
{
    let u = s.drop_last();
    assert(!u.contains(s.last())) by {
        if u.contains(s.last()) {
            let j = choose|j: int| 0 <= j < u.len() && u[j] == s.last();
            assert(s[j] == s.last());
        }
    }
    assert(u.to_set() =~= s.to_set().remove(s.last())) by {
        assert forall|x: KV| u.contains(x) implies s.contains(x) && x != s.last() by {
            let j = choose|j: int| 0 <= j < u.len() && u[j] == x;
            assert(s[j] == x);
        }
        assert forall|x: KV| s.contains(x) && x != s.last() implies u.contains(x) by {
            let j = choose|j: int| 0 <= j < s.len() && s[j] == x;
            assert(u[j] == x);
        }
    }
}

/// Removing a value from a duplicate-free sequence removes exactly it from
/// the sequence's set of members.
proof fn lemma_remove_value_props<KV>(s: Seq<KV>, k: KV)
    requires
        s.no_duplicates(),
    ensures
        s.remove_value(k).no_duplicates(),
        !s.remove_value(k).contains(k),
        s.remove_value(k).to_set() == s.to_set().remove(k),
        s.contains(k) ==> s.remove_value(k).len() == s.len() - 1,
        !s.contains(k) ==> s.remove_value(k) == s,
{
    s.index_of_first_ensures(k);
    let u = s.remove_value(k);
    if s.contains(k) {
        let i = s.index_of_first(k).unwrap();
        s.remove_ensures(i);
        assert(forall|j: int| 0 <= j < u.len() ==> u[j] == if j < i {
            s[j]
        } else {
            s[j + 1]
        });
        assert(!u.contains(k)) by {
            if u.contains(k) {
                let j = choose|j: int| 0 <= j < u.len() && u[j] == k;
                assert(s[if j < i {
                    j
                } else {
                    j + 1
                }] == k);
            }
        }
        assert(u.to_set() =~= s.to_set().remove(k)) by {
            assert forall|x: KV| u.contains(x) implies s.contains(x) && x != k by {
                let j = choose|j: int| 0 <= j < u.len() && u[j] == x;
                assert(s[if j < i {
                    j
                } else {
                    j + 1
                }] == x);
            }
            assert forall|x: KV| s.contains(x) && x != k implies u.contains(x) by {
                let j = choose|j: int| 0 <= j < s.len() && s[j] == x;
                assert(j != i);
                if j < i {
                    assert(u[j] == x);
                } else {
                    assert(u[j - 1] == x);
                }
            }
        }
    } else {
        assert(u.to_set() =~= s.to_set().remove(k)) by {
            assert(!s.contains(k));
        }
    }
}

/// The least-recently-used replacement layer over a backing store.
///
/// The recency index held in memory is volatile: when a non-volatile backing
/// store is wrapped, the same data loads again, but the initial order is
/// whatever order the backing store enumerates its keys in. Recording usage
/// in the backing store instead would turn every read into a potentially
/// expensive write, so the volatile index is the better default.
pub struct LruReplacementStrategy<Key, Value, S> {
    store: S,
    usage_order: Vec<Key>,
    max_capacity: usize,
    value_marker: core::marker::PhantomData<Value>,
}

impl<Key: CacheKey, Value: CacheValue, S: CacheStoreStrategy<Key, Value>> LruReplacementStrategy<
    Key,
    Value,
    S,
> {
    /// The views of the tracked keys, most recently used first.
    pub closed spec fn recency(&self) -> Seq<Key::V> {
        key_views(self.usage_order@)
    }

    /// The capacity bound enforced after every `put`.
    pub closed spec fn capacity(&self) -> nat {
        self.max_capacity as nat
    }

    /// Wraps `store`, enforcing `max_capacity`. If the backing store already
    /// holds entries, the recency index is seeded by enumerating its keys:
    /// there is no recorded recency for pre-existing entries, so their
    /// initial order is whatever the backing store returns. Should the
    /// backing store hold more entries than the capacity allows, the excess
    /// is evicted here, in that same arbitrary order, so that the capacity
    /// bound holds from construction on.
    pub fn new(max_capacity: usize, store: S) -> (r: Self)
        requires
            max_capacity >= 1,
            store.inv(),
            S::exact_puts(),
        ensures
            r.inv(),
            r.capacity() == max_capacity,
            r.recency().no_duplicates(),
            r.recency().to_set() == r.contents().dom(),
            r.recency().len() <= max_capacity,
            forall|kv: Key::V|
                #[trigger] r.contents().dom().contains(kv) ==> store.contents().dom().contains(kv)
                    && r.contents()[kv] == store.contents()[kv],
            store.contents().dom().finite() && store.contents().dom().len() <= max_capacity
                ==> r.contents() == store.contents(),
    {
        let ghost c0 = store.contents();
        let usage_order = store.get_keys();
        let mut r = LruReplacementStrategy {
            store,
            usage_order,
            max_capacity,
            value_marker: core::marker::PhantomData,
        };
        proof {
            assert(r.recency().to_set() =~= r.store.contents().dom()) by {
                assert forall|kv: Key::V| r.recency().contains(kv) implies r.store.contents(
                ).dom().contains(kv) by {
                    let j = choose|j: int| 0 <= j < r.recency().len() && r.recency()[j] == kv;
                    assert(r.store.contents().dom().contains(key_views(r.usage_order@)[j]));
                }
            }
        }
        while r.usage_order.len() > r.max_capacity
            invariant
                r.max_capacity == max_capacity,
                max_capacity >= 1,
                r.store.inv(),
                key_views(r.usage_order@).no_duplicates(),
                key_views(r.usage_order@).to_set() == r.store.contents().dom(),
                forall|kv: Key::V|
                    #[trigger] r.store.contents().dom().contains(kv) ==> c0.dom().contains(kv)
                        && r.store.contents()[kv] == c0[kv],
                c0.dom().finite() && c0.dom().len() <= max_capacity ==> r.store.contents() == c0,
            decreases r.usage_order@.len(),
        {
            let ghost views = key_views(r.usage_order@);
            proof {
                if c0.dom().finite() && c0.dom().len() <= max_capacity {
                    views.unique_seq_to_set();
                    assert(false);
                }
                lemma_drop_last_props(views);
            }
            let tail = match r.usage_order.pop() {
                Some(k) => k,
                None => unreached(),
            };
            proof {
                assert(key_views(r.usage_order@) =~= views.drop_last());
                assert(tail@ == views.last());
            }
            let _deleted = r.store.delete(&tail);
            proof {
                assert(key_views(r.usage_order@).to_set() =~= r.store.contents().dom());
            }
        }
        r
    }

    /// The position of `key` in the recency index, if it is tracked.
    fn position_of(&self, key: &Key) -> (r: Option<usize>)
        ensures
            r matches Some(i) ==> i < self.usage_order@.len() && self.usage_order@[i as int]@
                == key@,
            r is None ==> forall|j: int|
                0 <= j < self.usage_order@.len() ==> self.usage_order@[j]@ != key@,
    {
        let mut i: usize = 0;
        while i < self.usage_order.len()
            invariant
                i <= self.usage_order@.len(),
                forall|j: int| 0 <= j < i ==> self.usage_order@[j]@ != key@,
            decreases self.usage_order@.len() - i,
        {
            if self.usage_order[i].same(key) {
                return Some(i);
            }
            i = i + 1;
        }
        None
    }

    /// Moves `key`, already tracked at position `i`, to the front of the
    /// recency index.
    fn bump_to_front(&mut self, i: usize)
        requires
            i < old(self).usage_order@.len(),
            key_views(old(self).usage_order@).no_duplicates(),
        ensures
            final(self).recency() == move_to_front(
                old(self).recency(),
                old(self).usage_order@[i as int]@,
            ),
            final(self).store == old(self).store,
            final(self).max_capacity == old(self).max_capacity,
    {
        let ghost r0 = self.recency();
        let ghost kv = self.usage_order@[i as int]@;
        let k = self.usage_order.remove(i);
        self.usage_order.insert(0, k);
        proof {
            lemma_first_occurrence(r0, i as int);
            assert(r0.remove_value(kv) =~= key_views(old(self).usage_order@.remove(i as int)));
            assert(self.recency() =~= seq![kv] + r0.remove_value(kv));
        }
    }

    /// Moves `key` to the most-recently-used position if it is tracked; does
    /// nothing otherwise.
    fn mark_as_most_recent(&mut self, key: &Key)
        requires
            key_views(old(self).usage_order@).no_duplicates(),
        ensures
            old(self).recency().contains(key@) ==> final(self).recency() == move_to_front(
                old(self).recency(),
                key@,
            ),
            !old(self).recency().contains(key@) ==> final(self).recency() == old(self).recency(),
            final(self).store == old(self).store,
            final(self).max_capacity == old(self).max_capacity,
    {
        match self.position_of(key) {
            Some(i) => {
                proof {
                    assert(self.recency()[i as int] == key@);
                    assert(self.recency().contains(key@));
                }
                self.bump_to_front(i);
            },
            None => {
                proof {
                    if self.recency().contains(key@) {
                        let j = choose|j: int|
                            0 <= j < self.recency().len() && self.recency()[j] == key@;
                        assert(self.usage_order@[j]@ == key@);
                    }
                }
            },
        }
    }

    /// Moves `key` to the most-recently-used position, entering it into the
    /// index if it was not yet tracked.
    fn add_to_usage_order(&mut self, key: &Key)
        requires
            key_views(old(self).usage_order@).no_duplicates(),
        ensures
            final(self).recency() == move_to_front(old(self).recency(), key@),
            final(self).store == old(self).store,
            final(self).max_capacity == old(self).max_capacity,
    {
        let ghost r0 = self.recency();
        match self.position_of(key) {
            Some(i) => {
                proof {
                    assert(self.recency()[i as int] == key@);
                    assert(self.recency().contains(key@));
                }
                self.bump_to_front(i);
            },
            None => {
                proof {
                    if r0.contains(key@) {
                        let j = choose|j: int| 0 <= j < r0.len() && r0[j] == key@;
                        assert(self.usage_order@[j]@ == key@);
                    }
                }
                self.usage_order.insert(0, key.duplicate_key());
                proof {
                    lemma_remove_value_props(r0, key@);
                    assert(self.recency() =~= seq![key@] + r0.remove_value(key@));
                }
            },
        }
    }

    /// Removes `key` from the recency index if it is tracked.
    fn remove_from_usage_order(&mut self, key: &Key)
        requires
            key_views(old(self).usage_order@).no_duplicates(),
        ensures
            final(self).recency() == old(self).recency().remove_value(key@),
            final(self).store == old(self).store,
            final(self).max_capacity == old(self).max_capacity,
    {
        let ghost r0 = self.recency();
        proof {
            lemma_remove_value_props(r0, key@);
        }
        match self.position_of(key) {
            Some(i) => {
                proof {
                    lemma_first_occurrence(r0, i as int);
                    assert(r0.contains(key@)) by {
                        assert(r0[i as int] == key@);
                    }
                    assert(r0.remove_value(key@) =~= key_views(
                        old(self).usage_order@.remove(i as int),
                    ));
                }
                let _removed = self.usage_order.remove(i);
            },
            None => {
                proof {
                    if r0.contains(key@) {
                        let j = choose|j: int| 0 <= j < r0.len() && r0[j] == key@;
                        assert(self.usage_order@[j]@ == key@);
                    }
                }
            },
        }
    }
}

impl<Key: CacheKey, Value: CacheValue, S: CacheStoreStrategy<Key, Value>> CacheStoreStrategy<
    Key,
    Value,
> for LruReplacementStrategy<Key, Value, S> {
    closed spec fn contents(&self) -> Map<Key::V, Value::V> {
        self.store.contents()
    }

    closed spec fn inv(&self) -> bool {
        &&& self.store.inv()
        &&& S::exact_puts()
        &&& key_views(self.usage_order@).no_duplicates()
        &&& key_views(self.usage_order@).to_set() == self.store.contents().dom()
        &&& self.usage_order@.len() <= self.max_capacity
        &&& self.max_capacity >= 1
    }

    open spec fn exact_puts() -> bool {
        false
    }

    /// On a hit, the key becomes the most recently used before the value is
    /// returned; on a miss nothing changes.
    fn get(&mut self, key: &Key) -> (r: Option<Value>)
        ensures
            old(self).contents().dom().contains(key@) ==> final(self).recency() == move_to_front(
                old(self).recency(),
                key@,
            ),
            !old(self).contents().dom().contains(key@) ==> final(self).recency() == old(self).recency(),
            final(self).capacity() == old(self).capacity(),
    {
        proof {
            lemma_move_to_front_props(self.recency(), key@);
        }
        self.mark_as_most_recent(key);
        proof {
            assert(self.recency().to_set() =~= self.store.contents().dom());
        }
        self.store.get(key)
    }

    /// Delegates to the backing store's `peek`; taking `&self`, it cannot
    /// touch the recency index, so it never changes which key is least
    /// recently used.
    fn peek(&self, key: &Key) -> (r: Option<Value>) {
        self.store.peek(key)
    }

    /// The key becomes the most recently used; if the index then exceeds the
    /// capacity, the least recently used key is evicted from both the index
    /// and the backing store.
    fn put(&mut self, key: &Key, value: Value)
        ensures
            final(self).recency() == lru_put_order(
                old(self).recency(),
                key@,
                old(self).capacity(),
            ),
            final(self).capacity() == old(self).capacity(),
            lru_put_eviction(old(self).recency(), key@, old(self).capacity()) is None ==> final(self).contents() == old(self).contents().insert(key@, value@),
            lru_put_eviction(old(self).recency(), key@, old(self).capacity()) matches Some(e)
                ==> e != key@ && final(self).contents() == old(self).contents().insert(
                key@,
                value@,
            ).remove(e),
    {
        let ghost r0 = self.recency();
        proof {
            lemma_move_to_front_props(r0, key@);
        }
        self.add_to_usage_order(key);
        self.store.put(key, value);
        let ghost t = move_to_front(r0, key@);
        if self.usage_order.len() > self.max_capacity {
            proof {
                lemma_drop_last_props(t);
                assert(t[0] == key@ && t.len() >= 2);
                assert(t.last() != t[0]);
            }
            let tail = match self.usage_order.pop() {
                Some(k) => k,
                None => unreached(),
            };
            proof {
                assert(self.recency() =~= t.drop_last());
            }
            let _deleted = self.store.delete(&tail);
            proof {
                assert(self.recency().to_set() =~= self.store.contents().dom());
            }
        } else {
            proof {
                assert(self.recency().to_set() =~= self.store.contents().dom());
            }
        }
    }

    /// The key leaves the recency index and the backing store.
    fn delete(&mut self, key: &Key) -> (r: bool)
        ensures
            final(self).recency() == old(self).recency().remove_value(key@),
            final(self).capacity() == old(self).capacity(),
    {
        let ghost r0 = self.recency();
        proof {
            lemma_remove_value_props(r0, key@);
        }
        self.remove_from_usage_order(key);
        let r = self.store.delete(key);
        proof {
            assert(self.recency().to_set() =~= self.store.contents().dom());
        }
        r
    }

    /// Clears the recency index and the backing store.
    fn flush(&mut self)
        ensures
            final(self).recency() == Seq::<Key::V>::empty(),
            final(self).capacity() == old(self).capacity(),
    {
        self.usage_order.clear();
        self.store.flush();
        proof {
            assert(self.recency() =~= Seq::<Key::V>::empty());
            assert(self.recency().to_set() =~= self.store.contents().dom());
        }
    }

    /// Answered from the recency index, most recently used first, without
    /// touching the backing store.
    fn get_keys(&self) -> (r: Vec<Key>)
        ensures
            key_views(r@) == self.recency(),
    {
        let mut r: Vec<Key> = Vec::new();
        let mut i: usize = 0;
        while i < self.usage_order.len()
            invariant
                i <= self.usage_order@.len(),
                r@.len() == i,
                forall|j: int| 0 <= j < i ==> r@[j]@ == self.usage_order@[j]@,
            decreases self.usage_order@.len() - i,
        {
            let k = &self.usage_order[i];
            r.push(k.duplicate_key());
            i = i + 1;
        }
        proof {
            assert(key_views(r@) =~= self.recency());
            assert forall|kv: Key::V| #[trigger] self.contents().dom().contains(kv) implies
                key_views(r@).contains(kv) by {
                assert(self.recency().contains(kv));
            }
        }
        r
    }

    /// Answered from the recency index, without touching the backing store.
    fn contains(&self, key: &Key) -> (r: bool) {
        match self.position_of(key) {
            Some(i) => {
                proof {
                    assert(self.recency()[i as int] == key@);
                    assert(self.recency().contains(key@));
                }
                true
            },
            None => {
                proof {
                    if self.recency().contains(key@) {
                        let j = choose|j: int|
                            0 <= j < self.recency().len() && self.recency()[j] == key@;
                        assert(self.usage_order@[j]@ == key@);
                    }
                }
                false
            },
        }
    }
}

/// A `put` never leaves more keys tracked than the capacity allows: an index
/// within its bound stays within it, one eviction balancing each insertion.
pub proof fn lemma_put_respects_capacity<KV>(s: Seq<KV>, k: KV, cap: nat)
    requires
        s.no_duplicates(),
        s.len() <= cap,
    ensures
        lru_put_order(s, k, cap).len() <= cap,
{
    lemma_move_to_front_props(s, k);
}

/// A `put` of an already-tracked key in an index within its bound evicts
/// nothing: the key only moves to the most-recent position, and the index
/// keeps its size.
pub proof fn lemma_put_of_tracked_key_evicts_nothing<KV>(s: Seq<KV>, k: KV, cap: nat)
    requires
        s.no_duplicates(),
        s.len() <= cap,
        s.contains(k),
    ensures
        lru_put_eviction(s, k, cap) is None,
        lru_put_order(s, k, cap) == move_to_front(s, k),
        lru_put_order(s, k, cap)[0] == k,
        lru_put_order(s, k, cap).len() == s.len(),
{
    lemma_move_to_front_props(s, k);
}

/// The recency order after a sequence of keys is stored, one `put` after
/// another, starting from an empty index.
pub open spec fn fill_order<KV>(ks: Seq<KV>, cap: nat) -> Seq<KV>
    decreases ks.len(),
{
    if ks.len() == 0 {
        Seq::empty()
    } else {
        lru_put_order(fill_order(ks.drop_last(), cap), ks.last(), cap)
    }
}

proof fn lemma_reverse_no_duplicates<KV>(s: Seq<KV>)
    requires
        s.no_duplicates(),
    ensures
        s.reverse().no_duplicates(),
        forall|x: KV| s.reverse().contains(x) <==> s.contains(x),
{
    assert forall|x: KV| s.reverse().contains(x) implies s.contains(x) by {
        let j = choose|j: int| 0 <= j < s.reverse().len() && s.reverse()[j] == x;
        assert(s[s.len() - 1 - j] == x);
    }
    assert forall|x: KV| s.contains(x) implies s.reverse().contains(x) by {
        let j = choose|j: int| 0 <= j < s.len() && s[j] == x;
        assert(s.reverse()[s.len() - 1 - j] == x);
    }
}

/// Storing distinct keys into an empty index, while the capacity is not yet
/// exceeded, tracks them in reverse insertion order: most recently inserted
/// first.
proof fn lemma_fill_order_within_capacity<KV>(ks: Seq<KV>, cap: nat)
    requires
        ks.no_duplicates(),
        ks.len() <= cap,
    ensures
        fill_order(ks, cap) == ks.reverse(),
    decreases ks.len(),
{
    if ks.len() == 0 {
        assert(fill_order(ks, cap) =~= ks.reverse());
    } else {
        let pre = ks.drop_last();
        let k = ks.last();
        assert(pre.no_duplicates());
        lemma_fill_order_within_capacity(pre, cap);
        lemma_reverse_no_duplicates(pre);
        assert(!pre.contains(k)) by {
            if pre.contains(k) {
                let j = choose|j: int| 0 <= j < pre.len() && pre[j] == k;
                assert(ks[j] == ks[ks.len() - 1]);
            }
        }
        lemma_remove_value_props(pre.reverse(), k);
        assert(move_to_front(pre.reverse(), k) == seq![k] + pre.reverse());
        assert(fill_order(ks, cap) =~= ks.reverse()) by {
            assert(move_to_front(pre.reverse(), k).len() == ks.len() <= cap);
            assert forall|i: int| 0 <= i < ks.len() implies (seq![k] + pre.reverse())[i]
                == ks.reverse()[i] by {
                if i > 0 {
                    assert((seq![k] + pre.reverse())[i] == pre[pre.len() - i]);
                    assert(ks.reverse()[i] == ks[ks.len() - 1 - i]);
                }
            }
        }
    }
}

/// Inserting one more distinct key than the capacity allows, with no
/// intervening lookups, evicts exactly the first-inserted key: every other
/// key is still tracked.
pub proof fn lemma_fill_past_capacity_evicts_first<KV>(ks: Seq<KV>, cap: nat)
    requires
        ks.no_duplicates(),
        ks.len() == cap + 1,
        cap >= 1,
    ensures
        !fill_order(ks, cap).contains(ks[0]),
        forall|i: int| 1 <= i < ks.len() ==> fill_order(ks, cap).contains(ks[i]),
{
    let pre = ks.drop_last();
    let k = ks.last();
    assert(pre.no_duplicates());
    lemma_fill_order_within_capacity(pre, cap);
    lemma_reverse_no_duplicates(pre);
    assert(!pre.contains(k)) by {
        if pre.contains(k) {
            let j = choose|j: int| 0 <= j < pre.len() && pre[j] == k;
            assert(ks[j] == ks[ks.len() - 1]);
        }
    }
    lemma_remove_value_props(pre.reverse(), k);
    let t = seq![k] + pre.reverse();
    assert(move_to_front(pre.reverse(), k) == t);
    assert(t.len() == cap + 1 > cap);
    assert(fill_order(ks, cap) == t.drop_last());
    assert(t.no_duplicates()) by {
        assert forall|a: int, b: int| 0 <= a < b < t.len() implies t[a] != t[b] by {
            if a == 0 {
                assert(t[b] == pre.reverse()[b - 1]);
                if t[b] == k {
                    assert(pre.reverse().contains(k));
                }
            } else {
                assert(t[a] == pre.reverse()[a - 1] && t[b] == pre.reverse()[b - 1]);
            }
        }
    }
    lemma_drop_last_props(t);
    assert(t.last() == pre.reverse()[pre.len() - 1]);
    assert(t.last() == ks[0]);
    assert forall|i: int| 1 <= i < ks.len() implies fill_order(ks, cap).contains(ks[i]) by {
        if i == ks.len() - 1 {
            assert(t.drop_last()[0] == ks[i]);
        } else {
            assert(pre.reverse()[pre.len() - 1 - i] == pre[i]);
            assert(t[pre.len() - i] == ks[i]);
            assert(t.drop_last()[pre.len() - i] == ks[i]);
        }
    }
}

/// A lookup of the least-recently-used key just before an over-capacity
/// `put` of a fresh key saves it from eviction: the key evicted instead is
/// the one that had become least recent, a different key.
pub proof fn lemma_recent_use_saves_from_eviction<KV>(s: Seq<KV>, fresh: KV, cap: nat)
    requires
        s.no_duplicates(),
        s.len() == cap,
        cap >= 2,
        !s.contains(fresh),
    ensures
        lru_put_eviction(move_to_front(s, s.last()), fresh, cap) == Some(s[s.len() - 2]),
        s[s.len() - 2] != s.last(),
        lru_put_order(move_to_front(s, s.last()), fresh, cap).contains(s.last()),
{
    let k = s.last();
    assert(s.contains(k)) by {
        assert(s[s.len() - 1] == k);
    }
    lemma_first_occurrence(s, s.len() - 1);
    s.index_of_first_ensures(k);
    let touched = move_to_front(s, k);
    assert(touched == seq![k] + s.drop_last()) by {
        assert(s.remove(s.len() - 1) =~= s.drop_last());
    }
    lemma_move_to_front_props(s, k);
    assert(!touched.contains(fresh)) by {
        if touched.contains(fresh) {
            assert(touched.to_set().contains(fresh));
            assert(s.to_set().insert(k).contains(fresh));
        }
    }
    lemma_remove_value_props(touched, fresh);
    let t = seq![fresh] + touched;
    assert(move_to_front(touched, fresh) == t);
    assert(t.len() == cap + 1 > cap);
    assert(t.last() == touched[touched.len() - 1]);
    assert(touched[touched.len() - 1] == s.drop_last()[s.len() - 2]);
    assert(t.last() == s[s.len() - 2]);
    assert(s[s.len() - 2] != s.last());
    assert(lru_put_order(touched, fresh, cap) == t.drop_last());
    assert(t.drop_last()[1] == touched[0]);
    assert(t.drop_last().contains(s.last())) by {
        assert(t.drop_last()[1] == s.last());
    }
}

} // verus!

