//! An in-memory store: an association list of key/value pairs with distinct
//! key views, whose abstract contents are computed by [`assoc_map`].

use vstd::prelude::*;

use crate::keys::{CacheKey, CacheValue};
use crate::store::{key_views, CacheStoreStrategy};

verus! {

/// The map an association list denotes; a later pair for the same key view
/// overrides an earlier one.
pub open spec fn assoc_map<Key: View, Value: View>(s: Seq<(Key, Value)>) -> Map<
    Key::V,
    Value::V,
>
    decreases s.len(),
{
    if s.len() == 0 {
        Map::empty()
    } else {
        assoc_map(s.drop_last()).insert(s.last().0@, s.last().1@)
    }
}

/// No two pairs of the list have the same key view.
pub open spec fn distinct_key_views<Key: View, Value: View>(s: Seq<(Key, Value)>) -> bool {
    forall|i: int, j: int| 0 <= i < j < s.len() ==> s[i].0@ != s[j].0@
}

proof fn lemma_assoc_map_dom<Key: View, Value: View>(s: Seq<(Key, Value)>)
    ensures
        forall|kv: Key::V|
            #[trigger] assoc_map(s).dom().contains(kv) <==> exists|j: int|
                0 <= j < s.len() && s[j].0@ == kv,
    decreases s.len(),
{
    if s.len() == 0 {
    } else {
        lemma_assoc_map_dom(s.drop_last());
        assert forall|kv: Key::V| #[trigger] assoc_map(s).dom().contains(kv) implies exists|j: int|
            0 <= j < s.len() && s[j].0@ == kv by {
            if kv == s.last().0@ {
                assert(s[s.len() - 1].0@ == kv);
            } else {
                assert(assoc_map(s.drop_last()).dom().contains(kv));
                let j = choose|j: int| 0 <= j < s.drop_last().len() && s.drop_last()[j].0@ == kv;
                assert(s.drop_last()[j] == s[j]);
                assert(s[j].0@ == kv);
            }
        }
        assert forall|kv: Key::V|
            (exists|j: int| 0 <= j < s.len() && s[j].0@ == kv) implies #[trigger] assoc_map(
            s,
        ).dom().contains(kv) by {
            let j = choose|j: int| 0 <= j < s.len() && s[j].0@ == kv;
            if j < s.len() - 1 {
                assert(s.drop_last()[j].0@ == kv);
                assert(assoc_map(s.drop_last()).dom().contains(kv));
            }
        }
    }
}

proof fn lemma_assoc_map_at<Key: View, Value: View>(s: Seq<(Key, Value)>)
    requires
        distinct_key_views(s),
    ensures
        forall|j: int| #![trigger s[j]] 0 <= j < s.len() ==> assoc_map(s)[s[j].0@] == s[j].1@,
    decreases s.len(),
{
    if s.len() == 0 {
    } else {
        assert(distinct_key_views(s.drop_last()));
        lemma_assoc_map_at(s.drop_last());
        assert forall|j: int| #![trigger s[j]] 0 <= j < s.len() implies assoc_map(s)[s[j].0@]
            == s[j].1@ by {
            if j < s.len() - 1 {
                assert(s[j].0@ != s.last().0@);
                assert(s.drop_last()[j] == s[j]);
            }
        }
    }
}

proof fn lemma_assoc_map_push<Key: View, Value: View>(s: Seq<(Key, Value)>, p: (Key, Value))
    ensures
        assoc_map(s.push(p)) == assoc_map(s).insert(p.0@, p.1@),
{
    assert(s.push(p).drop_last() =~= s);
    assert(s.push(p).last() == p);
}

proof fn lemma_distinct_remove<Key: View, Value: View>(s: Seq<(Key, Value)>, i: int)
    requires
        distinct_key_views(s),
        0 <= i < s.len(),
    ensures
        distinct_key_views(s.remove(i)),
{
    assert forall|a: int, b: int| 0 <= a < b < s.remove(i).len() implies s.remove(i)[a].0@
        != s.remove(i)[b].0@ by {
        let a0 = if a < i { a } else { a + 1 };
        let b0 = if b < i { b } else { b + 1 };
        assert(s.remove(i)[a] == s[a0]);
        assert(s.remove(i)[b] == s[b0]);
    }
}

proof fn lemma_assoc_map_remove<Key: View, Value: View>(s: Seq<(Key, Value)>, i: int)
    requires
        distinct_key_views(s),
        0 <= i < s.len(),
    ensures
        assoc_map(s.remove(i)) == assoc_map(s).remove(s[i].0@),
    decreases s.len(),
{
    if i == s.len() - 1 {
        assert(s.remove(i) =~= s.drop_last());
        lemma_assoc_map_dom(s.drop_last());
        assert(!assoc_map(s.drop_last()).dom().contains(s[i].0@));
        assert(assoc_map(s).remove(s[i].0@) =~= assoc_map(s.drop_last()));
    } else {
        let t = s.remove(i);
        assert(t.drop_last() =~= s.drop_last().remove(i));
        assert(t.last() == s.last());
        assert(distinct_key_views(s.drop_last()));
        assert(s.drop_last()[i] == s[i]);
        lemma_assoc_map_remove(s.drop_last(), i);
        assert(s[i].0@ != s.last().0@);
        assert(assoc_map(s.drop_last()).remove(s[i].0@).insert(s.last().0@, s.last().1@)
            =~= assoc_map(s.drop_last()).insert(s.last().0@, s.last().1@).remove(s[i].0@));
    }
}

/// A purely in-memory store backed by an association list.
pub struct MemoryStore<Key, Value> {
    data: Vec<(Key, Value)>,
}

impl<Key: CacheKey, Value: CacheValue> MemoryStore<Key, Value> {
    /// An empty in-memory store.
    pub fn new() -> (r: Self)
        ensures
            r.inv(),
            r.contents() == Map::<Key::V, Value::V>::empty(),
    {
        MemoryStore { data: Vec::new() }
    }

    /// The index of the pair whose key view matches `key`, if any.
    fn index_of_key(&self, key: &Key) -> (r: Option<usize>)
        ensures
            r matches Some(i) ==> i < self.data@.len() && self.data@[i as int].0@ == key@,
            r is None ==> forall|j: int| 0 <= j < self.data@.len() ==> self.data@[j].0@ != key@,
    {
        let mut i: usize = 0;
        while i < self.data.len()
            invariant
                i <= self.data@.len(),
                forall|j: int| 0 <= j < i ==> self.data@[j].0@ != key@,
            decreases self.data@.len() - i,
        {
            let p = &self.data[i];
            if p.0.same(key) {
                return Some(i);
            }
            i = i + 1;
        }
        None
    }
}

impl<Key: CacheKey, Value: CacheValue> CacheStoreStrategy<Key, Value> for MemoryStore<
    Key,
    Value,
> {
    closed spec fn contents(&self) -> Map<Key::V, Value::V> {
        assoc_map(self.data@)
    }

    closed spec fn inv(&self) -> bool {
        distinct_key_views(self.data@)
    }

    open spec fn exact_puts() -> bool {
        true
    }

    fn get(&mut self, key: &Key) -> (r: Option<Value>) {
        self.peek(key)
    }

    fn peek(&self, key: &Key) -> (r: Option<Value>) {
        proof {
            lemma_assoc_map_dom(self.data@);
            lemma_assoc_map_at(self.data@);
        }
        match self.index_of_key(key) {
            Some(i) => {
                let p = &self.data[i];
                Some(p.1.duplicate_value())
            },
            None => None,
        }
    }

    fn put(&mut self, key: &Key, value: Value) {
        let ghost pre = self.data@;
        match self.index_of_key(key) {
            Some(i) => {
                proof {
                    lemma_assoc_map_remove(self.data@, i as int);
                    lemma_distinct_remove(self.data@, i as int);
                }
                let _replaced = self.data.remove(i);
            },
            None => {},
        }
        let ghost mid = self.data@;
        self.data.push((key.duplicate_key(), value));
        proof {
            lemma_assoc_map_push(mid, self.data@.last());
            assert(assoc_map(self.data@) =~= assoc_map(pre).insert(key@, value@));
        }
    }

    fn delete(&mut self, key: &Key) -> (r: bool) {
        proof {
            lemma_assoc_map_dom(self.data@);
        }
        match self.index_of_key(key) {
            Some(i) => {
                proof {
                    lemma_assoc_map_remove(self.data@, i as int);
                    lemma_distinct_remove(self.data@, i as int);
                }
                let _removed = self.data.remove(i);
                true
            },
            None => {
                proof {
                    assert(assoc_map(self.data@).remove(key@) =~= assoc_map(self.data@));
                }
                false
            },
        }
    }

    fn flush(&mut self) {
        self.data.clear();
    }

    fn get_keys(&self) -> (r: Vec<Key>) {
        let mut r: Vec<Key> = Vec::new();
        let mut i: usize = 0;
        while i < self.data.len()
            invariant
                i <= self.data@.len(),
                r@.len() == i,
                forall|j: int| 0 <= j < i ==> r@[j]@ == self.data@[j].0@,
            decreases self.data@.len() - i,
        {
            let p = &self.data[i];
            r.push(p.0.duplicate_key());
            i = i + 1;
        }
        proof {
            lemma_assoc_map_dom(self.data@);
            assert forall|kv: Key::V| #[trigger] self.contents().dom().contains(kv) implies
                key_views(r@).contains(kv) by {
                let j = choose|j: int| 0 <= j < self.data@.len() && self.data@[j].0@ == kv;
                assert(key_views(r@)[j] == kv);
            }
        }
        r
    }

    fn contains(&self, key: &Key) -> (r: bool) {
        proof {
            lemma_assoc_map_dom(self.data@);
        }
        match self.index_of_key(key) {
            Some(_i) => true,
            None => false,
        }
    }
}

} // verus!
