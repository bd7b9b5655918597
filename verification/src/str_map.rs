//! A map keyed by strings, held as a vector of entries in ascending key
//! order. It can be walked in key order and searched by bisection.

use vstd::prelude::*;
use crate::text::{ascending, compare, key_lt, lemma_key_lt_order, Order};

verus! {

/// A key with its value.
#[derive(Clone, Debug)]
struct Entry<V> {
    key: String,
    value: V,
}

/// A map from strings to values of type `V`.
#[derive(Clone, Debug)]
pub struct StrMap<V> {
    entries: Vec<Entry<V>>,
}

impl<V> StrMap<V> {
    /// The keys, in the order in which the map is walked.
    pub closed spec fn keys(&self) -> Seq<Seq<char>> {
        Seq::new(self.entries@.len(), |i: int| self.entries@[i].key@)
    }

    /// The values, each at the position of its key in `keys()`.
    pub closed spec fn values(&self) -> Seq<V> {
        Seq::new(self.entries@.len(), |i: int| self.entries@[i].value)
    }

    /// Keys are strictly ascending, so no key occurs twice.
    pub open spec fn wf(&self) -> bool {
        &&& self.keys().len() == self.values().len()
        &&& ascending(self.keys())
    }

    /// The map from each key to its value.
    pub open spec fn view(&self) -> Map<Seq<char>, V> {
        Map::new(
            |k: Seq<char>| self.keys().contains(k),
            |k: Seq<char>| self.values()[self.keys().index_of(k)],
        )
    }

    /// Position `i` of a well-formed map holds the only entry for its key.
    pub proof fn lemma_entry(&self, i: int)
        requires
            self.wf(),
            0 <= i < self.keys().len(),
        ensures
            self.keys().contains(self.keys()[i]),
            self.keys().index_of(self.keys()[i]) == i,
            self@.contains_key(self.keys()[i]),
            self@[self.keys()[i]] == self.values()[i],
    {
        let keys = self.keys();
        let j = keys.index_of(keys[i]);
        assert(keys.contains(keys[i]));
        if j < i {
            lemma_key_lt_order(keys[j], keys[i], keys[i]);
        } else if i < j {
            lemma_key_lt_order(keys[i], keys[j], keys[i]);
        }
    }

    /// The domain of a well-formed map is finite, of the size of `keys()`.
    pub proof fn lemma_dom(&self)
        requires
            self.wf(),
        ensures
            self@.dom() == self.keys().to_set(),
            self@.dom().finite(),
            self@.dom().len() == self.keys().len(),
    {
        let keys = self.keys();
        assert(self@.dom() =~= keys.to_set());
        assert forall|i: int, j: int| 0 <= i < keys.len() && 0 <= j < keys.len() && i != j implies keys[i]
            != keys[j] by {
            self.lemma_entry(i);
            self.lemma_entry(j);
        }
        keys.unique_seq_to_set();
    }

    /// Well-formed maps that are the same map are walked alike: the walk of
    /// a map is determined by what the map holds.
    pub proof fn lemma_same_walk(&self, other: &Self)
        requires
            self.wf(),
            other.wf(),
            self@.dom() == other@.dom(),
        ensures
            self.keys() == other.keys(),
            self@ == other@ ==> self.values() == other.values(),
    {
        assert forall|k: Seq<char>| self.keys().contains(k) <==> other.keys().contains(k) by {
            assert(self@.dom().contains(k) == other@.dom().contains(k));
            assert(self@.contains_key(k) == self.keys().contains(k));
            assert(other@.contains_key(k) == other.keys().contains(k));
        }
        crate::text::lemma_ascending_unique(self.keys(), other.keys());
        if self@ == other@ {
            assert forall|i: int| 0 <= i < self.values().len() implies self.values()[i]
                == other.values()[i] by {
                self.lemma_entry(i);
                other.lemma_entry(i);
            }
            assert(self.values() =~= other.values());
        }
    }

    /// The map of the first `n` entries of the walk.
    pub open spec fn prefix_map(&self, n: int) -> Map<Seq<char>, V> {
        Map::new(
            |k: Seq<char>| exists|i: int| 0 <= i < n && i < self.keys().len() && self.keys()[i] == k,
            |k: Seq<char>| self.values()[self.keys().index_of(k)],
        )
    }

    /// How the map of the first `n` entries grows with `n`: from nothing,
    /// entry by entry, to the whole map.
    pub proof fn lemma_prefix_map(&self, n: int)
        requires
            self.wf(),
            0 <= n <= self.keys().len(),
        ensures
            self.prefix_map(0) == Map::<Seq<char>, V>::empty(),
            self.prefix_map(self.keys().len() as int) == self@,
            n < self.keys().len() ==> !self.prefix_map(n).contains_key(self.keys()[n]),
            n < self.keys().len() ==> self.prefix_map(n + 1) == self.prefix_map(n).insert(
                self.keys()[n],
                self.values()[n],
            ),
            forall|k: Seq<char>| #[trigger]
                self.prefix_map(n).contains_key(k) ==> self@.contains_key(k) && self.prefix_map(n)[k]
                    == self@[k],
    {
        let keys = self.keys();
        assert(self.prefix_map(0) =~= Map::<Seq<char>, V>::empty());
        assert(self.prefix_map(keys.len() as int) =~= self@);
        if n < keys.len() {
            if self.prefix_map(n).contains_key(keys[n]) {
                let i = choose|i: int| 0 <= i < n && i < keys.len() && keys[i] == keys[n];
                self.lemma_entry(i);
                self.lemma_entry(n);
            }
            self.lemma_entry(n);
            assert(self.prefix_map(n + 1) =~= self.prefix_map(n).insert(keys[n], self.values()[n])) by {
                assert forall|k: Seq<char>| self.prefix_map(n + 1).contains_key(k) implies self.prefix_map(
                    n,
                ).insert(keys[n], self.values()[n]).contains_key(k) by {
                    let i = choose|i: int| 0 <= i < n + 1 && i < keys.len() && keys[i] == k;
                    if i < n {
                        assert(self.prefix_map(n).contains_key(k));
                    }
                }
                assert forall|k: Seq<char>|
                    self.prefix_map(n).insert(keys[n], self.values()[n]).contains_key(
                        k,
                    ) implies self.prefix_map(n + 1).contains_key(k) by {
                    if k == keys[n] {
                        assert(0 <= n < n + 1 && keys[n] == k);
                    } else {
                        let i = choose|i: int| 0 <= i < n && i < keys.len() && keys[i] == k;
                        assert(0 <= i < n + 1 && keys[i] == k);
                    }
                }
            }
        }
    }

    /// An empty map.
    pub fn new() -> (m: Self)
        ensures
            m.wf(),
            m.keys() == Seq::<Seq<char>>::empty(),
            m@ == Map::<Seq<char>, V>::empty(),
    {
        let m = StrMap { entries: Vec::new() };
        assert(m.keys() =~= Seq::<Seq<char>>::empty());
        assert(m@ =~= Map::<Seq<char>, V>::empty());
        m
    }

    /// The number of keys.
    pub fn len(&self) -> (n: usize)
        ensures
            n == self.keys().len(),
            n == self.values().len(),
    {
        self.entries.len()
    }

    /// Whether the map has no key.
    pub fn is_empty(&self) -> (b: bool)
        ensures
            b == (self.keys().len() == 0),
    {
        self.entries.len() == 0
    }

    /// The key at position `i` of the walk.
    pub fn key_at(&self, i: usize) -> (k: &String)
        requires
            i < self.keys().len(),
        ensures
            k@ == self.keys()[i as int],
    {
        &self.entries[i].key
    }

    /// The value at position `i` of the walk.
    pub fn value_at(&self, i: usize) -> (v: &V)
        requires
            i < self.keys().len(),
        ensures
            *v == self.values()[i as int],
    {
        &self.entries[i].value
    }

    /// Two maps with the same keys whose values differ at position `i` only:
    /// the second is the first with the key at `i` bound anew.
    pub proof fn lemma_value_changed(&self, after: &Self, i: int)
        requires
            self.wf(),
            0 <= i < self.keys().len(),
            after.keys() == self.keys(),
            after.values() == self.values().update(i, after.values()[i]),
        ensures
            after.wf(),
            after@ == self@.insert(self.keys()[i], after.values()[i]),
    {
        assert(after.values().len() == self.values().len());
        assert(after@ =~= self@.insert(self.keys()[i], after.values()[i])) by {
            assert forall|k: Seq<char>| #[trigger] after@.contains_key(k) implies after@[k]
                == self@.insert(self.keys()[i], after.values()[i])[k] by {
                let j = self.keys().index_of(k);
                self.lemma_entry(j);
                after.lemma_entry(j);
                self.lemma_entry(i);
            }
        }
    }

    /// The value at position `i`, to be changed in place. Keys stay as they
    /// are; `lemma_value_changed` gives the map that results.
    pub fn value_mut(&mut self, i: usize) -> (v: &mut V)
        requires
            old(self).wf(),
            i < old(self).keys().len(),
        ensures
            *v == old(self).values()[i as int],
            final(self).keys() == old(self).keys(),
            final(self).values() == old(self).values().update(i as int, *final(v)),
    {
        &mut self.entries[i].value
    }

    /// Binds the key at position `i` to `value`.
    pub fn set_value_at(&mut self, i: usize, value: V)
        requires
            old(self).wf(),
            i < old(self).keys().len(),
        ensures
            final(self).wf(),
            final(self).keys() == old(self).keys(),
            final(self).values() == old(self).values().update(i as int, value),
            final(self)@ == old(self)@.insert(old(self).keys()[i as int], value),
    {
        let slot = self.value_mut(i);
        *slot = value;
        proof {
            old(self).lemma_value_changed(self, i as int);
        }
    }

    /// Where `key` stands in the walk: its position and `true` where the map
    /// holds it, else the position at which it would be inserted and `false`.
    pub fn find(&self, key: &str) -> (r: (usize, bool))
        requires
            self.wf(),
        ensures
            r.0 <= self.keys().len(),
            r.1 == self@.contains_key(key@),
            r.1 ==> r.0 < self.keys().len() && self.keys()[r.0 as int] == key@,
            forall|j: int| 0 <= j < r.0 ==> key_lt(#[trigger] self.keys()[j], key@),
            forall|j: int|
                r.0 <= j < self.keys().len() && !(r.1 && j == r.0) ==> key_lt(
                    key@,
                    #[trigger] self.keys()[j],
                ),
    {
        let ghost keys = self.keys();
        let mut lo: usize = 0;
        let mut hi: usize = self.entries.len();
        while lo < hi
            invariant
                self.wf(),
                keys == self.keys(),
                lo <= hi <= keys.len(),
                keys.len() == self.entries@.len(),
                forall|j: int| 0 <= j < lo ==> key_lt(#[trigger] keys[j], key@),
                forall|j: int| hi <= j < keys.len() ==> key_lt(key@, #[trigger] keys[j]),
            decreases hi - lo,
        {
            let mid = lo + (hi - lo) / 2;
            assert(keys[mid as int] == self.entries@[mid as int].key@);
            match compare(self.entries[mid].key.as_str(), key) {
                Order::Less => {
                    assert forall|j: int| 0 <= j < mid + 1 implies key_lt(
                        #[trigger] keys[j],
                        key@,
                    ) by {
                        if j < mid {
                            lemma_key_lt_order(keys[j], keys[mid as int], key@);
                        }
                    }
                    lo = mid + 1;
                },
                Order::Equal => {
                    proof {
                        self.lemma_entry(mid as int);
                        assert forall|j: int| mid < j < keys.len() implies key_lt(
                            key@,
                            #[trigger] keys[j],
                        ) by {}
                        assert forall|j: int| 0 <= j < mid implies key_lt(
                            #[trigger] keys[j],
                            key@,
                        ) by {}
                    }
                    return (mid, true);
                },
                Order::Greater => {
                    assert forall|j: int| mid <= j < keys.len() implies key_lt(
                        key@,
                        #[trigger] keys[j],
                    ) by {
                        if mid < j {
                            lemma_key_lt_order(key@, keys[mid as int], keys[j]);
                        }
                    }
                    hi = mid;
                },
            }
        }
        proof {
            if self@.contains_key(key@) {
                let j = keys.index_of(key@);
                lemma_key_lt_order(key@, key@, key@);
                if j < lo {
                    assert(key_lt(keys[j], key@));
                } else {
                    assert(key_lt(key@, keys[j]));
                }
            }
        }
        (lo, false)
    }

    /// Whether `key` is bound.
    pub fn contains_key(&self, key: &str) -> (b: bool)
        requires
            self.wf(),
        ensures
            b == self@.contains_key(key@),
    {
        self.find(key).1
    }

    /// The value that `key` is bound to.
    pub fn get(&self, key: &str) -> (r: Option<&V>)
        requires
            self.wf(),
        ensures
            r is Some <==> self@.contains_key(key@),
            r matches Some(v) ==> *v == self@[key@],
    {
        let (i, found) = self.find(key);
        if found {
            proof {
                self.lemma_entry(i as int);
            }
            Some(&self.entries[i].value)
        } else {
            None
        }
    }

    /// Puts a new key at position `i`, which must be where `find` places it.
    pub fn insert_at(&mut self, i: usize, key: String, value: V)
        requires
            old(self).wf(),
            i <= old(self).keys().len(),
            forall|j: int| 0 <= j < i ==> key_lt(#[trigger] old(self).keys()[j], key@),
            forall|j: int| i <= j < old(self).keys().len() ==> key_lt(key@, #[trigger] old(self).keys()[j]),
        ensures
            final(self).wf(),
            final(self).keys() == old(self).keys().insert(i as int, key@),
            final(self).values() == old(self).values().insert(i as int, value),
            final(self)@ == old(self)@.insert(key@, value),
            !old(self)@.contains_key(key@),
    {
        let ghost before = *self;
        let ghost k = key@;
        self.entries.insert(i, Entry { key, value });
        proof {
            let after = *self;
            let bk = before.keys();
            let ak = after.keys();
            assert(ak =~= bk.insert(i as int, k));
            assert(after.values() =~= before.values().insert(i as int, value));
            assert forall|a: int, b: int| 0 <= a < b < ak.len() implies key_lt(ak[a], ak[b]) by {
                if a == i {
                    assert(ak[b] == bk[b - 1]);
                } else if b == i {
                    assert(ak[a] == bk[a]);
                } else {
                    let a0 = if a < i { a } else { a - 1 };
                    let b0 = if b < i { b } else { b - 1 };
                    assert(ak[a] == bk[a0] && ak[b] == bk[b0]);
                }
            }
            if before@.contains_key(k) {
                let j = bk.index_of(k);
                lemma_key_lt_order(k, k, k);
                if j < i {
                    assert(key_lt(bk[j], k));
                } else {
                    assert(key_lt(k, bk[j]));
                }
            }
            assert(after@ =~= before@.insert(k, value)) by {
                assert forall|x: Seq<char>| after@.contains_key(x) <==> before@.insert(
                    k,
                    value,
                ).contains_key(x) by {
                    if after@.contains_key(x) {
                        let j = ak.index_of(x);
                        if j < i {
                            assert(bk[j] == x);
                        } else if j > i {
                            assert(bk[j - 1] == x);
                        }
                    }
                    if before@.contains_key(x) {
                        let j = bk.index_of(x);
                        if j < i {
                            assert(ak[j] == x);
                        } else {
                            assert(ak[j + 1] == x);
                        }
                    }
                    if x == k {
                        assert(ak[i as int] == x);
                    }
                }
                assert forall|x: Seq<char>| #[trigger] after@.contains_key(x) implies after@[x]
                    == before@.insert(k, value)[x] by {
                    let j = ak.index_of(x);
                    after.lemma_entry(j);
                    if j < i {
                        before.lemma_entry(j);
                    } else if j > i {
                        before.lemma_entry(j - 1);
                    }
                }
            }
        }
    }

    /// Binds `key` to `value`, replacing the value that `key` had.
    pub fn insert(&mut self, key: String, value: V)
        requires
            old(self).wf(),
        ensures
            final(self).wf(),
            final(self)@ == old(self)@.insert(key@, value),
    {
        let (i, found) = self.find(key.as_str());
        if found {
            self.set_value_at(i, value);
        } else {
            self.insert_at(i, key, value);
        }
    }
}

} // verus!
