//! A map keyed by texts whose entries stand in the order of their keys.

use vstd::prelude::*;

use crate::text;
use crate::text::{same_text, text_before};

verus! {

/// A map from texts to values; its entries are in the order of their keys.
#[derive(Debug)]
pub struct SortedMap<V> {
    entries: Vec<(String, V)>,
}

impl<V> View for SortedMap<V> {
    type V = Map<Seq<char>, V>;

    closed spec fn view(&self) -> Map<Seq<char>, V> {
        Map::new(
            |k: Seq<char>| exists|i: int| self.has_at(i, k),
            |k: Seq<char>| self.entries@[choose|i: int| self.has_at(i, k)].1,
        )
    }
}

impl<V> SortedMap<V> {
    /// Whether the entry at `i` is that of `k`.
    spec fn has_at(&self, i: int, k: Seq<char>) -> bool {
        0 <= i < self.entries@.len() && self.entries@[i].0@ == k
    }

    /// The keys, in order.
    pub closed spec fn keys(&self) -> Seq<Seq<char>> {
        self.entries@.map_values(|e: (String, V)| e.0@)
    }

    /// The values, in the order of their keys.
    pub closed spec fn values(&self) -> Seq<V> {
        self.entries@.map_values(|e: (String, V)| e.1)
    }

    /// Whether every key stands before the next.
    pub closed spec fn wf(&self) -> bool {
        forall|i: int, j: int|
            0 <= i < j < self.entries@.len() ==> text::text_lt(
                #[trigger] self.entries@[i].0@,
                #[trigger] self.entries@[j].0@,
            )
    }

    /// The entry at `i` is the one of its key.
    proof fn lemma_at(&self, i: int)
        requires
            self.wf(),
            0 <= i < self.entries@.len(),
        ensures
            self@.contains_key(self.entries@[i].0@),
            self@[self.entries@[i].0@] == self.entries@[i].1,
    {
        let k = self.entries@[i].0@;
        assert(self.has_at(i, k));
        let j = choose|j: int| self.has_at(j, k);
        text::lemma_text_lt_irreflexive(k);
    }

    /// What the keys and values say of the map: the keys are those of the map,
    /// each before the next, and the values stand at the same places.
    pub proof fn lemma_keys(&self)
        requires
            self.wf(),
        ensures
            self.keys().len() == self.values().len(),
            forall|i: int, j: int|
                0 <= i < j < self.keys().len() ==> text::text_lt(
                    #[trigger] self.keys()[i],
                    #[trigger] self.keys()[j],
                ),
            forall|k: Seq<char>| #[trigger] self@.contains_key(k) <==> self.keys().contains(k),
            forall|i: int|
                0 <= i < self.keys().len() ==> self@[#[trigger] self.keys()[i]] == self.values()[i],
    {
        assert forall|k: Seq<char>| #[trigger] self@.contains_key(k) <==> self.keys().contains(
            k,
        ) by {
            if self@.contains_key(k) {
                let i = choose|i: int| self.has_at(i, k);
                assert(self.keys()[i] == k);
            }
            if self.keys().contains(k) {
                let i = choose|i: int| 0 <= i < self.keys().len() && self.keys()[i] == k;
                assert(self.has_at(i, k));
            }
        }
        assert forall|i: int| 0 <= i < self.keys().len() implies self@[#[trigger] self.keys()[i]]
            == self.values()[i] by {
            self.lemma_at(i);
        }
        assert forall|i: int, j: int| 0 <= i < j < self.keys().len() implies text::text_lt(
            #[trigger] self.keys()[i],
            #[trigger] self.keys()[j],
        ) by {
            assert(self.keys()[i] == self.entries@[i].0@);
            assert(self.keys()[j] == self.entries@[j].0@);
        }
    }

    /// The map has as many keys as there are.
    pub proof fn lemma_len(&self)
        requires
            self.wf(),
        ensures
            self@.dom().finite(),
            self@.dom().len() == self.keys().len(),
    {
        self.lemma_keys();
        let keys = self.keys();
        assert(keys.no_duplicates()) by {
            assert forall|i: int, j: int| 0 <= i < keys.len() && 0 <= j < keys.len() && i
                != j implies keys[i] != keys[j] by {
                text::lemma_text_lt_irreflexive(keys[i]);
                text::lemma_text_lt_irreflexive(keys[j]);
            }
        }
        keys.unique_seq_to_set();
        assert(self@.dom() =~= keys.to_set());
    }

    /// A map without entries.
    pub fn new() -> (m: SortedMap<V>)
        ensures
            m.wf(),
            m@ == Map::<Seq<char>, V>::empty(),
    {
        let m: SortedMap<V> = SortedMap { entries: Vec::new() };
        assert(m@ =~= Map::<Seq<char>, V>::empty());
        m
    }

    /// The number of entries.
    pub fn len(&self) -> (n: usize)
        ensures
            n == self.keys().len(),
    {
        self.entries.len()
    }

    /// The key of the entry at `i`.
    pub fn key_at(&self, i: usize) -> (k: &String)
        requires
            i < self.keys().len(),
        ensures
            k@ == self.keys()[i as int],
    {
        &self.entries[i].0
    }

    /// The value of the entry at `i`.
    pub fn value_at(&self, i: usize) -> (v: &V)
        requires
            i < self.keys().len(),
        ensures
            *v == self.values()[i as int],
    {
        &self.entries[i].1
    }

    /// The first entry whose key is not before `key`.
    fn position(&self, key: &str) -> (i: usize)
        requires
            self.wf(),
        ensures
            i <= self.entries@.len(),
            forall|j: int| 0 <= j < i ==> text::text_lt(#[trigger] self.entries@[j].0@, key@),
            i < self.entries@.len() ==> !text::text_lt(self.entries@[i as int].0@, key@),
    {
        let mut lo: usize = 0;
        let mut hi: usize = self.entries.len();
        while lo < hi
            invariant
                self.wf(),
                lo <= hi <= self.entries@.len(),
                forall|j: int| 0 <= j < lo ==> text::text_lt(#[trigger] self.entries@[j].0@, key@),
                forall|j: int|
                    hi <= j < self.entries@.len() ==> !text::text_lt(
                        #[trigger] self.entries@[j].0@,
                        key@,
                    ),
            decreases hi - lo,
        {
            let mid: usize = lo + (hi - lo) / 2;
            let ghost m = self.entries@[mid as int].0@;
            if text_before(self.entries[mid].0.as_str(), key) {
                assert forall|j: int| 0 <= j < mid + 1 implies text::text_lt(
                    #[trigger] self.entries@[j].0@,
                    key@,
                ) by {
                    if j < mid {
                        text::lemma_text_lt_transitive(self.entries@[j].0@, m, key@);
                    }
                }
                lo = mid + 1;
            } else {
                assert forall|j: int| mid <= j < self.entries@.len() implies !text::text_lt(
                    #[trigger] self.entries@[j].0@,
                    key@,
                ) by {
                    if j > mid && text::text_lt(self.entries@[j].0@, key@) {
                        text::lemma_text_lt_transitive(m, self.entries@[j].0@, key@);
                    }
                }
                hi = mid;
            }
        }
        lo
    }

    /// No entry but the one at its position can be that of a key.
    proof fn lemma_position(&self, key: Seq<char>, i: int)
        requires
            self.wf(),
            0 <= i <= self.entries@.len(),
            forall|j: int| 0 <= j < i ==> text::text_lt(#[trigger] self.entries@[j].0@, key),
            i < self.entries@.len() ==> !text::text_lt(self.entries@[i].0@, key),
        ensures
            i < self.entries@.len() && self.entries@[i].0@ == key ==> self@.contains_key(key)
                && self@[key] == self.entries@[i].1,
            !(i < self.entries@.len() && self.entries@[i].0@ == key) ==> !self@.contains_key(key),
            i < self.entries@.len() && self.entries@[i].0@ != key ==> text::text_lt(
                key,
                self.entries@[i].0@,
            ),
    {
        text::lemma_text_lt_irreflexive(key);
        if i < self.entries@.len() {
            text::lemma_text_lt_total(self.entries@[i].0@, key);
            if self.entries@[i].0@ == key {
                self.lemma_at(i);
            }
        }
        if !(i < self.entries@.len() && self.entries@[i].0@ == key) && self@.contains_key(key) {
            let j = choose|j: int| self.has_at(j, key);
            if j > i {
                text::lemma_text_lt_transitive(key, self.entries@[i].0@, self.entries@[j].0@);
            }
        }
    }

    /// The value of `key`.
    pub fn get(&self, key: &str) -> (value: Option<&V>)
        requires
            self.wf(),
        ensures
            match value {
                Some(v) => self@.contains_key(key@) && self@[key@] == *v,
                None => !self@.contains_key(key@),
            },
    {
        let i: usize = self.position(key);
        proof {
            self.lemma_position(key@, i as int);
        }
        if i < self.entries.len() && same_text(self.entries[i].0.as_str(), key) {
            Some(&self.entries[i].1)
        } else {
            None
        }
    }

    /// Whether there is an entry of `key`.
    pub fn contains_key(&self, key: &str) -> (b: bool)
        requires
            self.wf(),
        ensures
            b == self@.contains_key(key@),
    {
        self.get(key).is_some()
    }

    /// Sets the value of `key`.
    pub fn insert(&mut self, key: &str, value: V)
        requires
            old(self).wf(),
        ensures
            final(self).wf(),
            final(self)@ == old(self)@.insert(key@, value),
    {
        let i: usize = self.position(key);
        let ghost before = *self;
        proof {
            self.lemma_position(key@, i as int);
        }
        if i < self.entries.len() && same_text(self.entries[i].0.as_str(), key) {
            let name: String = self.entries[i].0.clone();
            self.entries.set(i, (name, value));
            proof {
                assert(self.wf()) by {
                    assert forall|a: int, b: int|
                        0 <= a < b < self.entries@.len() implies text::text_lt(
                        #[trigger] self.entries@[a].0@,
                        #[trigger] self.entries@[b].0@,
                    ) by {
                        assert(self.entries@[a].0@ == before.entries@[a].0@);
                        assert(self.entries@[b].0@ == before.entries@[b].0@);
                    }
                }
                self.lemma_at(i as int);
                assert forall|k: Seq<char>| k != key@ implies (#[trigger] self@.contains_key(k)
                    <==> before@.contains_key(k)) && (before@.contains_key(k) ==> self@[k]
                    == before@[k]) by {
                    if self@.contains_key(k) {
                        let j = choose|j: int| self.has_at(j, k);
                        assert(before.has_at(j, k));
                        before.lemma_at(j);
                        self.lemma_at(j);
                    }
                    if before@.contains_key(k) {
                        let j = choose|j: int| before.has_at(j, k);
                        assert(self.has_at(j, k));
                    }
                }
                assert(self@ =~= before@.insert(key@, value));
            }
        } else {
            self.entries.insert(i, (key.to_owned(), value));
            proof {
                let e = self.entries@;
                let f = before.entries@;
                assert(self.wf()) by {
                    assert forall|a: int, b: int| 0 <= a < b < e.len() implies text::text_lt(
                        #[trigger] e[a].0@,
                        #[trigger] e[b].0@,
                    ) by {
                        if a < i && b > i {
                            assert(e[a].0@ == f[a].0@);
                            assert(e[b].0@ == f[b - 1].0@);
                        } else if b < i {
                            assert(e[a].0@ == f[a].0@);
                            assert(e[b].0@ == f[b].0@);
                        } else if a > i {
                            assert(e[a].0@ == f[a - 1].0@);
                            assert(e[b].0@ == f[b - 1].0@);
                        } else if a == i {
                            assert(e[b].0@ == f[b - 1].0@);
                            if b - 1 > i {
                                text::lemma_text_lt_transitive(key@, f[i as int].0@, f[b - 1].0@);
                            }
                        } else {
                            assert(e[a].0@ == f[a].0@);
                        }
                    }
                }
                self.lemma_at(i as int);
                assert forall|k: Seq<char>| k != key@ implies (#[trigger] self@.contains_key(k)
                    <==> before@.contains_key(k)) && (before@.contains_key(k) ==> self@[k]
                    == before@[k]) by {
                    if self@.contains_key(k) {
                        let j = choose|j: int| self.has_at(j, k);
                        let j0 = if j < i {
                            j
                        } else {
                            j - 1
                        };
                        assert(before.has_at(j0, k));
                        before.lemma_at(j0);
                        self.lemma_at(j);
                    }
                    if before@.contains_key(k) {
                        let j = choose|j: int| before.has_at(j, k);
                        let j1 = if j < i {
                            j
                        } else {
                            j + 1
                        };
                        assert(self.has_at(j1, k));
                    }
                }
                assert(self@ =~= before@.insert(key@, value));
            }
        }
    }
}

} // verus!
