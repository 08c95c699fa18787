//! An insertion-ordered map from strings to values, the store behind
//! sessions, the cache and the pub/sub hub.

use vstd::prelude::*;
use crate::text::string_views;

verus! {

/// Pairs of key and value; no key occurs twice. Keys keep the order in which
/// they were first inserted.
pub struct KeyMap<V> {
    entries: Vec<(String, V)>,
}

/// Whether no key occurs twice among the entries.
pub open spec fn distinct_keys<V>(e: Seq<(String, V)>) -> bool {
    forall|i: int, j: int| 0 <= i < j < e.len() ==> #[trigger] e[i].0@ != #[trigger] e[j].0@
}

/// The index of the entry with key `k` (meaningful when there is one).
pub open spec fn index_of_key<V>(e: Seq<(String, V)>, k: Seq<char>) -> int {
    choose|i: int| 0 <= i < e.len() && e[i].0@ == k
}

/// Whether some entry has key `k`.
pub open spec fn has_key<V>(e: Seq<(String, V)>, k: Seq<char>) -> bool {
    exists|i: int| 0 <= i < e.len() && e[i].0@ == k
}

/// The map that a list of entries with distinct keys denotes.
pub open spec fn entries_map<V>(e: Seq<(String, V)>) -> Map<Seq<char>, V> {
    Map::new(|k: Seq<char>| has_key(e, k), |k: Seq<char>| e[index_of_key(e, k)].1)
}

/// The keys of the entries, in order.
pub open spec fn entry_keys<V>(e: Seq<(String, V)>) -> Seq<Seq<char>> {
    Seq::new(e.len(), |i: int| e[i].0@)
}

pub proof fn lemma_entry_at<V>(e: Seq<(String, V)>, i: int)
    requires
        distinct_keys(e),
        0 <= i < e.len(),
    ensures
        entries_map(e).contains_key(e[i].0@),
        entries_map(e)[e[i].0@] == e[i].1,
        index_of_key(e, e[i].0@) == i,
{
    assert(has_key(e, e[i].0@));
    let j = index_of_key(e, e[i].0@);
    if j != i {
        if j < i {
            assert(e[j].0@ != e[i].0@);
        } else {
            assert(e[i].0@ != e[j].0@);
        }
    }
}

impl<V> View for KeyMap<V> {
    type V = Map<Seq<char>, V>;

    closed spec fn view(&self) -> Map<Seq<char>, V> {
        entries_map(self.entries@)
    }
}

impl<V> KeyMap<V> {
    /// The store's internal consistency: no key occurs twice.
    pub closed spec fn wf(&self) -> bool {
        distinct_keys(self.entries@)
    }

    /// The keys, in first-insertion order.
    pub closed spec fn key_order(&self) -> Seq<Seq<char>> {
        entry_keys(self.entries@)
    }

    /// The keys in order are exactly the keys of the map, each once.
    pub proof fn lemma_key_order(&self)
        requires
            self.wf(),
        ensures
            self.key_order().no_duplicates(),
            forall|k: Seq<char>| self@.contains_key(k) <==> self.key_order().contains(k),
            self.key_order().len() == self@.len(),
    {
        let e = self.entries@;
        let ks = self.key_order();
        assert forall|k: Seq<char>| self@.contains_key(k) <==> ks.contains(k) by {
            if self@.contains_key(k) {
                let i = index_of_key(e, k);
                assert(ks[i] == k);
            }
            if ks.contains(k) {
                let i = choose|i: int| 0 <= i < ks.len() && ks[i] == k;
                assert(has_key(e, k));
            }
        }
        assert(ks.no_duplicates());
        ks.unique_seq_to_set();
        assert(self@.dom() =~= ks.to_set());
    }

    /// An empty map.
    pub fn new() -> (m: Self)
        ensures
            m.wf(),
            m@ == Map::<Seq<char>, V>::empty(),
            m.key_order() == Seq::<Seq<char>>::empty(),
    {
        let m = KeyMap { entries: Vec::new() };
        assert(m@ =~= Map::<Seq<char>, V>::empty());
        assert(m.key_order() =~= Seq::<Seq<char>>::empty());
        m
    }

    /// The number of keys.
    pub fn len(&self) -> (n: usize)
        requires
            self.wf(),
        ensures
            n == self@.len(),
    {
        proof {
            self.lemma_key_order();
        }
        self.entries.len()
    }

    fn find(&self, k: &str) -> (r: Option<usize>)
        requires
            self.wf(),
        ensures
            match r {
                Some(i) => i < self.entries@.len() && self.entries@[i as int].0@ == k@,
                None => !self@.contains_key(k@),
            },
    {
        let mut i: usize = 0;
        while i < self.entries.len()
            invariant
                i <= self.entries.len(),
                forall|j: int| 0 <= j < i ==> self.entries@[j].0@ != k@,
            decreases self.entries.len() - i,
        {
            if self.entries[i].0 == k.to_owned() {
                return Some(i);
            }
            i = i + 1;
        }
        None
    }

    /// The value stored under `k`.
    pub fn get(&self, k: &str) -> (r: Option<&V>)
        requires
            self.wf(),
        ensures
            match r {
                Some(v) => self@.contains_key(k@) && *v == self@[k@],
                None => !self@.contains_key(k@),
            },
    {
        match self.find(k) {
            Some(i) => {
                proof {
                    lemma_entry_at(self.entries@, i as int);
                }
                Some(&self.entries[i].1)
            },
            None => None,
        }
    }

    /// Whether `k` has a value.
    pub fn contains(&self, k: &str) -> (b: bool)
        requires
            self.wf(),
        ensures
            b == self@.contains_key(k@),
    {
        match self.find(k) {
            Some(i) => {
                proof {
                    lemma_entry_at(self.entries@, i as int);
                }
                true
            },
            None => false,
        }
    }

    /// Stores `v` under `k`, replacing any earlier value; a new key goes last.
    pub fn insert(&mut self, k: &str, v: V)
        requires
            old(self).wf(),
        ensures
            final(self).wf(),
            final(self)@ == old(self)@.insert(k@, v),
            old(self)@.contains_key(k@) ==> final(self).key_order() == old(self).key_order(),
            !old(self)@.contains_key(k@) ==> final(self).key_order() == old(self).key_order().push(
                k@,
            ),
    {
        let ghost e0 = self.entries@;
        match self.find(k) {
            Some(i) => {
                let key = k.to_owned();
                self.entries.set(i, (key, v));
                proof {
                    let e1 = self.entries@;
                    assert(distinct_keys(e1)) by {
                        assert forall|a: int, b: int| 0 <= a < b < e1.len() implies #[trigger] e1[a].0@
                            != #[trigger] e1[b].0@ by {
                            assert(e0[a].0@ != e0[b].0@);
                        }
                    }
                    assert(entries_map(e1) =~= entries_map(e0).insert(k@, v)) by {
                        assert forall|q: Seq<char>| #[trigger] has_key(e1, q) == (has_key(e0, q) || q == k@) by {
                            if has_key(e0, q) {
                                let j = choose|j: int| 0 <= j < e0.len() && e0[j].0@ == q;
                                assert(e1[j].0@ == q);
                            }
                            if has_key(e1, q) {
                                let j = choose|j: int| 0 <= j < e1.len() && e1[j].0@ == q;
                                if j != i {
                                    assert(e0[j].0@ == q);
                                }
                            }
                        }
                        assert forall|q: Seq<char>| has_key(e1, q) implies entries_map(e1)[q] == entries_map(e0).insert(k@, v)[q] by {
                            let j = index_of_key(e1, q);
                            lemma_entry_at(e1, j);
                            if q != k@ {
                                lemma_entry_at(e0, j);
                            }
                        }
                    }
                    assert(entry_keys(e1) =~= entry_keys(e0));
                }
            },
            None => {
                let key = k.to_owned();
                self.entries.push((key, v));
                proof {
                    let e1 = self.entries@;
                    assert(distinct_keys(e1)) by {
                        assert forall|a: int, b: int| 0 <= a < b < e1.len() implies #[trigger] e1[a].0@
                            != #[trigger] e1[b].0@ by {
                            if b == e0.len() {
                                assert(has_key(e0, e0[a].0@));
                            } else {
                                assert(e0[a].0@ != e0[b].0@);
                            }
                        }
                    }
                    assert(entries_map(e1) =~= entries_map(e0).insert(k@, v)) by {
                        assert forall|q: Seq<char>| #[trigger] has_key(e1, q) == (has_key(e0, q) || q == k@) by {
                            if has_key(e0, q) {
                                let j = choose|j: int| 0 <= j < e0.len() && e0[j].0@ == q;
                                assert(e1[j].0@ == q);
                            }
                            if q == k@ {
                                assert(e1[e0.len() as int].0@ == q);
                            }
                            if has_key(e1, q) {
                                let j = choose|j: int| 0 <= j < e1.len() && e1[j].0@ == q;
                                if j < e0.len() {
                                    assert(e0[j].0@ == q);
                                }
                            }
                        }
                        assert forall|q: Seq<char>| has_key(e1, q) implies entries_map(e1)[q] == entries_map(e0).insert(k@, v)[q] by {
                            let j = index_of_key(e1, q);
                            lemma_entry_at(e1, j);
                            if q != k@ {
                                lemma_entry_at(e0, j);
                            }
                        }
                    }
                    assert(entry_keys(e1) =~= entry_keys(e0).push(k@));
                }
            },
        }
    }

    /// Removes the value under `k`, returning it.
    pub fn remove(&mut self, k: &str) -> (r: Option<V>)
        requires
            old(self).wf(),
        ensures
            final(self).wf(),
            final(self)@ == old(self)@.remove(k@),
            match r {
                Some(v) => old(self)@.contains_key(k@) && v == old(self)@[k@],
                None => !old(self)@.contains_key(k@),
            },
            final(self).key_order() == old(self).key_order().remove_value(k@),
    {
        let ghost e0 = self.entries@;
        match self.find(k) {
            Some(i) => {
                proof {
                    lemma_entry_at(e0, i as int);
                }
                let (_, v) = self.entries.remove(i);
                proof {
                    let e1 = self.entries@;
                    assert(e1 =~= e0.remove(i as int));
                    assert(distinct_keys(e1)) by {
                        assert forall|a: int, b: int| 0 <= a < b < e1.len() implies #[trigger] e1[a].0@
                            != #[trigger] e1[b].0@ by {
                            let a0 = if a < i { a } else { a + 1 };
                            let b0 = if b < i { b } else { b + 1 };
                            assert(e1[a] == e0[a0] && e1[b] == e0[b0]);
                            assert(e0[a0].0@ != e0[b0].0@);
                        }
                    }
                    assert(entries_map(e1) =~= entries_map(e0).remove(k@)) by {
                        assert forall|q: Seq<char>| #[trigger] has_key(e1, q) == (has_key(e0, q) && q != k@) by {
                            if has_key(e0, q) && q != k@ {
                                let j = choose|j: int| 0 <= j < e0.len() && e0[j].0@ == q;
                                if j < i {
                                    assert(e1[j] == e0[j]);
                                } else {
                                    assert(j != i);
                                    assert(e1[j - 1] == e0[j]);
                                }
                            }
                            if has_key(e1, q) {
                                let j = choose|j: int| 0 <= j < e1.len() && e1[j].0@ == q;
                                let j0 = if j < i { j } else { j + 1 };
                                assert(e1[j] == e0[j0]);
                                assert(e0[j0].0@ != e0[i as int].0@);
                            }
                        }
                        assert forall|q: Seq<char>| has_key(e1, q) implies entries_map(e1)[q] == entries_map(e0)[q] by {
                            let j = index_of_key(e1, q);
                            lemma_entry_at(e1, j);
                            let j0 = if j < i { j } else { j + 1 };
                            assert(e1[j] == e0[j0]);
                            lemma_entry_at(e0, j0);
                        }
                    }
                    let ks0 = entry_keys(e0);
                    assert(ks0.index_of_first(k@) == Some(i as int)) by {
                        ks0.index_of_first_ensures(k@);
                        match ks0.index_of_first(k@) {
                            Some(f) => {
                                if f < i {
                                    assert(e0[f].0@ != e0[i as int].0@);
                                }
                                if f > i {
                                    assert(ks0[i as int] == k@);
                                }
                            },
                            None => {
                                assert(ks0[i as int] == k@);
                            },
                        }
                    }
                    assert(entry_keys(e1) =~= ks0.remove(i as int));
                }
                Some(v)
            },
            None => {
                proof {
                    let ks0 = entry_keys(e0);
                    ks0.index_of_first_ensures(k@);
                    match ks0.index_of_first(k@) {
                        Some(f) => {
                            assert(has_key(e0, k@));
                        },
                        None => {},
                    }
                    assert(entries_map(e0).remove(k@) =~= entries_map(e0));
                }
                None
            },
        }
    }

    /// Removes every key.
    pub fn clear(&mut self)
        ensures
            final(self).wf(),
            final(self)@ == Map::<Seq<char>, V>::empty(),
            final(self).key_order() == Seq::<Seq<char>>::empty(),
    {
        self.entries = Vec::new();
        assert(self@ =~= Map::<Seq<char>, V>::empty());
        assert(self.key_order() =~= Seq::<Seq<char>>::empty());
    }

    /// The number of entries, which is the length of the key order.
    pub fn entry_count(&self) -> (n: usize)
        ensures
            n == self.key_order().len(),
    {
        self.entries.len()
    }

    /// The key and value of the `i`-th entry in key order.
    pub fn entry_at(&self, i: usize) -> (r: (&String, &V))
        requires
            self.wf(),
            i < self.key_order().len(),
        ensures
            r.0@ == self.key_order()[i as int],
            self@.contains_key(r.0@),
            *r.1 == self@[r.0@],
    {
        proof {
            lemma_entry_at(self.entries@, i as int);
        }
        (&self.entries[i].0, &self.entries[i].1)
    }

    /// The keys, in first-insertion order.
    pub fn keys(&self) -> (ks: Vec<String>)
        requires
            self.wf(),
        ensures
            string_views(ks@) == self.key_order(),
    {
        let mut ks: Vec<String> = Vec::new();
        let mut i: usize = 0;
        while i < self.entries.len()
            invariant
                i <= self.entries.len(),
                string_views(ks@) == entry_keys(self.entries@).take(i as int),
            decreases self.entries.len() - i,
        {
            let ghost before = ks@;
            let k = self.entries[i].0.clone();
            ks.push(k);
            assert(string_views(ks@) =~= string_views(before).push(k@));
            i = i + 1;
            assert(string_views(ks@) =~= entry_keys(self.entries@).take(i as int));
        }
        assert(entry_keys(self.entries@).take(i as int) =~= entry_keys(self.entries@));
        ks
    }
}

} // verus!
