//! A map from strings to values, kept as a list of entries with distinct keys.
use vstd::prelude::*;
use crate::text::str_eq;

verus! {

/// A map keyed by strings. Its entries are kept in the order in which their keys were first
/// inserted; no key occurs twice.
#[derive(Debug)]
pub struct StrMap<V> {
    entries: Vec<(String, V)>,
}

impl<V> StrMap<V> {
    /// No two entries have the same key.
    pub closed spec fn wf(self) -> bool {
        forall|i: int, j: int|
            0 <= i < self.entries@.len() && 0 <= j < self.entries@.len() && i != j
                ==> #[trigger] self.entries@[i].0@ != #[trigger] self.entries@[j].0@
    }

    /// Whether some entry has the key `k`.
    pub closed spec fn has(self, k: Seq<char>) -> bool {
        exists|i: int| 0 <= i < self.entries@.len() && #[trigger] self.entries@[i].0@ == k
    }

    /// The position of the entry with key `k`.
    pub closed spec fn position(self, k: Seq<char>) -> int {
        choose|i: int| 0 <= i < self.entries@.len() && #[trigger] self.entries@[i].0@ == k
    }

    /// The map that the entries describe.
    pub closed spec fn map(self) -> Map<Seq<char>, V> {
        Map::new(|k: Seq<char>| self.has(k), |k: Seq<char>| self.entries@[self.position(k)].1)
    }

    /// The keys of the entries, in order.
    pub closed spec fn key_seq(self) -> Seq<Seq<char>> {
        self.entries@.map_values(|e: (String, V)| e.0@)
    }

    proof fn lemma_at(self, i: int)
        requires
            self.wf(),
            0 <= i < self.entries@.len(),
        ensures
            self.map().contains_key(self.entries@[i].0@),
            self.map()[self.entries@[i].0@] == self.entries@[i].1,
    {
        let k = self.entries@[i].0@;
        assert(self.has(k));
        let p = self.position(k);
        assert(self.entries@[p].0@ == k);
    }

    /// An empty map.
    pub fn new() -> (r: Self)
        ensures
            r.wf(),
            r.map() == Map::<Seq<char>, V>::empty(),
    {
        let r = StrMap { entries: Vec::new() };
        assert(r.map() =~= Map::<Seq<char>, V>::empty());
        r
    }

    /// The number of entries.
    pub fn len(&self) -> (r: usize)
        requires
            self.wf(),
        ensures
            r == self.map().dom().len(),
    {
        proof {
            self.lemma_len();
        }
        self.entries.len()
    }

    proof fn lemma_len(self)
        requires
            self.wf(),
        ensures
            self.map().dom().len() == self.entries@.len(),
            self.map().dom() == self.key_seq().to_set(),
            self.key_seq().no_duplicates(),
    {
        let ks = self.key_seq();
        assert(ks.no_duplicates()) by {
            assert forall|i: int, j: int| 0 <= i < ks.len() && 0 <= j < ks.len() && i != j
                implies ks[i] != ks[j] by {
                assert(ks[i] == self.entries@[i].0@);
                assert(ks[j] == self.entries@[j].0@);
            }
        }
        assert(self.map().dom() =~= ks.to_set()) by {
            assert forall|k: Seq<char>| self.map().dom().contains(k) implies ks.to_set().contains(k) by {
                let p = self.position(k);
                assert(ks[p] == k);
            }
            assert forall|k: Seq<char>| ks.to_set().contains(k) implies self.map().dom().contains(k) by {
                let i = choose|i: int| 0 <= i < ks.len() && ks[i] == k;
                assert(self.entries@[i].0@ == k);
            }
        }
        ks.unique_seq_to_set();
    }

    /// The value stored under `key`.
    pub fn get(&self, key: &str) -> (r: Option<&V>)
        requires
            self.wf(),
        ensures
            match r {
                Some(v) => self.map().contains_key(key@) && self.map()[key@] == *v,
                None => !self.map().contains_key(key@),
            },
    {
        match self.find(key) {
            Some(i) => {
                proof {
                    self.lemma_at(i as int);
                }
                Some(&self.entries[i].1)
            },
            None => None,
        }
    }

    /// The position of the entry with key `key`, if there is one.
    fn find(&self, key: &str) -> (r: Option<usize>)
        requires
            self.wf(),
        ensures
            match r {
                Some(i) => i < self.entries@.len() && self.entries@[i as int].0@ == key@,
                None => forall|j: int| 0 <= j < self.entries@.len() ==> self.entries@[j].0@ != key@,
            },
    {
        let mut i: usize = 0;
        while i < self.entries.len()
            invariant
                i <= self.entries@.len(),
                forall|j: int| 0 <= j < i ==> self.entries@[j].0@ != key@,
            decreases self.entries@.len() - i,
        {
            if str_eq(self.entries[i].0.as_str(), key) {
                return Some(i);
            }
            i = i + 1;
        }
        None
    }

    /// Stores `value` under `key`, replacing what was stored there.
    pub fn insert(&mut self, key: String, value: V)
        requires
            old(self).wf(),
        ensures
            final(self).wf(),
            final(self).map() == old(self).map().insert(key@, value),
    {
        let ghost old_map = self.map();
        let found = self.find(key.as_str());
        if let Some(i) = found {
            let ghost old_self = *self;
            let ghost k = key@;
            let ghost v = value;
            self.entries.set(i, (key, value));
            proof {
                assert(self.wf()) by {
                    assert forall|a: int, b: int|
                        0 <= a < self.entries@.len() && 0 <= b < self.entries@.len() && a != b
                        implies #[trigger] self.entries@[a].0@ != #[trigger] self.entries@[b].0@ by {
                        assert(old_self.entries@[a].0@ != old_self.entries@[b].0@);
                    }
                }
                assert(self.map() =~= old_map.insert(k, v)) by {
                    assert forall|q: Seq<char>| #[trigger] self.map().contains_key(q)
                        <==> old_map.insert(k, v).contains_key(q) by {
                        if self.has(q) {
                            let p = choose|p: int| 0 <= p < self.entries@.len() && #[trigger] self.entries@[p].0@ == q;
                            if p != i {
                                assert(old_self.entries@[p].0@ == q);
                            }
                        }
                        if old_self.has(q) {
                            let p = choose|p: int| 0 <= p < old_self.entries@.len() && #[trigger] old_self.entries@[p].0@ == q;
                            assert(self.entries@[p].0@ == q);
                        }
                        if q == k {
                            assert(self.entries@[i as int].0@ == q);
                        }
                    }
                    assert forall|q: Seq<char>| #[trigger] self.map().contains_key(q)
                        implies self.map()[q] == old_map.insert(k, v)[q] by {
                        let p = self.position(q);
                        if q == k {
                            assert(p == i);
                        } else {
                            assert(p != i);
                            assert(old_self.entries@[p].0@ == q);
                            old_self.lemma_at(p);
                        }
                    }
                }
            }
            return;
        }
        let ghost old_self = *self;
        let ghost k = key@;
        let ghost v = value;
        self.entries.push((key, value));
        proof {
            let n = old_self.entries@.len() as int;
            assert(self.wf()) by {
                assert forall|a: int, b: int|
                    0 <= a < self.entries@.len() && 0 <= b < self.entries@.len() && a != b
                    implies #[trigger] self.entries@[a].0@ != #[trigger] self.entries@[b].0@ by {
                    if a < n && b < n {
                        assert(old_self.entries@[a].0@ != old_self.entries@[b].0@);
                    }
                }
            }
            assert(self.map() =~= old_map.insert(k, v)) by {
                assert forall|q: Seq<char>| #[trigger] self.map().contains_key(q)
                    <==> old_map.insert(k, v).contains_key(q) by {
                    if self.has(q) {
                        let p = choose|p: int| 0 <= p < self.entries@.len() && #[trigger] self.entries@[p].0@ == q;
                        if p != n {
                            assert(old_self.entries@[p].0@ == q);
                        }
                    }
                    if old_self.has(q) {
                        let p = choose|p: int| 0 <= p < old_self.entries@.len() && #[trigger] old_self.entries@[p].0@ == q;
                        assert(self.entries@[p].0@ == q);
                    }
                    if q == k {
                        assert(self.entries@[n].0@ == q);
                    }
                }
                assert forall|q: Seq<char>| #[trigger] self.map().contains_key(q)
                    implies self.map()[q] == old_map.insert(k, v)[q] by {
                    let p = self.position(q);
                    if q == k {
                        assert(p == n);
                    } else {
                        assert(p != n);
                        assert(old_self.entries@[p].0@ == q);
                        old_self.lemma_at(p);
                    }
                }
            }
        }
    }

    /// The entries, each key with its value, in the order in which the keys were first inserted.
    pub fn entries(&self) -> (r: &Vec<(String, V)>)
        requires
            self.wf(),
        ensures
            r@.len() == self.map().dom().len(),
            forall|i: int| 0 <= i < r@.len() ==> #[trigger] self.map().contains_key(r@[i].0@)
                && self.map()[r@[i].0@] == r@[i].1,
            forall|i: int, j: int| 0 <= i < r@.len() && 0 <= j < r@.len() && i != j
                ==> #[trigger] r@[i].0@ != #[trigger] r@[j].0@,
    {
        proof {
            self.lemma_len();
            assert forall|i: int| 0 <= i < self.entries@.len() implies #[trigger] self.map().contains_key(self.entries@[i].0@)
                && self.map()[self.entries@[i].0@] == self.entries@[i].1 by {
                self.lemma_at(i);
            }
        }
        &self.entries
    }
}

impl<V> View for StrMap<V> {
    type V = Map<Seq<char>, V>;

    open spec fn view(&self) -> Map<Seq<char>, V> {
        self.map()
    }
}

} // verus!
