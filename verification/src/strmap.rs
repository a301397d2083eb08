//! A map keyed by strings, kept as an association list in insertion order.
use crate::text::str_eq;
use vstd::prelude::*;

verus! {

/// A map from strings to values; each key occurs once, in the order it was first inserted.
#[derive(Debug)]
pub struct StrMap<V> {
    keys: Vec<String>,
    vals: Vec<V>,
}

/// The value bound to `k` in the association list `ks`/`vs`, searching from index `i`.
pub open spec fn lookup_from<V>(ks: Seq<Seq<char>>, vs: Seq<V>, k: Seq<char>, i: int) -> Option<V>
    decreases ks.len() - i,
{
    if i < 0 || i >= ks.len() {
        None
    } else if ks[i] == k {
        Some(vs[i])
    } else {
        lookup_from(ks, vs, k, i + 1)
    }
}

impl<V> StrMap<V> {
    /// The keys, in insertion order.
    pub closed spec fn key_seq(&self) -> Seq<Seq<char>> {
        self.keys@.map_values(|s: String| s@)
    }

    /// Keys and values are aligned and no key occurs twice.
    pub closed spec fn wf(&self) -> bool {
        &&& self.keys@.len() == self.vals@.len()
        &&& forall|i: int, j: int|
            0 <= i < j < self.keys@.len() ==> self.keys@[i]@ != self.keys@[j]@
    }

    /// The value bound to `k`.
    pub closed spec fn lookup(&self, k: Seq<char>) -> Option<V> {
        lookup_from(self.key_seq(), self.vals@, k, 0)
    }

    /// The abstract map.
    pub open spec fn view(&self) -> Map<Seq<char>, V> {
        Map::new(|k: Seq<char>| self.lookup(k) is Some, |k: Seq<char>| self.lookup(k)->0)
    }

    proof fn lemma_lookup(&self, k: Seq<char>, i: int)
        requires
            self.wf(),
            0 <= i <= self.keys@.len(),
            forall|j: int| 0 <= j < i ==> self.keys@[j]@ != k,
        ensures
            self.lookup(k) == lookup_from(self.key_seq(), self.vals@, k, i),
        decreases i,
    {
        if i > 0 {
            assert(self.key_seq()[i - 1] == self.keys@[i - 1]@);
            self.lemma_lookup(k, i - 1);
        }
    }

    proof fn lemma_lookup_at(&self, k: Seq<char>, i: int)
        requires
            self.wf(),
            0 <= i < self.keys@.len(),
            self.keys@[i]@ == k,
        ensures
            self.lookup(k) == Some(self.vals@[i]),
    {
        assert forall|j: int| 0 <= j < i implies self.keys@[j]@ != k by {}
        self.lemma_lookup(k, i);
        assert(self.key_seq()[i] == k);
    }

    proof fn lemma_lookup_none(&self, k: Seq<char>)
        requires
            self.wf(),
            forall|j: int| 0 <= j < self.keys@.len() ==> self.keys@[j]@ != k,
        ensures
            self.lookup(k) is None,
    {
        self.lemma_lookup(k, self.keys@.len() as int);
    }

    /// An empty map.
    pub fn new() -> (m: Self)
        ensures
            m.wf(),
            m@ == Map::<Seq<char>, V>::empty(),
    {
        let m = StrMap { keys: Vec::new(), vals: Vec::new() };
        assert(m@ =~= Map::<Seq<char>, V>::empty());
        m
    }

    fn index_of(&self, k: &str) -> (r: Option<usize>)
        requires
            self.wf(),
        ensures
            match r {
                Some(i) => i < self.keys@.len() && self.keys@[i as int]@ == k@,
                None => forall|j: int| 0 <= j < self.keys@.len() ==> self.keys@[j]@ != k@,
            },
    {
        let mut i: usize = 0;
        while i < self.keys.len()
            invariant
                i <= self.keys@.len(),
                forall|j: int| 0 <= j < i ==> self.keys@[j]@ != k@,
            decreases self.keys@.len() - i,
        {
            if str_eq(self.keys[i].as_str(), k) {
                return Some(i);
            }
            i = i + 1;
        }
        None
    }

    /// The number of keys.
    pub fn len(&self) -> (n: usize)
        requires
            self.wf(),
        ensures
            n == self@.dom().len(),
    {
        proof {
            self.lemma_dom();
        }
        self.keys.len()
    }

    proof fn lemma_dom(&self)
        requires
            self.wf(),
        ensures
            self@.dom() == self.key_seq().to_set(),
            self.key_seq().no_duplicates(),
            self@.dom().len() == self.keys@.len(),
    {
        assert forall|k: Seq<char>| self@.dom().contains(k) <==> self.key_seq().to_set().contains(k) by {
            if self.key_seq().contains(k) {
                let i = choose|i: int| 0 <= i < self.key_seq().len() && self.key_seq()[i] == k;
                self.lemma_lookup_at(k, i);
            } else {
                assert forall|j: int| 0 <= j < self.keys@.len() implies self.keys@[j]@ != k by {
                    assert(self.key_seq()[j] == self.keys@[j]@);
                }
                self.lemma_lookup_none(k);
            }
        }
        assert(self@.dom() =~= self.key_seq().to_set());
        assert(self.key_seq().no_duplicates()) by {
            assert forall|i: int, j: int| 0 <= i < self.key_seq().len() && 0 <= j < self.key_seq().len() && i != j implies self.key_seq()[i] != self.key_seq()[j] by {
                if i < j {
                    assert(self.keys@[i]@ != self.keys@[j]@);
                } else {
                    assert(self.keys@[j]@ != self.keys@[i]@);
                }
            }
        }
        self.key_seq().unique_seq_to_set();
    }

    /// The value bound to `k`, if any.
    pub fn get(&self, k: &str) -> (r: Option<&V>)
        requires
            self.wf(),
        ensures
            match r {
                Some(v) => self@.dom().contains(k@) && self@[k@] == *v,
                None => !self@.dom().contains(k@),
            },
    {
        match self.index_of(k) {
            Some(i) => {
                proof {
                    self.lemma_lookup_at(k@, i as int);
                }
                Some(&self.vals[i])
            },
            None => {
                proof {
                    self.lemma_lookup_none(k@);
                }
                None
            },
        }
    }

    /// `k` is bound.
    pub fn contains_key(&self, k: &str) -> (b: bool)
        requires
            self.wf(),
        ensures
            b == self@.dom().contains(k@),
    {
        match self.get(k) {
            Some(_) => true,
            None => false,
        }
    }

    /// Binds `k` to `v`, replacing an earlier binding; a new key goes last.
    pub fn insert(&mut self, k: String, v: V)
        requires
            old(self).wf(),
        ensures
            final(self).wf(),
            final(self)@ == old(self)@.insert(k@, v),
    {
        let ghost k0 = k@;
        match self.index_of(k.as_str()) {
            Some(i) => {
                let ghost old_self = *self;
                self.vals.set(i, v);
                proof {
                    assert(self.keys@ == old_self.keys@);
                    assert forall|key: Seq<char>| #[trigger] self.lookup(key) == (if key == k0 { Some(v) } else { old_self.lookup(key) }) by {
                        if key == k0 {
                            self.lemma_lookup_at(key, i as int);
                        } else if old_self.key_seq().contains(key) {
                            let j = choose|j: int| 0 <= j < old_self.key_seq().len() && old_self.key_seq()[j] == key;
                            assert(old_self.keys@[j]@ == key);
                            old_self.lemma_lookup_at(key, j);
                            self.lemma_lookup_at(key, j);
                        } else {
                            assert forall|j: int| 0 <= j < self.keys@.len() implies self.keys@[j]@ != key by {
                                assert(old_self.key_seq()[j] == self.keys@[j]@);
                            }
                            assert forall|j: int| 0 <= j < old_self.keys@.len() implies old_self.keys@[j]@ != key by {
                                assert(old_self.key_seq()[j] == old_self.keys@[j]@);
                            }
                            old_self.lemma_lookup_none(key);
                            self.lemma_lookup_none(key);
                        }
                    }
                    assert(self@ =~= old_self@.insert(k0, v));
                }
            },
            None => {
                let ghost old_self = *self;
                self.keys.push(k);
                self.vals.push(v);
                proof {
                    let n = old_self.keys@.len() as int;
                    assert forall|key: Seq<char>| #[trigger] self.lookup(key) == (if key == k0 { Some(v) } else { old_self.lookup(key) }) by {
                        if key == k0 {
                            self.lemma_lookup_at(key, n);
                        } else if old_self.key_seq().contains(key) {
                            let j = choose|j: int| 0 <= j < old_self.key_seq().len() && old_self.key_seq()[j] == key;
                            assert(old_self.keys@[j]@ == key);
                            old_self.lemma_lookup_at(key, j);
                            self.lemma_lookup_at(key, j);
                        } else {
                            assert forall|j: int| 0 <= j < self.keys@.len() implies self.keys@[j]@ != key by {
                                if j < n {
                                    assert(old_self.key_seq()[j] == self.keys@[j]@);
                                }
                            }
                            assert forall|j: int| 0 <= j < old_self.keys@.len() implies old_self.keys@[j]@ != key by {
                                assert(old_self.key_seq()[j] == old_self.keys@[j]@);
                            }
                            old_self.lemma_lookup_none(key);
                            self.lemma_lookup_none(key);
                        }
                    }
                    assert(self@ =~= old_self@.insert(k0, v));
                }
            },
        }
    }

    /// Removes the binding of `k`, if any.
    pub fn remove(&mut self, k: &str)
        requires
            old(self).wf(),
        ensures
            final(self).wf(),
            final(self)@ == old(self)@.remove(k@),
    {
        match self.index_of(k) {
            Some(i) => {
                let ghost old_self = *self;
                self.keys.remove(i);
                self.vals.remove(i);
                proof {
                    assert forall|a: int, b: int| 0 <= a < b < self.keys@.len() implies self.keys@[a]@ != self.keys@[b]@ by {
                        let oa = if a < i { a } else { a + 1 };
                        let ob = if b < i { b } else { b + 1 };
                        assert(self.keys@[a] == old_self.keys@[oa]);
                        assert(self.keys@[b] == old_self.keys@[ob]);
                    }
                    assert forall|key: Seq<char>| #[trigger] self.lookup(key) == (if key == k@ { None } else { old_self.lookup(key) }) by {
                        if key == k@ {
                            assert forall|j: int| 0 <= j < self.keys@.len() implies self.keys@[j]@ != key by {
                                let oj = if j < i { j } else { j + 1 };
                                assert(self.keys@[j] == old_self.keys@[oj]);
                            }
                            self.lemma_lookup_none(key);
                        } else if old_self.key_seq().contains(key) {
                            let j = choose|j: int| 0 <= j < old_self.key_seq().len() && old_self.key_seq()[j] == key;
                            assert(old_self.keys@[j]@ == key);
                            old_self.lemma_lookup_at(key, j);
                            let nj = if j < i { j } else { j - 1 };
                            assert(j != i);
                            assert(self.keys@[nj] == old_self.keys@[j]);
                            assert(self.vals@[nj] == old_self.vals@[j]);
                            self.lemma_lookup_at(key, nj);
                        } else {
                            assert forall|j: int| 0 <= j < self.keys@.len() implies self.keys@[j]@ != key by {
                                let oj = if j < i { j } else { j + 1 };
                                assert(self.keys@[j] == old_self.keys@[oj]);
                                assert(old_self.key_seq()[oj] == old_self.keys@[oj]@);
                            }
                            assert forall|j: int| 0 <= j < old_self.keys@.len() implies old_self.keys@[j]@ != key by {
                                assert(old_self.key_seq()[j] == old_self.keys@[j]@);
                            }
                            old_self.lemma_lookup_none(key);
                            self.lemma_lookup_none(key);
                        }
                    }
                    assert(self@ =~= old_self@.remove(k@));
                }
            },
            None => {
                proof {
                    self.lemma_lookup_none(k@);
                    assert(self@ =~= self@.remove(k@));
                }
            },
        }
    }

    /// Removes every binding.
    pub fn clear(&mut self)
        ensures
            final(self).wf(),
            final(self)@ == Map::<Seq<char>, V>::empty(),
    {
        self.keys = Vec::new();
        self.vals = Vec::new();
        assert(self@ =~= Map::<Seq<char>, V>::empty());
    }

    /// The keys, in the order they were first inserted.
    pub fn keys(&self) -> (r: Vec<String>)
        requires
            self.wf(),
        ensures
            r@.map_values(|s: String| s@).to_set() == self@.dom(),
            r@.map_values(|s: String| s@).no_duplicates(),
    {
        proof {
            self.lemma_dom();
        }
        let mut out: Vec<String> = Vec::new();
        let mut i: usize = 0;
        while i < self.keys.len()
            invariant
                i <= self.keys@.len(),
                out@.map_values(|s: String| s@) == self.key_seq().take(i as int),
            decreases self.keys@.len() - i,
        {
            let ghost prev = out@.map_values(|s: String| s@);
            out.push(self.keys[i].clone());
            assert(out@.map_values(|s: String| s@) =~= prev.push(self.keys@[i as int]@));
            assert(self.key_seq().take(i + 1) =~= self.key_seq().take(i as int).push(self.keys@[i as int]@));
            i = i + 1;
        }
        assert(self.key_seq().take(self.keys@.len() as int) =~= self.key_seq());
        out
    }
}

} // verus!
