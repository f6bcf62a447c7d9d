//! A map from string keys to values, kept as a vector of entries sorted by
//! key.  Its model is a `Map<Seq<char>, V>`; its keys come out in ascending
//! order, which is the order in which rooms and devices are reported.
use vstd::prelude::*;

use crate::text::{lex_lt, lemma_lex_irreflexive, lemma_lex_total, lemma_lex_transitive, str_eq, str_lt};

verus! {

/// Entries sorted strictly by key: no key occurs twice.
pub struct KeyedVec<V> {
    names: Vec<String>,
    vals: Vec<V>,
}

/// `ks` is strictly ascending.
pub open spec fn strictly_sorted(ks: Seq<Seq<char>>) -> bool {
    forall|i: int, j: int| 0 <= i < j < ks.len() ==> lex_lt(#[trigger] ks[i], #[trigger] ks[j])
}

impl<V> KeyedVec<V> {
    /// The keys in ascending order.
    pub closed spec fn keys(&self) -> Seq<Seq<char>> {
        Seq::new(self.names@.len(), |i: int| self.names@[i]@)
    }

    /// The values, in the order of their keys.
    pub closed spec fn values(&self) -> Seq<V> {
        Seq::new(self.names@.len(), |i: int| self.vals@[i])
    }

    /// Well-formed: keys strictly ascending, one value per key.
    pub closed spec fn wf(&self) -> bool {
        &&& self.vals@.len() == self.names@.len()
        &&& forall|i: int, j: int|
            0 <= i < j < self.names@.len() ==> lex_lt(
                #[trigger] self.names@[i]@,
                #[trigger] self.names@[j]@,
            )
    }

    closed spec fn index_of(&self, k: Seq<char>) -> int {
        choose|i: int| 0 <= i < self.names@.len() && self.names@[i]@ == k
    }

    /// The model: each key mapped to its value.
    pub closed spec fn map(&self) -> Map<Seq<char>, V> {
        Map::new(
            |k: Seq<char>| exists|i: int| 0 <= i < self.names@.len() && self.names@[i]@ == k,
            |k: Seq<char>| self.vals@[self.index_of(k)],
        )
    }

    proof fn lemma_at(&self, i: int)
        requires
            self.wf(),
            0 <= i < self.names@.len(),
        ensures
            self.map().contains_key(self.names@[i]@),
            self.map()[self.names@[i]@] == self.vals@[i],
            self.index_of(self.names@[i]@) == i,
    {
        let k = self.names@[i]@;
        assert(exists|j: int| 0 <= j < self.names@.len() && self.names@[j]@ == k);
        let j = self.index_of(k);
        if j < i {
            assert(lex_lt(self.names@[j]@, self.names@[i]@));
            lemma_lex_irreflexive(k);
        } else if i < j {
            assert(lex_lt(self.names@[i]@, self.names@[j]@));
            lemma_lex_irreflexive(k);
        }
    }

    proof fn lemma_keys_match(&self)
        requires
            self.wf(),
        ensures
            self.keys().len() == self.names@.len(),
            strictly_sorted(self.keys()),
            self.keys().no_duplicates(),
            forall|k: Seq<char>| #[trigger] self.map().contains_key(k) <==> self.keys().contains(k),
            self.map().dom().finite(),
            self.map().dom().len() == self.keys().len(),
            forall|i: int| 0 <= i < self.names@.len() ==> #[trigger] self.map()[self.keys()[i]] == self.values()[i],
    {
        assert forall|k: Seq<char>| #[trigger] self.map().contains_key(k) implies self.keys().contains(k) by {
            let i = choose|i: int| 0 <= i < self.names@.len() && self.names@[i]@ == k;
            assert(self.keys()[i] == k);
        }
        assert forall|k: Seq<char>| self.keys().contains(k) implies #[trigger] self.map().contains_key(k) by {
            let i = choose|i: int| 0 <= i < self.keys().len() && self.keys()[i] == k;
            assert(self.names@[i]@ == k);
        }
        assert forall|i: int| 0 <= i < self.names@.len() implies #[trigger] self.map()[self.keys()[i]] == self.values()[i] by {
            self.lemma_at(i);
        }
        assert(self.keys().no_duplicates()) by {
            assert forall|i: int, j: int| 0 <= i < self.keys().len() && 0 <= j < self.keys().len() && i != j
                implies self.keys()[i] != self.keys()[j] by {
                if i < j {
                    assert(lex_lt(self.names@[i]@, self.names@[j]@));
                    lemma_lex_irreflexive(self.keys()[i]);
                } else {
                    assert(lex_lt(self.names@[j]@, self.names@[i]@));
                    lemma_lex_irreflexive(self.keys()[i]);
                }
            }
        }
        assert(self.map().dom() =~= self.keys().to_set());
        self.keys().unique_seq_to_set();
    }

    /// An empty map.
    pub fn new() -> (r: Self)
        ensures
            r.wf(),
            r.map() == Map::<Seq<char>, V>::empty(),
            r.keys() == Seq::<Seq<char>>::empty(),
    {
        let r = KeyedVec { names: Vec::new(), vals: Vec::new() };
        assert(r.map() =~= Map::<Seq<char>, V>::empty());
        assert(r.keys() =~= Seq::<Seq<char>>::empty());
        r
    }

    /// Number of entries.
    pub fn len(&self) -> (n: usize)
        requires
            self.wf(),
        ensures
            n == self.keys().len(),
            n == self.map().dom().len(),
    {
        proof {
            self.lemma_keys_match();
        }
        self.names.len()
    }

    /// Position of `key`, or the position where it would be inserted.
    fn find(&self, key: &str) -> (r: Result<usize, usize>)
        requires
            self.wf(),
        ensures
            r matches Ok(i) ==> i < self.names@.len() && self.names@[i as int]@ == key@,
            r matches Err(p) ==> {
                &&& p <= self.names@.len()
                &&& forall|i: int| 0 <= i < p ==> lex_lt(#[trigger] self.names@[i]@, key@)
                &&& forall|i: int| p <= i < self.names@.len() ==> lex_lt(key@, #[trigger] self.names@[i]@)
            },
    {
        let n = self.names.len();
        let mut i: usize = 0;
        while i < n
            invariant
                n == self.names@.len(),
                i <= n,
                self.wf(),
                forall|j: int| 0 <= j < i ==> lex_lt(#[trigger] self.names@[j]@, key@),
            ensures
                i <= n,
                i < n ==> !lex_lt(self.names@[i as int]@, key@),
                forall|j: int| 0 <= j < i ==> lex_lt(#[trigger] self.names@[j]@, key@),
            decreases n - i,
        {
            if !str_lt(self.names[i].as_str(), key) {
                break;
            }
            i = i + 1;
        }
        if i < n && str_eq(self.names[i].as_str(), key) {
            return Ok(i);
        }
        proof {
            if i < n {
                let ki = self.names@[i as int]@;
                lemma_lex_total(ki, key@);
                assert(lex_lt(key@, ki));
                assert forall|j: int| i <= j < self.names@.len() implies lex_lt(key@, #[trigger] self.names@[j]@) by {
                    if j > i {
                        assert(lex_lt(self.names@[i as int]@, self.names@[j]@));
                        lemma_lex_transitive(key@, ki, self.names@[j]@);
                    }
                }
            }
        }
        Err(i)
    }

    proof fn lemma_absent(&self, p: int, k: Seq<char>)
        requires
            self.wf(),
            0 <= p <= self.names@.len(),
            forall|i: int| 0 <= i < p ==> lex_lt(#[trigger] self.names@[i]@, k),
            forall|i: int| p <= i < self.names@.len() ==> lex_lt(k, #[trigger] self.names@[i]@),
        ensures
            !self.map().contains_key(k),
    {
        if self.map().contains_key(k) {
            let j = choose|j: int| 0 <= j < self.names@.len() && self.names@[j]@ == k;
            lemma_lex_irreflexive(k);
            if j < p {
                assert(lex_lt(self.names@[j]@, k));
            } else {
                assert(lex_lt(k, self.names@[j]@));
            }
        }
    }

    /// Whether `key` has an entry.
    pub fn contains_key(&self, key: &str) -> (r: bool)
        requires
            self.wf(),
        ensures
            r == self.map().contains_key(key@),
    {
        match self.find(key) {
            Ok(i) => {
                proof { self.lemma_at(i as int); }
                true
            },
            Err(p) => {
                proof { self.lemma_absent(p as int, key@); }
                false
            },
        }
    }

    /// The value of `key`, if it has one.
    pub fn get(&self, key: &str) -> (r: Option<&V>)
        requires
            self.wf(),
        ensures
            r is Some <==> self.map().contains_key(key@),
            r matches Some(v) ==> *v == self.map()[key@],
    {
        match self.find(key) {
            Ok(i) => {
                proof { self.lemma_at(i as int); }
                Some(&self.vals[i])
            },
            Err(p) => {
                proof { self.lemma_absent(p as int, key@); }
                None
            },
        }
    }

    proof fn lemma_update_value(old_v: Self, new_v: Self, i: int, v: V)
        requires
            old_v.wf(),
            0 <= i < old_v.names@.len(),
            new_v.names@.len() == old_v.names@.len(),
            new_v.names@[i]@ == old_v.names@[i]@,
            new_v.vals@[i] == v,
            new_v.vals@.len() == old_v.vals@.len(),
            new_v.names@ == old_v.names@,
            forall|j: int| 0 <= j < old_v.names@.len() && j != i ==> #[trigger] new_v.vals@[j] == old_v.vals@[j],
        ensures
            new_v.wf(),
            new_v.map() == old_v.map().insert(old_v.names@[i]@, v),
            new_v.keys() == old_v.keys(),
            new_v.values() == old_v.values().update(i, v),
    {
        let k = old_v.names@[i]@;
        assert forall|a: int, b: int| 0 <= a < b < new_v.names@.len() implies lex_lt(
            #[trigger] new_v.names@[a]@,
            #[trigger] new_v.names@[b]@,
        ) by {
            assert(lex_lt(old_v.names@[a]@, old_v.names@[b]@));
        }
        assert forall|kk: Seq<char>| #[trigger] new_v.map().contains_key(kk) <==> old_v.map().insert(k, v).contains_key(kk) by {
            if new_v.map().contains_key(kk) {
                let j = choose|j: int| 0 <= j < new_v.names@.len() && new_v.names@[j]@ == kk;
                if j != i {
                    assert(old_v.names@[j]@ == kk);
                }
            }
            if old_v.map().contains_key(kk) {
                let j = choose|j: int| 0 <= j < old_v.names@.len() && old_v.names@[j]@ == kk;
                if j != i {
                    assert(new_v.names@[j]@ == kk);
                } else {
                    assert(new_v.names@[i]@ == kk);
                }
            }
            if kk == k {
                assert(new_v.names@[i]@ == kk);
            }
        }
        assert forall|kk: Seq<char>| #[trigger] new_v.map().contains_key(kk) implies new_v.map()[kk] == old_v.map().insert(k, v)[kk] by {
            let j = choose|j: int| 0 <= j < new_v.names@.len() && new_v.names@[j]@ == kk;
            new_v.lemma_at(j);
            if j != i {
                old_v.lemma_at(j);
                assert(old_v.names@[j]@ == kk);
                if j < i {
                    assert(lex_lt(old_v.names@[j]@, old_v.names@[i]@));
                } else {
                    assert(lex_lt(old_v.names@[i]@, old_v.names@[j]@));
                }
                lemma_lex_irreflexive(kk);
                assert(kk != k);
            }
        }
        assert(new_v.map() =~= old_v.map().insert(k, v));
        assert(new_v.keys() =~= old_v.keys());
        assert(new_v.values() =~= old_v.values().update(i, v));
    }

    closed spec fn value_updated(new_v: Self, old_v: Self, i: int) -> bool {
        &&& new_v.names@.len() == old_v.names@.len()
        &&& new_v.names@ == old_v.names@
        &&& new_v.vals@.len() == old_v.vals@.len()
        &&& forall|j: int| 0 <= j < old_v.names@.len() && j != i ==> #[trigger] new_v.vals@[j] == old_v.vals@[j]
    }

    proof fn lemma_update_value_all(old_v: Self, i: int)
        requires
            old_v.wf(),
            0 <= i < old_v.names@.len(),
        ensures
            forall|new_v: Self| #[trigger] Self::value_updated(new_v, old_v, i) ==> {
                &&& new_v.wf()
                &&& new_v.map() == old_v.map().insert(old_v.names@[i]@, new_v.vals@[i])
                &&& new_v.keys() == old_v.keys()
            },
    {
        assert forall|new_v: Self| #[trigger] Self::value_updated(new_v, old_v, i) implies {
            &&& new_v.wf()
            &&& new_v.map() == old_v.map().insert(old_v.names@[i]@, new_v.vals@[i])
            &&& new_v.keys() == old_v.keys()
        } by {
            Self::lemma_update_value(old_v, new_v, i, new_v.vals@[i]);
        }
    }

    /// A mutable reference to the value of `key`; what is written through it
    /// becomes the value of `key`, and no other entry changes.
    pub fn get_mut(&mut self, key: &str) -> (r: Option<&mut V>)
        requires
            old(self).wf(),
        ensures
            final(self).wf(),
            r is Some <==> old(self).map().contains_key(key@),
            r matches Some(v) ==> {
                &&& *v == old(self).map()[key@]
                &&& final(self).map() == old(self).map().insert(key@, *final(v))
                &&& final(self).keys() == old(self).keys()
            },
            r is None ==> final(self).map() == old(self).map() && final(self).keys() == old(self).keys(),
    {
        match self.find(key) {
            Ok(i) => {
                proof { self.lemma_at(i as int); }
                proof { Self::lemma_update_value_all(*self, i as int); }
                Some(&mut self.vals[i])
            },
            Err(p) => {
                proof { self.lemma_absent(p as int, key@); }
                None
            },
        }
    }

    /// Sets the value of `key`, and gives back the value it had, if any.
    pub fn insert(&mut self, key: String, value: V) -> (r: Option<V>)
        requires
            old(self).wf(),
        ensures
            final(self).wf(),
            final(self).map() == old(self).map().insert(key@, value),
            r is Some <==> old(self).map().contains_key(key@),
            r matches Some(v) ==> v == old(self).map()[key@],
    {
        match self.find(key.as_str()) {
            Ok(i) => {
                proof { self.lemma_at(i as int); }
                let ghost old_self = *self;
                let mut v = value;
                std::mem::swap(&mut self.vals[i], &mut v);
                proof {
                    Self::lemma_update_value(old_self, *self, i as int, value);
                }
                Some(v)
            },
            Err(p) => {
                proof { self.lemma_absent(p as int, key@); }
                let ghost old_self = *self;
                let ghost k = key@;
                self.names.insert(p, key);
                self.vals.insert(p, value);
                proof { Self::lemma_inserted(old_self, *self, p as int, k, value); }
                None
            },
        }
    }

    proof fn lemma_inserted(old_v: Self, new_v: Self, p: int, k: Seq<char>, v: V)
        requires
            old_v.wf(),
            0 <= p <= old_v.names@.len(),
            forall|i: int| 0 <= i < p ==> lex_lt(#[trigger] old_v.names@[i]@, k),
            forall|i: int| p <= i < old_v.names@.len() ==> lex_lt(k, #[trigger] old_v.names@[i]@),
            new_v.names@.len() == old_v.names@.len() + 1,
            new_v.vals@.len() == old_v.vals@.len() + 1,
            new_v.names@[p]@ == k,
            new_v.vals@[p] == v,
            forall|i: int| 0 <= i < p ==> #[trigger] new_v.names@[i] == old_v.names@[i],
            forall|i: int| 0 <= i < p ==> #[trigger] new_v.vals@[i] == old_v.vals@[i],
            forall|i: int| p < i < new_v.names@.len() ==> #[trigger] new_v.names@[i] == old_v.names@[i - 1],
            forall|i: int| p < i < new_v.vals@.len() ==> #[trigger] new_v.vals@[i] == old_v.vals@[i - 1],
        ensures
            new_v.wf(),
            new_v.map() == old_v.map().insert(k, v),
    {
        assert forall|a: int, b: int| 0 <= a < b < new_v.names@.len() implies lex_lt(
            #[trigger] new_v.names@[a]@,
            #[trigger] new_v.names@[b]@,
        ) by {
            if b < p {
                assert(lex_lt(old_v.names@[a]@, old_v.names@[b]@));
            } else if b == p {
                assert(lex_lt(old_v.names@[a]@, k));
            } else if a == p {
                assert(lex_lt(k, old_v.names@[b - 1]@));
            } else if a < p {
                assert(lex_lt(old_v.names@[a]@, k));
                assert(lex_lt(k, old_v.names@[b - 1]@));
                lemma_lex_transitive(old_v.names@[a]@, k, old_v.names@[b - 1]@);
            } else {
                assert(lex_lt(old_v.names@[a - 1]@, old_v.names@[b - 1]@));
            }
        }
        let m = old_v.map().insert(k, v);
        assert forall|kk: Seq<char>| #[trigger] new_v.map().contains_key(kk) <==> m.contains_key(kk) by {
            if new_v.map().contains_key(kk) {
                let j = choose|j: int| 0 <= j < new_v.names@.len() && new_v.names@[j]@ == kk;
                if j < p {
                    assert(old_v.names@[j]@ == kk);
                } else if j > p {
                    assert(old_v.names@[j - 1]@ == kk);
                }
            }
            if old_v.map().contains_key(kk) {
                let j = choose|j: int| 0 <= j < old_v.names@.len() && old_v.names@[j]@ == kk;
                if j < p {
                    assert(new_v.names@[j]@ == kk);
                } else {
                    assert(new_v.names@[j + 1]@ == kk);
                }
            }
            if kk == k {
                assert(new_v.names@[p]@ == kk);
            }
        }
        assert forall|kk: Seq<char>| #[trigger] new_v.map().contains_key(kk) implies new_v.map()[kk] == m[kk] by {
            let j = choose|j: int| 0 <= j < new_v.names@.len() && new_v.names@[j]@ == kk;
            new_v.lemma_at(j);
            if j < p {
                old_v.lemma_at(j);
                assert(lex_lt(old_v.names@[j]@, k));
                lemma_lex_irreflexive(k);
            } else if j > p {
                old_v.lemma_at(j - 1);
                assert(lex_lt(k, old_v.names@[j - 1]@));
                lemma_lex_irreflexive(k);
            }
        }
        assert(new_v.map() =~= m);
    }

    /// Removes `key`, and gives back its value, if it had one.
    pub fn remove(&mut self, key: &str) -> (r: Option<V>)
        requires
            old(self).wf(),
        ensures
            final(self).wf(),
            final(self).map() == old(self).map().remove(key@),
            r is Some <==> old(self).map().contains_key(key@),
            r matches Some(v) ==> v == old(self).map()[key@],
    {
        match self.find(key) {
            Ok(i) => {
                proof { self.lemma_at(i as int); }
                let ghost old_self = *self;
                let _name = self.names.remove(i);
                let v = self.vals.remove(i);
                proof { Self::lemma_removed(old_self, *self, i as int); }
                Some(v)
            },
            Err(p) => {
                proof {
                    self.lemma_absent(p as int, key@);
                    assert(self.map().remove(key@) =~= self.map());
                }
                None
            },
        }
    }

    proof fn lemma_removed(old_v: Self, new_v: Self, p: int)
        requires
            old_v.wf(),
            0 <= p < old_v.names@.len(),
            new_v.names@ == old_v.names@.remove(p),
            new_v.vals@ == old_v.vals@.remove(p),
        ensures
            new_v.wf(),
            new_v.map() == old_v.map().remove(old_v.names@[p]@),
    {
        let k = old_v.names@[p]@;
        assert forall|a: int, b: int| 0 <= a < b < new_v.names@.len() implies lex_lt(
            #[trigger] new_v.names@[a]@,
            #[trigger] new_v.names@[b]@,
        ) by {
            if b < p {
                assert(lex_lt(old_v.names@[a]@, old_v.names@[b]@));
            } else if a < p {
                assert(lex_lt(old_v.names@[a]@, old_v.names@[b + 1]@));
            } else {
                assert(lex_lt(old_v.names@[a + 1]@, old_v.names@[b + 1]@));
            }
        }
        let m = old_v.map().remove(k);
        assert forall|kk: Seq<char>| #[trigger] new_v.map().contains_key(kk) <==> m.contains_key(kk) by {
            if new_v.map().contains_key(kk) {
                let j = choose|j: int| 0 <= j < new_v.names@.len() && new_v.names@[j]@ == kk;
                if j < p {
                    assert(old_v.names@[j]@ == kk);
                    assert(lex_lt(old_v.names@[j]@, k));
                } else {
                    assert(old_v.names@[j + 1]@ == kk);
                    assert(lex_lt(k, old_v.names@[j + 1]@));
                }
                lemma_lex_irreflexive(k);
            }
            if m.contains_key(kk) {
                let j = choose|j: int| 0 <= j < old_v.names@.len() && old_v.names@[j]@ == kk;
                if j < p {
                    assert(new_v.names@[j]@ == kk);
                } else if j > p {
                    assert(new_v.names@[j - 1]@ == kk);
                }
            }
        }
        assert forall|kk: Seq<char>| #[trigger] new_v.map().contains_key(kk) implies new_v.map()[kk] == m[kk] by {
            let j = choose|j: int| 0 <= j < new_v.names@.len() && new_v.names@[j]@ == kk;
            new_v.lemma_at(j);
            if j < p {
                old_v.lemma_at(j);
            } else {
                old_v.lemma_at(j + 1);
            }
        }
        assert(new_v.map() =~= m);
    }

    /// The key of the `i`-th entry in ascending key order.
    pub fn key_at_index(&self, i: usize) -> (r: &str)
        requires
            self.wf(),
            i < self.keys().len(),
        ensures
            r@ == self.keys()[i as int],
    {
        self.names[i].as_str()
    }

    /// The value of the `i`-th entry in ascending key order.
    pub fn value_at_index(&self, i: usize) -> (r: &V)
        requires
            self.wf(),
            i < self.keys().len(),
        ensures
            *r == self.values()[i as int],
    {
        &self.vals[i]
    }

    /// The keys in ascending order.
    pub fn key_list(&self) -> (r: Vec<&str>)
        requires
            self.wf(),
        ensures
            r@.len() == self.keys().len(),
            forall|i: int| 0 <= i < r@.len() ==> #[trigger] r@[i]@ == self.keys()[i],
    {
        let n = self.names.len();
        let mut out: Vec<&str> = Vec::new();
        let mut i: usize = 0;
        while i < n
            invariant
                n == self.names@.len(),
                i <= n,
                out@.len() == i,
                forall|j: int| 0 <= j < i ==> #[trigger] out@[j]@ == self.keys()[j],
            decreases n - i,
        {
            out.push(self.names[i].as_str());
            i = i + 1;
        }
        out
    }

    /// Facts that tie the key order to the model; `values()[i]` is the
    /// value of `keys()[i]`.
    pub proof fn lemma_keys(&self)
        requires
            self.wf(),
        ensures
            self.keys().len() == self.values().len(),
            strictly_sorted(self.keys()),
            self.keys().no_duplicates(),
            forall|k: Seq<char>| #[trigger] self.map().contains_key(k) <==> self.keys().contains(k),
            self.map().dom().finite(),
            self.map().dom().len() == self.keys().len(),
            forall|i: int| 0 <= i < self.keys().len() ==> #[trigger] self.map()[self.keys()[i]] == self.values()[i],
    {
        self.lemma_keys_match();
    }
}

} // verus!
