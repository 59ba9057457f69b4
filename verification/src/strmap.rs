//! `StrMap`: a map from strings to values that keeps its keys in
//! ascending lexicographic order, like a `BTreeMap<String, V>`.

use vstd::prelude::*;
use crate::text::{seq_lt, compare_str, Collation, lemma_seq_lt_irreflexive, lemma_seq_lt_asymmetric, lemma_seq_lt_transitive, lemma_seq_lt_total};

verus! {

/// A string-keyed map whose entries stay sorted by key.
#[derive(Debug)]
pub struct StrMap<V> {
    entries: Vec<(String, V)>,
}

/// Keys strictly ascending: sorted and free of duplicates.
pub open spec fn keys_ascending(keys: Seq<Seq<char>>) -> bool {
    forall|i: int, j: int| 0 <= i < j < keys.len() ==> seq_lt(#[trigger] keys[i], #[trigger] keys[j])
}

impl<V> StrMap<V> {
    /// The keys, in stored (ascending) order.
    pub closed spec fn key_seq(&self) -> Seq<Seq<char>> {
        self.entries@.map_values(|e: (String, V)| e.0@)
    }

    /// The values, in key order.
    pub closed spec fn value_seq(&self) -> Seq<V> {
        self.entries@.map_values(|e: (String, V)| e.1)
    }

    #[verifier::type_invariant]
    closed spec fn sorted(&self) -> bool {
        keys_ascending(self.key_seq())
    }

    /// The abstract map.
    pub closed spec fn view(&self) -> Map<Seq<char>, V> {
        Map::new(
            |k: Seq<char>| self.key_seq().contains(k),
            |k: Seq<char>| self.value_seq()[self.key_seq().index_of(k)],
        )
    }

    /// Entry `i` of the ordered key/value sequences is in the map.
    pub proof fn lemma_entry(&self, i: int)
        requires
            keys_ascending(self.key_seq()),
            0 <= i < self.key_seq().len(),
        ensures
            self.view().contains_key(self.key_seq()[i]),
            self.view()[self.key_seq()[i]] == self.value_seq()[i],
            self.key_seq().len() == self.value_seq().len(),
    {
        let ks = self.key_seq();
        let k = ks[i];
        assert(ks.contains(k));
        let j = ks.index_of(k);
        assert(ks[j] == k);
        if j != i {
            lemma_seq_lt_irreflexive(k);
            if j < i {
                assert(seq_lt(ks[j], ks[i]));
            } else {
                assert(seq_lt(ks[i], ks[j]));
            }
        }
    }

    /// The map's keys are exactly the keys of the ordered sequence, which
    /// is strictly ascending, and values line up with keys.
    pub proof fn lemma_keys(&self)
        requires
            keys_ascending(self.key_seq()),
        ensures
            keys_ascending(self.key_seq()),
            self.key_seq().len() == self.value_seq().len(),
            forall|k: Seq<char>| self.view().contains_key(k) <==> self.key_seq().contains(k),
            self.view().dom().finite(),
            self.view().dom().len() == self.key_seq().len(),
    {
        lemma_ascending_no_dup(self.key_seq());
        self.key_seq().unique_seq_to_set();
        assert(self.view().dom() =~= self.key_seq().to_set());
    }

    /// A map with the same keys, in the same order, whose values are `f`
    /// of this map's values, is this map with `f` applied to each value.
    pub proof fn lemma_mapped<B>(&self, other: StrMap<B>, f: spec_fn(V) -> B)
        requires
            keys_ascending(self.key_seq()),
            other.key_seq() == self.key_seq(),
            other.value_seq().len() == self.value_seq().len(),
            forall|i: int| 0 <= i < self.value_seq().len() ==> other.value_seq()[i] == f(#[trigger] self.value_seq()[i]),
        ensures
            other.view() == self.view().map_values(f),
    {
        assert forall|k: Seq<char>| #[trigger] other.view().contains_key(k) implies other.view()[k] == f(self.view()[k]) by {
            let i = self.key_seq().index_of(k);
            assert(self.key_seq().contains(k));
            self.lemma_entry(i);
            assert(self.key_seq()[i] == k);
            assert(other.key_seq()[i] == k);
        }
        assert(other.view() =~= self.view().map_values(f));
    }

    /// Each value is structurally smaller than the map holding it.
    pub proof fn lemma_value_decreases(&self, i: int)
        requires
            0 <= i < self.key_seq().len(),
        ensures
            decreases_to!(*self => self.value_seq()[i]),
    {
        broadcast use vstd::std_specs::vec::axiom_vec_index_decreases;
        assert(decreases_to!(self.entries => self.entries[i]));
        assert(decreases_to!(self.entries[i] => self.entries[i].1));
        assert(decreases_to!(*self => self.entries));
    }

    /// Each value in the map is structurally smaller than the map.
    pub proof fn lemma_map_value_decreases(&self, k: Seq<char>)
        requires
            self.view().contains_key(k),
        ensures
            decreases_to!(*self => self.view()[k]),
    {
        let i = self.key_seq().index_of(k);
        assert(self.key_seq()[i] == k);
        self.lemma_value_decreases(i);
    }

    /// Appends an entry whose key is greater than every key present.
    pub fn push_last(&mut self, key: String, value: V)
        requires
            forall|i: int| 0 <= i < old(self).key_seq().len() ==> seq_lt(#[trigger] old(self).key_seq()[i], key@),
        ensures
            final(self).key_seq() == old(self).key_seq().push(key@),
            final(self).value_seq() == old(self).value_seq().push(value),
            final(self).view() == old(self).view().insert(key@, value),
    {
        proof { use_type_invariant(&*self); self.lemma_keys(); }
        let ghost old_self = *self;
        let ghost kv = key@;
        let mut entries: Vec<(String, V)> = Vec::new();
        std::mem::swap(&mut entries, &mut self.entries);
        entries.push((key, value));
        proof {
            let nks = entries@.map_values(|e: (String, V)| e.0@);
            assert(nks =~= old_self.key_seq().push(kv));
        }
        self.entries = entries;
        proof {
            use_type_invariant(&*self);
            let ks = self.key_seq();
            let oks = old_self.key_seq();
            assert(ks =~= oks.push(kv));
            assert(self.value_seq() =~= old_self.value_seq().push(value));
            self.lemma_keys();
            old_self.lemma_keys();
            if oks.contains(kv) {
                let j = oks.index_of(kv);
                lemma_seq_lt_irreflexive(kv);
                assert(oks[j] == kv);
            }
            assert forall|k: Seq<char>| self.view().contains_key(k) <==> old_self.view().insert(kv, value).contains_key(k) by {
                if self.view().contains_key(k) {
                    let j = ks.index_of(k);
                    if j < oks.len() { assert(oks[j] == k); }
                }
                if old_self.view().contains_key(k) && k != kv {
                    let j = oks.index_of(k);
                    assert(ks[j] == k);
                }
                if k == kv { assert(ks[oks.len() as int] == k); }
            }
            assert forall|k: Seq<char>| #[trigger] self.view().contains_key(k) implies self.view()[k] == old_self.view().insert(kv, value)[k] by {
                let j = ks.index_of(k);
                self.lemma_entry(j);
                if j < oks.len() {
                    old_self.lemma_entry(j);
                }
            }
            assert(self.view() =~= old_self.view().insert(kv, value));
        }
    }

    /// The entries, in ascending key order.
    pub fn into_entries(self) -> (r: Vec<(String, V)>)
        ensures
            r@.map_values(|e: (String, V)| e.0@) == self.key_seq(),
            r@.map_values(|e: (String, V)| e.1) == self.value_seq(),
    {
        let StrMap { entries } = self;
        entries
    }

    pub fn new() -> (r: Self)
        ensures
            r.view() == Map::<Seq<char>, V>::empty(),
            r.key_seq().len() == 0,
            r.value_seq().len() == 0,
    {
        let r = StrMap { entries: Vec::new() };
        assert(r.view() =~= Map::<Seq<char>, V>::empty());
        r
    }

    pub fn len(&self) -> (n: usize)
        ensures
            n == self.key_seq().len(),
            n == self.view().dom().len(),
    {
        proof { use_type_invariant(self); self.lemma_keys(); }
        self.entries.len()
    }

    pub fn is_empty(&self) -> (b: bool)
        ensures
            b == (self.key_seq().len() == 0),
            b == (self.view().dom().len() == 0),
    {
        proof { use_type_invariant(self); self.lemma_keys(); }
        self.entries.len() == 0
    }

    /// The key of entry `i` (entries run in ascending key order).
    pub fn key_at(&self, i: usize) -> (k: &String)
        requires
            i < self.key_seq().len(),
        ensures
            k@ == self.key_seq()[i as int],
            self.view().contains_key(k@),
            self.view()[k@] == self.value_seq()[i as int],
    {
        proof { use_type_invariant(self); self.lemma_entry(i as int); }
        &self.entries[i].0
    }

    /// The value of entry `i`.
    pub fn value_at(&self, i: usize) -> (v: &V)
        requires
            i < self.key_seq().len(),
        ensures
            *v == self.value_seq()[i as int],
            self.view()[self.key_seq()[i as int]] == *v,
    {
        proof { use_type_invariant(self); self.lemma_entry(i as int); }
        &self.entries[i].1
    }

    /// The ordered keys are strictly ascending and cover the map.
    pub fn proof_keys(&self)
        ensures
            keys_ascending(self.key_seq()),
            self.key_seq().len() == self.value_seq().len(),
            forall|k: Seq<char>| self.view().contains_key(k) <==> self.key_seq().contains(k),
            forall|i: int| 0 <= i < self.key_seq().len() ==> self.view()[#[trigger] self.key_seq()[i]] == self.value_seq()[i],
    {
        proof {
            use_type_invariant(self);
            self.lemma_keys();
            assert forall|i: int| 0 <= i < self.key_seq().len() implies self.view()[#[trigger] self.key_seq()[i]] == self.value_seq()[i] by {
                self.lemma_entry(i);
            }
        }
    }

    /// Position of `key`: `Ok(i)` where it is stored, or `Err(i)` where it
    /// would be inserted to keep the order.
    fn search(&self, key: &str) -> (r: Result<usize, usize>)
        ensures
            match r {
                Ok(i) => i < self.key_seq().len() && self.key_seq()[i as int] == key@,
                Err(i) => i <= self.key_seq().len()
                    && (forall|j: int| 0 <= j < i ==> seq_lt(#[trigger] self.key_seq()[j], key@))
                    && (forall|j: int| i <= j < self.key_seq().len() ==> seq_lt(key@, #[trigger] self.key_seq()[j])),
            },
    {
        proof { use_type_invariant(self); }
        let mut i: usize = 0;
        while i < self.entries.len()
            invariant
                i <= self.entries@.len(),
                keys_ascending(self.key_seq()),
                forall|j: int| 0 <= j < i ==> seq_lt(#[trigger] self.key_seq()[j], key@),
            decreases self.entries.len() - i,
        {
            match compare_str(key, self.entries[i].0.as_str()) {
                Collation::Equal => {
                    return Ok(i);
                },
                Collation::Less => {
                    assert forall|j: int| i <= j < self.key_seq().len() implies seq_lt(key@, #[trigger] self.key_seq()[j]) by {
                        if j > i {
                            lemma_seq_lt_transitive(key@, self.key_seq()[i as int], self.key_seq()[j]);
                        }
                    }
                    return Err(i);
                },
                Collation::Greater => {},
            }
            i += 1;
        }
        Err(i)
    }

    /// Looks a key up.
    pub fn get(&self, key: &str) -> (r: Option<&V>)
        ensures
            match r {
                Some(v) => self.view().contains_key(key@) && *v == self.view()[key@],
                None => !self.view().contains_key(key@),
            },
    {
        match self.search(key) {
            Ok(i) => {
                proof { use_type_invariant(self); self.lemma_entry(i as int); }
                Some(&self.entries[i].1)
            },
            Err(i) => {
                proof {
                    use_type_invariant(self);
                    self.lemma_keys();
                    if self.key_seq().contains(key@) {
                        let j = self.key_seq().index_of(key@);
                        lemma_seq_lt_irreflexive(key@);
                        assert(self.key_seq()[j] == key@);
                    }
                }
                None
            },
        }
    }

    pub fn contains_key(&self, key: &str) -> (b: bool)
        ensures
            b == self.view().contains_key(key@),
    {
        match self.get(key) {
            Some(_) => true,
            None => false,
        }
    }

    /// Inserts or replaces the value under `key`; returns the old value.
    pub fn insert(&mut self, key: String, value: V) -> (old_v: Option<V>)
        ensures
            final(self).view() == old(self).view().insert(key@, value),
            match old_v {
                Some(v) => old(self).view().contains_key(key@) && v == old(self).view()[key@],
                None => !old(self).view().contains_key(key@),
            },
    {
        proof { use_type_invariant(&*self); self.lemma_keys(); }
        let ghost old_self = *self;
        match self.search(key.as_str()) {
            Ok(i) => {
                proof { self.lemma_entry(i as int); }
                let mut entries: Vec<(String, V)> = Vec::new();
                std::mem::swap(&mut entries, &mut self.entries);
                let ghost old_entries = entries@;
                let (k0, v0) = entries.remove(i);
                entries.insert(i, (k0, value));
                let ghost new_entries = entries@;
                assert(new_entries =~= old_entries.update(i as int, (old_entries[i as int].0, value)));
                assert(entries@.map_values(|e: (String, V)| e.0@) =~= old_self.key_seq());
                self.entries = entries;
                proof {
                    use_type_invariant(&*self);
                    assert(self.key_seq() =~= old_self.key_seq());
                    assert(self.value_seq() =~= old_self.value_seq().update(i as int, value));
                    self.lemma_keys();
                    assert(keys_ascending(old_self.key_seq()));
                    assert(old_self.key_seq()[i as int] == key@);
                    assert forall|k: Seq<char>| #[trigger] self.view().contains_key(k) implies self.view()[k] == old_self.view().insert(key@, value)[k] by {
                        assert(self.key_seq().contains(k));
                        let j = self.key_seq().index_of(k);
                        assert(0 <= j < self.key_seq().len() && self.key_seq()[j] == k);
                        self.lemma_entry(j);
                        if j != i {
                            old_self.lemma_entry(j);
                            assert(k != key@) by { lemma_seq_lt_irreflexive(k); if j < i { assert(seq_lt(old_self.key_seq()[j], old_self.key_seq()[i as int])); } else { assert(seq_lt(old_self.key_seq()[i as int], old_self.key_seq()[j])); } }
                        } else {
                            assert(k == key@);
                            assert(self.value_seq()[j] == value);
                        }
                    }
                    assert(self.view() =~= old_self.view().insert(key@, value));
                }
                Some(v0)
            },
            Err(i) => {
                let ghost kv = key@;
                let mut entries: Vec<(String, V)> = Vec::new();
                std::mem::swap(&mut entries, &mut self.entries);
                entries.insert(i, (key, value));
                proof {
                    let nks = entries@.map_values(|e: (String, V)| e.0@);
                    assert(nks =~= old_self.key_seq().insert(i as int, kv));
                    assert forall|a: int, b: int| 0 <= a < b < nks.len() implies seq_lt(#[trigger] nks[a], #[trigger] nks[b]) by {
                        if a < i && b > i {
                            lemma_seq_lt_transitive(nks[a], kv, nks[b]);
                        }
                    }
                }
                self.entries = entries;
                proof {
                    use_type_invariant(&*self);
                    let ks = self.key_seq();
                    let oks = old_self.key_seq();
                    assert(ks =~= oks.insert(i as int, kv));
                    assert(self.value_seq() =~= old_self.value_seq().insert(i as int, value));
                    assert forall|a: int, b: int| 0 <= a < b < ks.len() implies seq_lt(#[trigger] ks[a], #[trigger] ks[b]) by {
                        if a < i && b > i {
                            lemma_seq_lt_transitive(ks[a], kv, ks[b]);
                        }
                    }
                    self.lemma_keys();
                    old_self.lemma_keys();
                    if oks.contains(kv) {
                        let j = oks.index_of(kv);
                        lemma_seq_lt_irreflexive(kv);
                        assert(oks[j] == kv);
                    }
                    assert forall|k: Seq<char>| self.view().contains_key(k) <==> old_self.view().insert(kv, value).contains_key(k) by {
                        if self.view().contains_key(k) {
                            let j = ks.index_of(k);
                            if j < i { assert(oks[j] == k); }
                            else if j > i { assert(oks[j - 1] == k); }
                        }
                        if old_self.view().contains_key(k) && k != kv {
                            let j = oks.index_of(k);
                            if j < i { assert(ks[j] == k); } else { assert(ks[j + 1] == k); }
                        }
                        if k == kv { assert(ks[i as int] == k); }
                    }
                    assert forall|k: Seq<char>| #[trigger] self.view().contains_key(k) implies self.view()[k] == old_self.view().insert(kv, value)[k] by {
                        let j = ks.index_of(k);
                        self.lemma_entry(j);
                        if j < i {
                            old_self.lemma_entry(j);
                        } else if j > i {
                            old_self.lemma_entry(j - 1);
                        }
                    }
                    assert(self.view() =~= old_self.view().insert(kv, value));
                }
                None
            },
        }
    }

    /// Removes `key`; returns its value if it was present.
    pub fn remove(&mut self, key: &str) -> (old_v: Option<V>)
        ensures
            final(self).view() == old(self).view().remove(key@),
            match old_v {
                Some(v) => old(self).view().contains_key(key@) && v == old(self).view()[key@],
                None => !old(self).view().contains_key(key@),
            },
    {
        proof { use_type_invariant(&*self); self.lemma_keys(); }
        let ghost old_self = *self;
        match self.search(key) {
            Ok(i) => {
                proof { self.lemma_entry(i as int); }
                let mut entries: Vec<(String, V)> = Vec::new();
                std::mem::swap(&mut entries, &mut self.entries);
                let (_k, v) = entries.remove(i);
                proof {
                    let nks = entries@.map_values(|e: (String, V)| e.0@);
                    let oks = old_self.key_seq();
                    assert(nks =~= oks.remove(i as int));
                    assert forall|a: int, b: int| 0 <= a < b < nks.len() implies seq_lt(#[trigger] nks[a], #[trigger] nks[b]) by {
                        if a >= i { assert(nks[a] == oks[a + 1]); assert(nks[b] == oks[b + 1]); }
                        else if b >= i { assert(nks[b] == oks[b + 1]); }
                    }
                }
                self.entries = entries;
                proof {
                    use_type_invariant(&*self);
                    let ks = self.key_seq();
                    let oks = old_self.key_seq();
                    assert(ks =~= oks.remove(i as int));
                    assert(self.value_seq() =~= old_self.value_seq().remove(i as int));
                    assert forall|a: int, b: int| 0 <= a < b < ks.len() implies seq_lt(#[trigger] ks[a], #[trigger] ks[b]) by {
                        if a >= i { assert(ks[a] == oks[a + 1]); assert(ks[b] == oks[b + 1]); }
                        else if b >= i { assert(ks[b] == oks[b + 1]); }
                    }
                    self.lemma_keys();
                    assert forall|k: Seq<char>| self.view().contains_key(k) <==> old_self.view().remove(key@).contains_key(k) by {
                        if self.view().contains_key(k) {
                            let j = ks.index_of(k);
                            if j < i { assert(oks[j] == k); lemma_seq_lt_irreflexive(k); } else { assert(oks[j + 1] == k); lemma_seq_lt_irreflexive(k); }
                        }
                        if old_self.view().contains_key(k) && k != key@ {
                            let j = oks.index_of(k);
                            if j < i { assert(ks[j] == k); } else if j > i { assert(ks[j - 1] == k); }
                        }
                    }
                    assert forall|k: Seq<char>| #[trigger] self.view().contains_key(k) implies self.view()[k] == old_self.view().remove(key@)[k] by {
                        let j = ks.index_of(k);
                        self.lemma_entry(j);
                        if j < i { old_self.lemma_entry(j); } else { old_self.lemma_entry(j + 1); }
                    }
                    assert(self.view() =~= old_self.view().remove(key@));
                }
                Some(v)
            },
            Err(i) => {
                proof {
                    self.lemma_keys();
                    if self.key_seq().contains(key@) {
                        let j = self.key_seq().index_of(key@);
                        lemma_seq_lt_irreflexive(key@);
                        assert(self.key_seq()[j] == key@);
                    }
                    assert(self.view() =~= self.view().remove(key@));
                }
                None
            },
        }
    }
}

impl<V: Clone> Clone for StrMap<V> {
    /// Copies every entry; keys come out identical and in the same order.
    fn clone(&self) -> (r: Self)
        ensures
            r.key_seq() == self.key_seq(),
            forall|i: int| 0 <= i < self.value_seq().len() ==> cloned(self.value_seq()[i], #[trigger] r.value_seq()[i]),
            r.value_seq().len() == self.value_seq().len(),
    {
        proof { use_type_invariant(self); }
        let mut entries: Vec<(String, V)> = Vec::new();
        let mut i: usize = 0;
        while i < self.entries.len()
            invariant
                i <= self.entries@.len(),
                keys_ascending(self.key_seq()),
                entries@.len() == i,
                forall|j: int| 0 <= j < i ==> (#[trigger] entries@[j]).0@ == self.entries@[j].0@,
                forall|j: int| 0 <= j < i ==> cloned(self.entries@[j].1, #[trigger] entries@[j].1),
            decreases self.entries.len() - i,
        {
            let k = self.entries[i].0.clone();
            let v = self.entries[i].1.clone();
            entries.push((k, v));
            i += 1;
        }
        let ghost ks = entries@.map_values(|e: (String, V)| e.0@);
        assert(ks =~= self.key_seq());
        StrMap { entries }
    }
}

/// A strictly ascending key sequence has no repeated key.
pub proof fn lemma_ascending_no_dup(keys: Seq<Seq<char>>)
    requires
        keys_ascending(keys),
    ensures
        keys.no_duplicates(),
{
    assert forall|i: int, j: int| 0 <= i < keys.len() && 0 <= j < keys.len() && i != j implies keys[i] != keys[j] by {
        lemma_seq_lt_irreflexive(keys[i]);
        if i < j { assert(seq_lt(keys[i], keys[j])); } else { assert(seq_lt(keys[j], keys[i])); }
    }
}

/// Two strictly ascending key lists with the same keys are the same list.
pub proof fn lemma_ascending_unique(a: Seq<Seq<char>>, b: Seq<Seq<char>>)
    requires
        keys_ascending(a),
        keys_ascending(b),
        forall|k: Seq<char>| a.contains(k) <==> b.contains(k),
    ensures
        a == b,
    decreases a.len() + b.len(),
{
    if a.len() == 0 {
        if b.len() > 0 {
            assert(b.contains(b[0]));
        }
        assert(a =~= b);
    } else if b.len() == 0 {
        assert(a.contains(a[0]));
    } else {
        let x = a.last();
        let y = b.last();
        assert(a.contains(x));
        assert(b.contains(y));
        if x != y {
            let i = choose|i: int| 0 <= i < a.len() && a[i] == y;
            let j = choose|j: int| 0 <= j < b.len() && b[j] == x;
            assert(i != a.len() - 1);
            assert(j != b.len() - 1);
            assert(seq_lt(a[i], a[a.len() - 1]));
            assert(seq_lt(b[j], b[b.len() - 1]));
            lemma_seq_lt_asymmetric(x, y);
        }
        let a2 = a.drop_last();
        let b2 = b.drop_last();
        assert forall|k: Seq<char>| a2.contains(k) <==> b2.contains(k) by {
            if a2.contains(k) {
                let i = choose|i: int| 0 <= i < a2.len() && a2[i] == k;
                assert(seq_lt(a[i], a[a.len() - 1]));
                lemma_seq_lt_irreflexive(k);
                assert(b.contains(k));
                let j = choose|j: int| 0 <= j < b.len() && b[j] == k;
                if j == b.len() - 1 {
                    assert(k == x);
                }
                assert(b2[j] == k);
            }
            if b2.contains(k) {
                let j = choose|j: int| 0 <= j < b2.len() && b2[j] == k;
                assert(seq_lt(b[j], b[b.len() - 1]));
                lemma_seq_lt_irreflexive(k);
                assert(a.contains(k));
                let i = choose|i: int| 0 <= i < a.len() && a[i] == k;
                if i == a.len() - 1 {
                    assert(k == y);
                }
                assert(a2[i] == k);
            }
        }
        lemma_ascending_unique(a2, b2);
        assert(a =~= a2.push(x));
        assert(b =~= b2.push(y));
    }
}

impl<V> StrMap<V> {
    /// Two maps with the same contents hold them in the same order: a map
    /// does not remember the order its entries were inserted in.
    pub proof fn lemma_same_view_same_entries(&self, other: StrMap<V>)
        requires
            keys_ascending(self.key_seq()),
            keys_ascending(other.key_seq()),
            self.view() == other.view(),
        ensures
            self.key_seq() == other.key_seq(),
            self.value_seq() == other.value_seq(),
    {
        self.lemma_keys();
        other.lemma_keys();
        lemma_ascending_unique(self.key_seq(), other.key_seq());
        assert forall|i: int| 0 <= i < self.value_seq().len() implies self.value_seq()[i] == other.value_seq()[i] by {
            self.lemma_entry(i);
            other.lemma_entry(i);
        }
        assert(self.value_seq() =~= other.value_seq());
    }
}

} // verus!
