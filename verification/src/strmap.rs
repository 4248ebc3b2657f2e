//! A map keyed by strings, kept as a list of entries in insertion order.
//!
//! The contracts key their state by account identifiers, public keys and
//! article identifiers. The entries are held in a vector whose keys are
//! pairwise distinct; its abstract value is that sequence of
//! `(key characters, value)` pairs, from which a `Map` is derived.
//!
//! It is the map of the contracts' state: a `near_sdk::collections::LookupMap`
//! is a prefix into the blockchain's storage, whose contents its value does
//! not determine and whose reads and writes are storage I/O, and vstd
//! specifies `HashMap` lookups only for key types that obey its key model,
//! which it grants to integer keys and not to `String`.
use vstd::prelude::*;

verus! {

/// Some entry of `s` has key `k`.
pub open spec fn has_key<V>(s: Seq<(Seq<char>, V)>, k: Seq<char>) -> bool {
    exists|i: int| 0 <= i < s.len() && #[trigger] s[i].0 == k
}

/// No two entries of `s` have the same key.
pub open spec fn unique_keys<V>(s: Seq<(Seq<char>, V)>) -> bool {
    forall|i: int, j: int|
        0 <= i < s.len() && 0 <= j < s.len() && i != j ==> #[trigger] s[i].0 != #[trigger] s[j].0
}

/// The index of an entry with key `k` (the only one when keys are unique).
pub open spec fn position<V>(s: Seq<(Seq<char>, V)>, k: Seq<char>) -> int {
    choose|i: int| 0 <= i < s.len() && #[trigger] s[i].0 == k
}

/// The value stored under `k`, if any.
pub open spec fn lookup<V>(s: Seq<(Seq<char>, V)>, k: Seq<char>) -> Option<V> {
    if has_key(s, k) {
        Some(s[position(s, k)].1)
    } else {
        None
    }
}

/// `s` with `k` bound to `v`: an existing entry is replaced where it stands,
/// a new key is appended.
pub open spec fn upsert<V>(s: Seq<(Seq<char>, V)>, k: Seq<char>, v: V) -> Seq<(Seq<char>, V)> {
    if has_key(s, k) {
        s.update(position(s, k), (k, v))
    } else {
        s.push((k, v))
    }
}

/// `s` without the entry for `k`; the other entries keep their order.
pub open spec fn without<V>(s: Seq<(Seq<char>, V)>, k: Seq<char>) -> Seq<(Seq<char>, V)> {
    if has_key(s, k) {
        s.remove(position(s, k))
    } else {
        s
    }
}

/// The map that the entries of `s` describe.
pub open spec fn to_map<V>(s: Seq<(Seq<char>, V)>) -> Map<Seq<char>, V> {
    Map::new(|k: Seq<char>| has_key(s, k), |k: Seq<char>| s[position(s, k)].1)
}

/// With unique keys, the entry found for a key is the one that has it.
pub proof fn lemma_position_unique<V>(s: Seq<(Seq<char>, V)>, i: int)
    requires
        unique_keys(s),
        0 <= i < s.len(),
    ensures
        has_key(s, s[i].0),
        position(s, s[i].0) == i,
        lookup(s, s[i].0) == Some(s[i].1),
{
    let k = s[i].0;
    assert(s[i].0 == k);
    let p = position(s, k);
    assert(0 <= p < s.len() && s[p].0 == k);
}

/// Binding a key keeps the keys unique, and the new entries describe the
/// old map with that binding.
pub proof fn lemma_upsert<V>(s: Seq<(Seq<char>, V)>, k: Seq<char>, v: V)
    requires
        unique_keys(s),
    ensures
        unique_keys(upsert(s, k, v)),
        lookup(upsert(s, k, v), k) == Some(v),
        forall|k2: Seq<char>| k2 != k ==> #[trigger] lookup(upsert(s, k, v), k2) == lookup(s, k2),
        to_map(upsert(s, k, v)) == to_map(s).insert(k, v),
{
    let t = upsert(s, k, v);
    if has_key(s, k) {
        let p = position(s, k);
        assert(0 <= p < s.len() && s[p].0 == k);
        assert forall|i: int, j: int|
            0 <= i < t.len() && 0 <= j < t.len() && i != j implies #[trigger] t[i].0 != #[trigger] t[j].0 by {
            if i == p {
                assert(s[j].0 != s[p].0);
            } else if j == p {
                assert(s[i].0 != s[p].0);
            } else {
                assert(s[i].0 != s[j].0);
            }
        }
    } else {
        assert forall|i: int, j: int|
            0 <= i < t.len() && 0 <= j < t.len() && i != j implies #[trigger] t[i].0 != #[trigger] t[j].0 by {
            if i == s.len() {
                assert(s[j].0 == t[j].0);
            } else if j == s.len() {
                assert(s[i].0 == t[i].0);
            } else {
                assert(s[i].0 != s[j].0);
            }
        }
    }
    let q = if has_key(s, k) { position(s, k) } else { s.len() as int };
    assert(t[q].0 == k && t[q].1 == v);
    lemma_position_unique(t, q);
    assert forall|k2: Seq<char>| k2 != k implies #[trigger] lookup(t, k2) == lookup(s, k2) by {
        if has_key(s, k2) {
            let p2 = position(s, k2);
            assert(0 <= p2 < s.len() && s[p2].0 == k2);
            assert(t[p2] == s[p2]);
            lemma_position_unique(t, p2);
        }
        if has_key(t, k2) {
            let p2 = position(t, k2);
            assert(0 <= p2 < t.len() && t[p2].0 == k2);
            assert(p2 != q);
            assert(t[p2] == s[p2]);
            lemma_position_unique(s, p2);
        }
    }
    assert forall|k2: Seq<char>| #[trigger] to_map(t).contains_key(k2) == to_map(s).insert(k, v).contains_key(k2)
        && (to_map(t).contains_key(k2) ==> to_map(t)[k2] == to_map(s).insert(k, v)[k2]) by {
        if k2 != k {
            assert(lookup(t, k2) == lookup(s, k2));
        }
    }
    assert(to_map(t) =~= to_map(s).insert(k, v));
}

/// Removing a key keeps the keys unique, and the new entries describe the
/// old map without that key.
pub proof fn lemma_without<V>(s: Seq<(Seq<char>, V)>, k: Seq<char>)
    requires
        unique_keys(s),
    ensures
        unique_keys(without(s, k)),
        !has_key(without(s, k), k),
        forall|k2: Seq<char>| k2 != k ==> #[trigger] lookup(without(s, k), k2) == lookup(s, k2),
        to_map(without(s, k)) == to_map(s).remove(k),
{
    let t = without(s, k);
    if has_key(s, k) {
        let p = position(s, k);
        assert(0 <= p < s.len() && s[p].0 == k);
        assert forall|i: int| 0 <= i < t.len() implies #[trigger] t[i] == (if i < p { s[i] } else { s[i + 1] }) by {
        }
        assert forall|i: int, j: int|
            0 <= i < t.len() && 0 <= j < t.len() && i != j implies #[trigger] t[i].0 != #[trigger] t[j].0 by {
            let i2 = if i < p { i } else { i + 1 };
            let j2 = if j < p { j } else { j + 1 };
            assert(t[i] == s[i2] && t[j] == s[j2]);
            assert(s[i2].0 != s[j2].0);
        }
        if has_key(t, k) {
            let w = position(t, k);
            assert(0 <= w < t.len() && t[w].0 == k);
            let w2 = if w < p { w } else { w + 1 };
            assert(t[w] == s[w2]);
            assert(s[w2].0 != s[p].0);
        }
        assert forall|k2: Seq<char>| k2 != k implies #[trigger] lookup(t, k2) == lookup(s, k2) by {
            if has_key(s, k2) {
                let p2 = position(s, k2);
                assert(0 <= p2 < s.len() && s[p2].0 == k2);
                assert(p2 != p);
                let i = if p2 < p { p2 } else { p2 - 1 };
                assert(t[i] == s[p2]);
                lemma_position_unique(t, i);
            }
            if has_key(t, k2) {
                let w = position(t, k2);
                assert(0 <= w < t.len() && t[w].0 == k2);
                let w2 = if w < p { w } else { w + 1 };
                assert(t[w] == s[w2]);
                lemma_position_unique(s, w2);
            }
        }
    }
    assert forall|k2: Seq<char>| #[trigger] to_map(t).contains_key(k2) == to_map(s).remove(k).contains_key(k2)
        && (to_map(t).contains_key(k2) ==> to_map(t)[k2] == to_map(s).remove(k)[k2]) by {
        if k2 != k {
            assert(lookup(t, k2) == lookup(s, k2));
        }
    }
    assert(to_map(t) =~= to_map(s).remove(k));
}

/// A map from strings to `V`, whose entries keep the order in which their
/// keys were first bound.
#[derive(Debug)]
pub struct StrMap<V> {
    entries: Vec<(String, V)>,
}

impl<V> View for StrMap<V> {
    type V = Map<Seq<char>, V>;

    /// The map that the entries describe.
    open spec fn view(&self) -> Map<Seq<char>, V> {
        to_map(self.entries())
    }
}

impl<V> StrMap<V> {
    /// The entries, each key taken by its characters.
    pub closed spec fn entries(&self) -> Seq<(Seq<char>, V)> {
        self.entries@.map_values(|e: (String, V)| (e.0@, e.1))
    }

    /// The keys of the entries are pairwise distinct.
    pub open spec fn wf(&self) -> bool {
        unique_keys(self.entries())
    }

    /// An empty map.
    pub fn new() -> (m: Self)
        ensures
            m.wf(),
            m.entries() == Seq::<(Seq<char>, V)>::empty(),
    {
        let m = StrMap { entries: Vec::new() };
        assert(m.entries() =~= Seq::<(Seq<char>, V)>::empty());
        m
    }

    /// The number of entries.
    pub fn len(&self) -> (n: usize)
        ensures
            n == self.entries().len(),
    {
        self.entries.len()
    }

    /// The index of the entry for `key`, if there is one.
    fn find(&self, key: &String) -> (r: Option<usize>)
        requires
            self.wf(),
        ensures
            match r {
                Some(i) => i < self.entries().len() && self.entries()[i as int].0 == key@
                    && position(self.entries(), key@) == i,
                None => !has_key(self.entries(), key@),
            },
    {
        let mut i: usize = 0;
        while i < self.entries.len()
            invariant
                i <= self.entries@.len(),
                self.wf(),
                forall|j: int| 0 <= j < i ==> #[trigger] self.entries()[j].0 != key@,
            decreases self.entries@.len() - i,
        {
            if self.entries[i].0 == *key {
                proof {
                    lemma_position_unique(self.entries(), i as int);
                }
                return Some(i);
            }
            i = i + 1;
        }
        assert forall|j: int| 0 <= j < self.entries().len() implies #[trigger] self.entries()[j].0 != key@ by {
        }
        None
    }

    /// The key of the entry at `index`.
    pub fn key_at(&self, index: usize) -> (k: &String)
        requires
            index < self.entries().len(),
        ensures
            k@ == self.entries()[index as int].0,
    {
        &self.entries[index].0
    }

    /// The value of the entry at `index`.
    pub fn value_at(&self, index: usize) -> (v: &V)
        requires
            index < self.entries().len(),
        ensures
            *v == self.entries()[index as int].1,
    {
        &self.entries[index].1
    }

    /// The value stored under `key`, if any.
    pub fn get(&self, key: &String) -> (r: Option<&V>)
        requires
            self.wf(),
        ensures
            match r {
                Some(v) => lookup(self.entries(), key@) == Some(*v),
                None => lookup(self.entries(), key@) is None,
            },
    {
        match self.find(key) {
            Some(i) => Some(&self.entries[i].1),
            None => None,
        }
    }

    /// Whether some entry has key `key`.
    pub fn contains_key(&self, key: &String) -> (r: bool)
        requires
            self.wf(),
        ensures
            r == has_key(self.entries(), key@),
    {
        self.find(key).is_some()
    }

    /// Binds `key` to `value`, replacing the value of an existing entry in
    /// place or appending a new entry.
    pub fn insert(&mut self, key: String, value: V)
        requires
            old(self).wf(),
        ensures
            final(self).wf(),
            final(self).entries() == upsert(old(self).entries(), key@, value),
            final(self)@ == old(self)@.insert(key@, value),
    {
        proof {
            lemma_upsert(self.entries(), key@, value);
        }
        let ghost k = key@;
        match self.find(&key) {
            Some(i) => {
                self.entries.set(i, (key, value));
                assert(self.entries() =~= upsert(old(self).entries(), k, value));
            },
            None => {
                self.entries.push((key, value));
                assert(self.entries() =~= upsert(old(self).entries(), k, value));
            },
        }
    }

    /// Removes the entry for `key` and hands back its value, if there was one.
    pub fn remove(&mut self, key: &String) -> (r: Option<V>)
        requires
            old(self).wf(),
        ensures
            final(self).wf(),
            final(self).entries() == without(old(self).entries(), key@),
            r == lookup(old(self).entries(), key@),
            r is None ==> *final(self) == *old(self),
            final(self)@ == old(self)@.remove(key@),
    {
        proof {
            lemma_without(self.entries(), key@);
        }
        match self.find(key) {
            Some(i) => {
                let (_, v) = self.entries.remove(i);
                assert(self.entries() =~= without(old(self).entries(), key@));
                Some(v)
            },
            None => None,
        }
    }
}

} // verus!
