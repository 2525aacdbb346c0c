//! An ordered map keyed by strings.
//!
//! Its view is the sequence of its entries in increasing key order, the order in
//! which a `BTreeMap<String, _>` is walked.
use vstd::prelude::*;

use crate::text::{lemma_lt_asymmetric, lemma_lt_irreflexive, lemma_lt_total, lemma_lt_transitive, seq_lt, str_eq, str_lt};

verus! {

/// Keys in strictly increasing order.
pub open spec fn keys_sorted<V>(s: Seq<(Seq<char>, V)>) -> bool {
    forall|i: int, j: int| 0 <= i < j < s.len() ==> seq_lt(#[trigger] s[i].0, #[trigger] s[j].0)
}

/// Index of the last entry with key `k`, or -1.
pub open spec fn find_key<V>(s: Seq<(Seq<char>, V)>, k: Seq<char>) -> int
    decreases s.len(),
{
    if s.len() == 0 {
        -1
    } else if s.last().0 == k {
        s.len() - 1
    } else {
        find_key(s.drop_last(), k)
    }
}

/// Number of trailing-first entries to skip: the position at which `k` belongs in a sorted sequence.
pub open spec fn insert_pos<V>(s: Seq<(Seq<char>, V)>, k: Seq<char>) -> int
    decreases s.len(),
{
    if s.len() == 0 {
        0
    } else if seq_lt(s.last().0, k) {
        s.len() as int
    } else {
        insert_pos(s.drop_last(), k)
    }
}

/// The value stored under `k`.
pub open spec fn map_get<V>(s: Seq<(Seq<char>, V)>, k: Seq<char>) -> Option<V> {
    let i = find_key(s, k);
    if i >= 0 {
        Some(s[i].1)
    } else {
        None
    }
}

/// The entries after storing `v` under `k`: replaced in place, or inserted at its position.
pub open spec fn map_insert<V>(s: Seq<(Seq<char>, V)>, k: Seq<char>, v: V) -> Seq<(Seq<char>, V)> {
    let i = find_key(s, k);
    if i >= 0 {
        s.update(i, (k, v))
    } else {
        s.insert(insert_pos(s, k), (k, v))
    }
}

/// The entries without the one under `k`.
pub open spec fn map_remove<V>(s: Seq<(Seq<char>, V)>, k: Seq<char>) -> Seq<(Seq<char>, V)> {
    let i = find_key(s, k);
    if i >= 0 {
        s.remove(i)
    } else {
        s
    }
}

pub proof fn lemma_find_key<V>(s: Seq<(Seq<char>, V)>, k: Seq<char>)
    ensures
        -1 <= find_key(s, k) < s.len(),
        find_key(s, k) >= 0 ==> s[find_key(s, k)].0 == k,
        find_key(s, k) == -1 <==> forall|i: int| 0 <= i < s.len() ==> s[i].0 != k,
        keys_sorted(s) && find_key(s, k) >= 0 ==> forall|i: int|
            0 <= i < s.len() && i != find_key(s, k) ==> s[i].0 != k,
    decreases s.len(),
{
    if s.len() > 0 {
        lemma_find_key(s.drop_last(), k);
        if s.last().0 != k {
            assert forall|i: int| 0 <= i < s.len() - 1 implies s[i] == s.drop_last()[i] by {}
        }
        if keys_sorted(s) && find_key(s, k) >= 0 {
            assert forall|i: int| 0 <= i < s.len() && i != find_key(s, k) implies s[i].0 != k by {
                let f = find_key(s, k);
                if i < f {
                    assert(seq_lt(s[i].0, s[f].0));
                    lemma_lt_irreflexive(k);
                } else {
                    assert(seq_lt(s[f].0, s[i].0));
                    lemma_lt_irreflexive(k);
                }
            }
        }
    }
}

pub proof fn lemma_insert_pos<V>(s: Seq<(Seq<char>, V)>, k: Seq<char>)
    requires
        keys_sorted(s),
    ensures
        0 <= insert_pos(s, k) <= s.len(),
        forall|j: int| 0 <= j < insert_pos(s, k) ==> seq_lt(#[trigger] s[j].0, k),
        forall|j: int| insert_pos(s, k) <= j < s.len() ==> !seq_lt(#[trigger] s[j].0, k),
    decreases s.len(),
{
    if s.len() > 0 {
        let t = s.drop_last();
        assert(keys_sorted(t)) by {
            assert forall|i: int, j: int| 0 <= i < j < t.len() implies seq_lt(#[trigger] t[i].0, #[trigger] t[j].0) by {
                assert(t[i] == s[i] && t[j] == s[j]);
            }
        }
        lemma_insert_pos(t, k);
        let p = insert_pos(s, k);
        if seq_lt(s.last().0, k) {
            assert forall|j: int| 0 <= j < p implies seq_lt(#[trigger] s[j].0, k) by {
                if j < s.len() - 1 {
                    assert(seq_lt(s[j].0, s[s.len() - 1].0));
                    lemma_lt_transitive(s[j].0, s.last().0, k);
                }
            }
        } else {
            assert forall|j: int| p <= j < s.len() implies !seq_lt(#[trigger] s[j].0, k) by {
                if j < s.len() - 1 {
                    assert(s[j] == t[j]);
                } 
            }
            assert forall|j: int| 0 <= j < p implies seq_lt(#[trigger] s[j].0, k) by {
                assert(s[j] == t[j]);
            }
        }
    }
}

/// Inserting under a fresh key, or replacing a value, keeps the keys sorted.
pub proof fn lemma_insert_sorted<V>(s: Seq<(Seq<char>, V)>, k: Seq<char>, v: V)
    requires
        keys_sorted(s),
    ensures
        keys_sorted(map_insert(s, k, v)),
        map_insert(s, k, v).len() == s.len() + (if find_key(s, k) >= 0 { 0int } else { 1int }),
{
    lemma_find_key(s, k);
    let i = find_key(s, k);
    let r = map_insert(s, k, v);
    if i >= 0 {
        assert forall|a: int, b: int| 0 <= a < b < r.len() implies seq_lt(#[trigger] r[a].0, #[trigger] r[b].0) by {
            assert(r[a].0 == s[a].0 && r[b].0 == s[b].0);
        }
    } else {
        lemma_insert_pos(s, k);
        let p = insert_pos(s, k);
        assert forall|a: int, b: int| 0 <= a < b < r.len() implies seq_lt(#[trigger] r[a].0, #[trigger] r[b].0) by {
            if b < p {
                assert(r[a] == s[a] && r[b] == s[b]);
            } else if b == p {
                assert(r[a] == s[a]);
            } else if a < p {
                assert(r[a] == s[a] && r[b] == s[b - 1]);
                lemma_lt_total(s[b - 1].0, k);
                if a == p - 1 {
                } 
                lemma_lt_transitive(s[a].0, k, s[b - 1].0);
            } else if a == p {
                assert(r[b] == s[b - 1]);
                lemma_lt_total(s[b - 1].0, k);
            } else {
                assert(r[a] == s[a - 1] && r[b] == s[b - 1]);
            }
        }
    }
}

/// Removing a key keeps the keys sorted.
pub proof fn lemma_remove_sorted<V>(s: Seq<(Seq<char>, V)>, k: Seq<char>)
    requires
        keys_sorted(s),
    ensures
        keys_sorted(map_remove(s, k)),
{
    lemma_find_key(s, k);
    let i = find_key(s, k);
    let r = map_remove(s, k);
    if i >= 0 {
        assert forall|a: int, b: int| 0 <= a < b < r.len() implies seq_lt(#[trigger] r[a].0, #[trigger] r[b].0) by {
            let a2 = if a < i { a } else { a + 1 };
            let b2 = if b < i { b } else { b + 1 };
            assert(r[a] == s[a2] && r[b] == s[b2]);
        }
    }
}

/// In a sorted sequence, the value stored under a key is that of the entry with the key.
pub proof fn lemma_map_get_index<V>(s: Seq<(Seq<char>, V)>, i: int)
    requires
        keys_sorted(s),
        0 <= i < s.len(),
    ensures
        map_get(s, s[i].0) == Some(s[i].1),
{
    lemma_find_key(s, s[i].0);
}

/// A key absent from every entry has no value.
pub proof fn lemma_map_get_none<V>(s: Seq<(Seq<char>, V)>, k: Seq<char>)
    requires
        forall|i: int| 0 <= i < s.len() ==> s[i].0 != k,
    ensures
        map_get(s, k) is None,
{
    lemma_find_key(s, k);
}

/// What is stored under each key after storing `v` under `k`.
pub proof fn lemma_map_insert_get<V>(s: Seq<(Seq<char>, V)>, k: Seq<char>, v: V, k2: Seq<char>)
    requires
        keys_sorted(s),
    ensures
        map_get(map_insert(s, k, v), k2) == if k2 == k {
            Some(v)
        } else {
            map_get(s, k2)
        },
{
    lemma_insert_sorted(s, k, v);
    lemma_find_key(s, k);
    lemma_find_key(s, k2);
    let r = map_insert(s, k, v);
    let f = find_key(s, k);
    let p = insert_pos(s, k);
    // the position of `k` in the new sequence
    let at = if f >= 0 { f } else { p };
    if f < 0 {
        lemma_insert_pos(s, k);
    }
    assert(r[at] == (k, v));
    if k2 == k {
        lemma_map_get_index(r, at);
    } else {
        let g = find_key(s, k2);
        if g >= 0 {
            let g2 = if f >= 0 || g < p { g } else { g + 1 };
            assert(r[g2] == s[g]);
            lemma_map_get_index(r, g2);
        } else {
            assert forall|i: int| 0 <= i < r.len() implies r[i].0 != k2 by {
                if f >= 0 {
                    if i != f {
                        assert(r[i] == s[i]);
                    }
                } else if i < p {
                    assert(r[i] == s[i]);
                } else if i > p {
                    assert(r[i] == s[i - 1]);
                }
            }
            lemma_map_get_none(r, k2);
        }
    }
}

/// What is stored under each key after removing `k`.
pub proof fn lemma_map_remove_get<V>(s: Seq<(Seq<char>, V)>, k: Seq<char>, k2: Seq<char>)
    requires
        keys_sorted(s),
    ensures
        map_get(map_remove(s, k), k2) == if k2 == k {
            None
        } else {
            map_get(s, k2)
        },
{
    lemma_remove_sorted(s, k);
    lemma_find_key(s, k);
    lemma_find_key(s, k2);
    let r = map_remove(s, k);
    let f = find_key(s, k);
    if k2 == k {
        assert forall|i: int| 0 <= i < r.len() implies r[i].0 != k2 by {
            if f >= 0 {
                if i < f {
                    assert(r[i] == s[i]);
                } else {
                    assert(r[i] == s[i + 1]);
                }
            }
        }
        lemma_map_get_none(r, k2);
    } else {
        let g = find_key(s, k2);
        if f >= 0 {
            if g >= 0 {
                let g2 = if g < f { g } else { g - 1 };
                assert(r[g2] == s[g]);
                lemma_map_get_index(r, g2);
            } else {
                assert forall|i: int| 0 <= i < r.len() implies r[i].0 != k2 by {
                    if i < f {
                        assert(r[i] == s[i]);
                    } else {
                        assert(r[i] == s[i + 1]);
                    }
                }
                lemma_map_get_none(r, k2);
            }
        }
    }
}

/// The views of stored entries.
pub open spec fn entries_view<V: View>(v: Seq<(String, V)>) -> Seq<(Seq<char>, V::V)> {
    v.map_values(|e: (String, V)| (e.0@, e.1@))
}

/// A copy that has the same view.
pub trait Duplicate: View + Sized {
    fn duplicate(&self) -> (r: Self)
        ensures
            r@ == self@,
    ;
}

impl Duplicate for String {
    fn duplicate(&self) -> (r: Self) {
        self.clone()
    }
}

/// An ordered map from strings to values.
#[derive(Debug, PartialEq, Eq)]
pub struct StrMap<V: View> {
    entries: Vec<(String, V)>,
}

impl<V: View> View for StrMap<V> {
    type V = Seq<(Seq<char>, V::V)>;

    closed spec fn view(&self) -> Seq<(Seq<char>, V::V)> {
        entries_view(self.entries@)
    }
}

impl<V: View> StrMap<V> {
    #[verifier::type_invariant]
    spec fn wf(self) -> bool {
        keys_sorted(self@)
    }

    /// An empty map.
    pub fn new() -> (r: Self)
        ensures
            r@ == Seq::<(Seq<char>, V::V)>::empty(),
            keys_sorted(r@),
    {
        let r = StrMap { entries: Vec::new() };
        assert(r@ =~= Seq::<(Seq<char>, V::V)>::empty());
        r
    }

    /// Number of entries.
    pub fn len(&self) -> (r: usize)
        ensures
            keys_sorted(self@),
            r == self@.len(),
    {
        proof {
            use_type_invariant(self);
        }
        self.entries.len()
    }

    /// Whether the map has no entry.
    pub fn is_empty(&self) -> (r: bool)
        ensures
            keys_sorted(self@),
            r == (self@.len() == 0),
    {
        proof {
            use_type_invariant(self);
        }
        self.entries.len() == 0
    }

    /// The key of the entry at position `i`.
    pub fn key_at(&self, i: usize) -> (r: &String)
        requires
            i < self@.len(),
        ensures
            keys_sorted(self@),
            r@ == self@[i as int].0,
    {
        proof {
            use_type_invariant(self);
        }
        &self.entries[i].0
    }

    /// The value of the entry at position `i`.
    pub fn value_at(&self, i: usize) -> (r: &V)
        requires
            i < self@.len(),
        ensures
            keys_sorted(self@),
            r@ == self@[i as int].1,
    {
        proof {
            use_type_invariant(self);
        }
        &self.entries[i].1
    }

    /// Position of the entry under `k`, if any.
    pub fn position(&self, k: &str) -> (r: Option<usize>)
        ensures
            keys_sorted(self@),
            r matches Some(i) ==> i == find_key(self@, k@),
            r is None ==> find_key(self@, k@) == -1,
    {
        proof {
            use_type_invariant(self);
        }
        let mut i = self.entries.len();
        assert(self@.subrange(0, i as int) =~= self@);
        while i > 0
            invariant
                keys_sorted(self@),
                i <= self@.len(),
                self@.len() == self.entries@.len(),
                find_key(self@, k@) == find_key(self@.subrange(0, i as int), k@),
            decreases i,
        {
            let ghost pre = self@.subrange(0, i as int);
            if str_eq(self.entries[i - 1].0.as_str(), k) {
                assert(pre.last() == self@[i - 1]);
                return Some(i - 1);
            }
            assert(pre.drop_last() =~= self@.subrange(0, i - 1));
            i = i - 1;
        }
        None
    }

    /// Whether the map has an entry under `k`.
    pub fn contains_key(&self, k: &str) -> (r: bool)
        ensures
            keys_sorted(self@),
            r == (find_key(self@, k@) >= 0),
    {
        proof {
            use_type_invariant(self);
        }
        self.position(k).is_some()
    }

    /// The value under `k`.
    pub fn get(&self, k: &str) -> (r: Option<&V>)
        ensures
            keys_sorted(self@),
            r is Some <==> map_get(self@, k@) is Some,
            r matches Some(v) ==> map_get(self@, k@) == Some(v@),
    {
        proof {
            use_type_invariant(self);
        }
        proof {
            lemma_find_key(self@, k@);
        }
        match self.position(k) {
            Some(i) => Some(&self.entries[i].1),
            None => None,
        }
    }

    /// The stored key and value under `k`.
    pub fn get_key_value(&self, k: &str) -> (r: Option<(&String, &V)>)
        ensures
            keys_sorted(self@),
            r is Some <==> map_get(self@, k@) is Some,
            r matches Some(kv) ==> kv.0@ == k@ && map_get(self@, k@) == Some(kv.1@),
    {
        proof {
            use_type_invariant(self);
        }
        proof {
            lemma_find_key(self@, k@);
        }
        match self.position(k) {
            Some(i) => Some((&self.entries[i].0, &self.entries[i].1)),
            None => None,
        }
    }

    /// Stores `v` under `k`, and gives back the value it replaces.
    pub fn insert(&mut self, k: String, v: V) -> (r: Option<V>)
        ensures
            final(self)@ == map_insert(old(self)@, k@, v@),
            keys_sorted(old(self)@),
            keys_sorted(final(self)@),
            r is Some <==> map_get(old(self)@, k@) is Some,
            r matches Some(ov) ==> map_get(old(self)@, k@) == Some(ov@),
    {
        proof {
            use_type_invariant(&*self);
            lemma_find_key(self@, k@);
            lemma_insert_sorted(self@, k@, v@);
        }
        let ghost s = self@;
        match self.position(k.as_str()) {
            Some(i) => {
                let mut entries: Vec<(String, V)> = Vec::new();
                std::mem::swap(&mut entries, &mut self.entries);
                let (_, ov) = entries.remove(i);
                entries.insert(i, (k, v));
                assert(entries_view(entries@) =~= map_insert(s, k@, v@));
                self.entries = entries;
                assert(self@ =~= map_insert(s, k@, v@));
                Some(ov)
            },
            None => {
                let mut p: usize = 0;
                proof {
                    lemma_insert_pos(s, k@);
                }
                while p < self.entries.len() && str_lt(self.entries[p].0.as_str(), k.as_str())
                    invariant
                        s == self@,
                        self@.len() == self.entries@.len(),
                        keys_sorted(s),
                        p <= s.len(),
                        p <= insert_pos(s, k@),
                        0 <= insert_pos(s, k@) <= s.len(),
                        forall|j: int| insert_pos(s, k@) <= j < s.len() ==> !seq_lt(#[trigger] s[j].0, k@),
                    decreases s.len() - p,
                {
                    assert(seq_lt(s[p as int].0, k@));
                    p = p + 1;
                }
                assert(p == insert_pos(s, k@)) by {
                    if p < insert_pos(s, k@) {
                        lemma_insert_pos(s, k@);
                        assert(seq_lt(s[p as int].0, k@));
                    }
                }
                let mut entries: Vec<(String, V)> = Vec::new();
                std::mem::swap(&mut entries, &mut self.entries);
                entries.insert(p, (k, v));
                assert(entries_view(entries@) =~= map_insert(s, k@, v@));
                self.entries = entries;
                assert(self@ =~= map_insert(s, k@, v@));
                None
            },
        }
    }

    /// Removes the entry under `k`, and gives back its value.
    pub fn remove(&mut self, k: &str) -> (r: Option<V>)
        ensures
            final(self)@ == map_remove(old(self)@, k@),
            keys_sorted(old(self)@),
            keys_sorted(final(self)@),
            r is Some <==> map_get(old(self)@, k@) is Some,
            r matches Some(ov) ==> map_get(old(self)@, k@) == Some(ov@),
    {
        proof {
            use_type_invariant(&*self);
            lemma_find_key(self@, k@);
            lemma_remove_sorted(self@, k@);
        }
        let ghost s = self@;
        match self.position(k) {
            Some(i) => {
                let mut entries: Vec<(String, V)> = Vec::new();
                std::mem::swap(&mut entries, &mut self.entries);
                let (_, ov) = entries.remove(i);
                assert(entries_view(entries@) =~= map_remove(s, k@));
                self.entries = entries;
                assert(self@ =~= map_remove(s, k@));
                Some(ov)
            },
            None => None,
        }
    }
}

impl<V: View> StrMap<V> {
    /// The entries, in increasing key order.
    pub fn into_entries(self) -> (r: Vec<(String, V)>)
        ensures
            entries_view(r@) == self@,
            keys_sorted(self@),
    {
        proof {
            use_type_invariant(&self);
        }
        self.entries
    }
}

impl<V: View + Duplicate> StrMap<V> {
    /// A copy of the map.
    pub fn duplicate(&self) -> (r: Self)
        ensures
            r@ == self@,
    {
        proof {
            use_type_invariant(self);
        }
        let mut entries: Vec<(String, V)> = Vec::new();
        let mut i: usize = 0;
        while i < self.entries.len()
            invariant
                i <= self.entries@.len(),
                self@.len() == self.entries@.len(),
                entries@.len() == i,
                entries_view(entries@) == self@.take(i as int),
            decreases self.entries.len() - i,
        {
            let k = self.entries[i].0.clone();
            let v = self.entries[i].1.duplicate();
            assert(self@[i as int] == (self.entries@[i as int].0@, self.entries@[i as int].1@));
            let ghost before = entries@;
            entries.push((k, v));
            assert(entries@ == before.push((k, v)));
            assert(before.len() == i);
            assert(entries@.len() == i + 1);
            assert(entries_view(entries@).len() == i + 1);
            assert(entries_view(entries@)[i as int] == self@[i as int]);
            assert forall|j: int| 0 <= j < i implies entries_view(entries@)[j] == entries_view(before)[j] by {}
            i = i + 1;
            assert(entries_view(entries@) =~= self@.take(i as int));
        }
        assert(self@.take(i as int) =~= self@);
        StrMap { entries }
    }
}

} // verus!
