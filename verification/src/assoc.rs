//! A map keyed by strings, holding its entries in insertion order.

use vstd::prelude::*;
use crate::text::str_eq;

verus! {

/// The map that a list of entries describes: a later entry for a key
/// overrides an earlier one.
pub open spec fn entries_map<V>(e: Seq<(String, V)>) -> Map<Seq<char>, V>
    decreases e.len(),
{
    if e.len() == 0 {
        Map::empty()
    } else {
        entries_map(e.drop_last()).insert(e.last().0@, e.last().1)
    }
}

/// No two entries share a key.
pub open spec fn distinct_keys<V>(e: Seq<(String, V)>) -> bool {
    forall|i: int, j: int| 0 <= i < j < e.len() ==> e[i].0@ != e[j].0@
}

/// The values of a string-valued map, read as character sequences.
pub open spec fn text_view(m: Map<Seq<char>, String>) -> Map<Seq<char>, Seq<char>> {
    m.map_values(|v: String| v@)
}

pub proof fn lemma_entries_map_dom<V>(e: Seq<(String, V)>, k: Seq<char>)
    ensures
        entries_map(e).dom().contains(k) <==> exists|i: int| 0 <= i < e.len() && e[i].0@ == k,
    decreases e.len(),
{
    if e.len() > 0 {
        lemma_entries_map_dom(e.drop_last(), k);
        if entries_map(e).dom().contains(k) && k != e.last().0@ {
            let i = choose|i: int| 0 <= i < e.len() - 1 && e.drop_last()[i].0@ == k;
            assert(e[i].0@ == k);
        }
        if exists|i: int| 0 <= i < e.len() && e[i].0@ == k {
            let i = choose|i: int| 0 <= i < e.len() && e[i].0@ == k;
            if i < e.len() - 1 {
                assert(e.drop_last()[i].0@ == k);
            }
        }
    }
}

pub proof fn lemma_entries_map_finite<V>(e: Seq<(String, V)>)
    ensures
        entries_map(e).dom().finite(),
        distinct_keys(e) ==> entries_map(e).dom().len() == e.len(),
    decreases e.len(),
{
    if e.len() > 0 {
        lemma_entries_map_finite(e.drop_last());
        if distinct_keys(e) {
            assert(distinct_keys(e.drop_last()));
            lemma_entries_map_dom(e.drop_last(), e.last().0@);
            if entries_map(e.drop_last()).dom().contains(e.last().0@) {
                let i = choose|i: int| 0 <= i < e.len() - 1 && e.drop_last()[i].0@ == e.last().0@;
                assert(e[i].0@ == e[e.len() - 1].0@);
            }
        }
    }
}

pub proof fn lemma_entries_map_at<V>(e: Seq<(String, V)>, i: int)
    requires
        distinct_keys(e),
        0 <= i < e.len(),
    ensures
        entries_map(e).dom().contains(e[i].0@),
        entries_map(e)[e[i].0@] == e[i].1,
    decreases e.len(),
{
    lemma_entries_map_dom(e, e[i].0@);
    if i < e.len() - 1 {
        assert(distinct_keys(e.drop_last()));
        assert(e.drop_last()[i] == e[i]);
        lemma_entries_map_at(e.drop_last(), i);
        assert(e[i].0@ != e.last().0@);
    }
}

pub proof fn lemma_entries_map_update<V>(e: Seq<(String, V)>, i: int, entry: (String, V))
    requires
        distinct_keys(e),
        0 <= i < e.len(),
        entry.0@ == e[i].0@,
    ensures
        distinct_keys(e.update(i, entry)),
        entries_map(e.update(i, entry)) == entries_map(e).insert(entry.0@, entry.1),
    decreases e.len(),
{
    let u = e.update(i, entry);
    assert(distinct_keys(u)) by {
        assert forall|a: int, b: int| 0 <= a < b < u.len() implies u[a].0@ != u[b].0@ by {
            assert(e[a].0@ != e[b].0@);
        }
    }
    if i == e.len() - 1 {
        assert(u.drop_last() =~= e.drop_last());
        assert(entries_map(e.drop_last()).insert(e.last().0@, e.last().1).insert(entry.0@, entry.1)
            =~= entries_map(e.drop_last()).insert(entry.0@, entry.1));
    } else {
        assert(distinct_keys(e.drop_last()));
        lemma_entries_map_update(e.drop_last(), i, entry);
        assert(u.drop_last() =~= e.drop_last().update(i, entry));
        assert(e[i].0@ != e.last().0@);
        assert(entries_map(e.drop_last()).insert(entry.0@, entry.1).insert(e.last().0@, e.last().1)
            =~= entries_map(e.drop_last()).insert(e.last().0@, e.last().1).insert(entry.0@, entry.1));
    }
}

pub proof fn lemma_entries_map_remove<V>(e: Seq<(String, V)>, i: int)
    requires
        distinct_keys(e),
        0 <= i < e.len(),
    ensures
        distinct_keys(e.remove(i)),
        entries_map(e.remove(i)) == entries_map(e).remove(e[i].0@),
    decreases e.len(),
{
    let r = e.remove(i);
    assert(distinct_keys(r)) by {
        assert forall|a: int, b: int| 0 <= a < b < r.len() implies r[a].0@ != r[b].0@ by {
            if a < i && b < i {
                assert(e[a].0@ != e[b].0@);
            } else if a < i {
                assert(e[a].0@ != e[b + 1].0@);
            } else {
                assert(e[a + 1].0@ != e[b + 1].0@);
            }
        }
    }
    if i == e.len() - 1 {
        assert(r =~= e.drop_last());
        lemma_entries_map_dom(e.drop_last(), e[i].0@);
        if entries_map(e.drop_last()).dom().contains(e[i].0@) {
            let j = choose|j: int| 0 <= j < e.len() - 1 && e.drop_last()[j].0@ == e[i].0@;
            assert(e[j].0@ == e[i].0@);
        }
        assert(entries_map(e.drop_last()) =~= entries_map(e.drop_last()).insert(e.last().0@, e.last().1).remove(e[i].0@));
    } else {
        assert(distinct_keys(e.drop_last()));
        lemma_entries_map_remove(e.drop_last(), i);
        assert(r.drop_last() =~= e.drop_last().remove(i));
        assert(r.last() == e.last());
        assert(e[i].0@ != e.last().0@);
        assert(entries_map(e.drop_last()).remove(e[i].0@).insert(e.last().0@, e.last().1)
            =~= entries_map(e.drop_last()).insert(e.last().0@, e.last().1).remove(e[i].0@));
    }
}

/// A map from strings to values that keeps its entries in the order their
/// keys were first inserted. Inserting an existing key replaces its value in
/// place.
#[derive(Debug)]
pub struct StringMap<V> {
    entries: Vec<(String, V)>,
}

impl<V> View for StringMap<V> {
    type V = Map<Seq<char>, V>;

    closed spec fn view(&self) -> Map<Seq<char>, V> {
        entries_map(self.entries@)
    }
}

impl<V> StringMap<V> {
    #[verifier::type_invariant]
    closed spec fn keys_distinct(&self) -> bool {
        distinct_keys(self.entries@)
    }

    /// The keys in insertion order.
    pub closed spec fn key_order(&self) -> Seq<Seq<char>> {
        self.entries@.map_values(|e: (String, V)| e.0@)
    }

    /// The value stored at position `i` of the insertion order.
    pub closed spec fn value_order(&self) -> Seq<V> {
        self.entries@.map_values(|e: (String, V)| e.1)
    }

    /// An empty map.
    pub fn new() -> (m: Self)
        ensures
            m@ == Map::<Seq<char>, V>::empty(),
            m.key_order().len() == 0,
    {
        StringMap { entries: Vec::new() }
    }

    /// The number of keys. The insertion order lists exactly the keys of the
    /// map, once each, next to their values.
    pub fn len(&self) -> (n: usize)
        ensures
            n == self@.len(),
            n == self.key_order().len(),
            n == self.value_order().len(),
            self@.dom().finite(),
            forall|i: int, j: int|
                0 <= i < j < self.key_order().len() ==> self.key_order()[i] != self.key_order()[j],
            forall|i: int|
                0 <= i < self.key_order().len() ==> #[trigger] self@.dom().contains(self.key_order()[i])
                    && self@[self.key_order()[i]] == self.value_order()[i],
            forall|k: Seq<char>|
                #[trigger] self@.dom().contains(k) ==> exists|i: int|
                    0 <= i < self.key_order().len() && self.key_order()[i] == k,
    {
        proof {
            use_type_invariant(self);
            lemma_entries_map_finite(self.entries@);
            assert forall|i: int| 0 <= i < self.key_order().len() implies #[trigger] self@.dom().contains(
                self.key_order()[i],
            ) && self@[self.key_order()[i]] == self.value_order()[i] by {
                lemma_entries_map_at(self.entries@, i);
            }
            assert forall|k: Seq<char>| #[trigger] self@.dom().contains(k) implies exists|i: int|
                0 <= i < self.key_order().len() && self.key_order()[i] == k by {
                lemma_entries_map_dom(self.entries@, k);
                let i = choose|i: int| 0 <= i < self.entries@.len() && self.entries@[i].0@ == k;
                assert(self.key_order()[i] == k);
            }
        }
        self.entries.len()
    }

    /// The position of `key` in the insertion order, if present.
    fn position(&self, key: &str) -> (r: Option<usize>)
        ensures
            match r {
                Some(i) => i < self.entries@.len() && self.entries@[i as int].0@ == key@,
                None => forall|i: int| 0 <= i < self.entries@.len() ==> self.entries@[i].0@ != key@,
            },
    {
        let mut i: usize = 0;
        while i < self.entries.len()
            invariant
                i <= self.entries@.len(),
                forall|j: int| 0 <= j < i ==> self.entries@[j].0@ != key@,
            decreases self.entries@.len() - i,
        {
            if str_eq(self.entries[i].0.as_str(), key) {
                return Some(i);
            }
            i = i + 1;
        }
        None
    }

    /// The value stored for `key`.
    pub fn get(&self, key: &str) -> (r: Option<&V>)
        ensures
            r == (if self@.dom().contains(key@) { Some(&self@[key@]) } else { None::<&V> }),
    {
        proof {
            use_type_invariant(self);
            lemma_entries_map_dom(self.entries@, key@);
        }
        match self.position(key) {
            Some(i) => {
                proof {
                    lemma_entries_map_at(self.entries@, i as int);
                }
                Some(&self.entries[i].1)
            },
            None => None,
        }
    }

    /// Whether `key` has a value.
    pub fn contains_key(&self, key: &str) -> (r: bool)
        ensures
            r == self@.dom().contains(key@),
    {
        proof {
            use_type_invariant(self);
            lemma_entries_map_dom(self.entries@, key@);
        }
        self.position(key).is_some()
    }

    /// Sets the value of `key`, replacing any earlier value in place.
    pub fn insert(&mut self, key: String, value: V)
        ensures
            final(self)@ == old(self)@.insert(key@, value),
            old(self)@.dom().contains(key@) ==> final(self).key_order() == old(self).key_order(),
            !old(self)@.dom().contains(key@) ==> final(self).key_order() == old(self).key_order().push(key@),
    {
        proof {
            use_type_invariant(&*self);
            lemma_entries_map_dom(self.entries@, key@);
        }
        match self.position(key.as_str()) {
            Some(i) => {
                proof {
                    lemma_entries_map_update(self.entries@, i as int, (key, value));
                }
                let mut entries = Vec::new();
                std::mem::swap(&mut entries, &mut self.entries);
                entries.set(i, (key, value));
                self.entries = entries;
                assert(self.key_order() =~= old(self).key_order());
            },
            None => {
                let ghost before = self.entries@;
                let mut entries = Vec::new();
                std::mem::swap(&mut entries, &mut self.entries);
                entries.push((key, value));
                self.entries = entries;
                proof {
                    assert(self.entries@.drop_last() =~= before);
                    assert(self.key_order() =~= old(self).key_order().push(key@));
                }
            },
        }
    }

    /// Removes `key`, returning its value.
    pub fn remove(&mut self, key: &str) -> (r: Option<V>)
        ensures
            final(self)@ == old(self)@.remove(key@),
            r == (if old(self)@.dom().contains(key@) { Some(old(self)@[key@]) } else { None::<V> }),
    {
        proof {
            use_type_invariant(&*self);
            lemma_entries_map_dom(self.entries@, key@);
        }
        match self.position(key) {
            Some(i) => {
                proof {
                    lemma_entries_map_at(self.entries@, i as int);
                    lemma_entries_map_remove(self.entries@, i as int);
                }
                let mut entries = Vec::new();
                std::mem::swap(&mut entries, &mut self.entries);
                let (_, v) = entries.remove(i);
                self.entries = entries;
                Some(v)
            },
            None => {
                proof {
                    assert(old(self)@.remove(key@) =~= old(self)@);
                }
                None
            },
        }
    }

    /// Removes every entry.
    pub fn clear(&mut self)
        ensures
            final(self)@ == Map::<Seq<char>, V>::empty(),
            final(self).key_order().len() == 0,
    {
        self.entries = Vec::new();
    }

    /// The key at position `i` of the insertion order.
    pub fn key_at(&self, i: usize) -> (k: &String)
        requires
            i < self.key_order().len(),
        ensures
            k@ == self.key_order()[i as int],
            self@.dom().contains(k@),
    {
        proof {
            use_type_invariant(self);
            lemma_entries_map_at(self.entries@, i as int);
        }
        &self.entries[i].0
    }

    /// The value at position `i` of the insertion order.
    pub fn value_at(&self, i: usize) -> (v: &V)
        requires
            i < self.key_order().len(),
        ensures
            *v == self.value_order()[i as int],
            *v == self@[self.key_order()[i as int]],
    {
        proof {
            use_type_invariant(self);
            lemma_entries_map_at(self.entries@, i as int);
        }
        &self.entries[i].1
    }
}

impl<V: Clone> Clone for StringMap<V> {
    /// A copy with the same keys, in the same order, and cloned values.
    fn clone(&self) -> (r: Self)
        ensures
            r.key_order() == self.key_order(),
    {
        proof {
            use_type_invariant(self);
        }
        let mut entries: Vec<(String, V)> = Vec::new();
        let mut i: usize = 0;
        while i < self.entries.len()
            invariant
                i <= self.entries@.len(),
                entries@.len() == i,
                forall|j: int| 0 <= j < i ==> #[trigger] entries@[j].0 == self.entries@[j].0,
            decreases self.entries@.len() - i,
        {
            let k = self.entries[i].0.clone();
            let v = self.entries[i].1.clone();
            entries.push((k, v));
            i = i + 1;
        }
        proof {
            assert(distinct_keys(entries@)) by {
                assert forall|a: int, b: int| 0 <= a < b < entries@.len() implies entries@[a].0@
                    != entries@[b].0@ by {
                    assert(entries@[a].0 == self.entries@[a].0);
                    assert(entries@[b].0 == self.entries@[b].0);
                }
            }
        }
        let r = StringMap { entries };
        assert(r.key_order() =~= self.key_order());
        r
    }
}

impl StringMap<String> {
    /// A copy of the map, with the same entries in the same order.
    pub fn duplicate(&self) -> (r: Self)
        ensures
            r@ == self@,
            r.key_order() == self.key_order(),
    {
        proof {
            use_type_invariant(self);
        }
        let mut entries: Vec<(String, String)> = Vec::new();
        let mut i: usize = 0;
        while i < self.entries.len()
            invariant
                i <= self.entries@.len(),
                entries@ == self.entries@.subrange(0, i as int),
            decreases self.entries@.len() - i,
        {
            let k = self.entries[i].0.clone();
            let v = self.entries[i].1.clone();
            entries.push((k, v));
            assert(entries@ =~= self.entries@.subrange(0, i + 1));
            i = i + 1;
        }
        assert(self.entries@.subrange(0, self.entries@.len() as int) =~= self.entries@);
        StringMap { entries }
    }
}

} // verus!
