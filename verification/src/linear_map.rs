//! A small map that keeps its entries in a list, in the order in which their
//! keys were first inserted.
//!
//! The stores of this crate hold a handful of entries each and are walked
//! from front to back every frame, so a list serves them better than a hash
//! table: it has an order, and the order is part of what can be proved.

use vstd::prelude::*;

verus! {

/// A key that executable code can compare.
pub trait Key: Copy {
    fn same(&self, other: &Self) -> (r: bool)
        ensures
            r == (*self == *other),
    ;
}

/// Whether entry `i` of `entries` is the first one under `key`.
pub open spec fn is_first<K, V>(entries: Seq<(K, V)>, key: K, i: int) -> bool {
    &&& 0 <= i < entries.len()
    &&& entries[i].0 == key
    &&& forall|j: int| 0 <= j < i ==> (#[trigger] entries[j]).0 != key
}

/// The map that a list of entries stands for: a key maps to the value of
/// the first entry under it.
pub open spec fn assoc_map<K, V>(entries: Seq<(K, V)>) -> Map<K, V> {
    Map::new(
        |key: K| exists|i: int| is_first(entries, key, i),
        |key: K| entries[choose|i: int| is_first(entries, key, i)].1,
    )
}

/// At most one entry is the first under a key, so a first entry decides the
/// key's value.
pub proof fn lemma_first_decides<K, V>(entries: Seq<(K, V)>, key: K, i: int)
    requires
        is_first(entries, key, i),
    ensures
        assoc_map(entries).contains_key(key),
        assoc_map(entries)[key] == entries[i].1,
{
    let c = choose|c: int| is_first(entries, key, c);
    assert(c == i) by {
        if c < i {
            assert(entries[c].0 != key);
        } else if i < c {
            assert(entries[i].0 != key);
        }
    }
}

/// A key that no entry carries is not in the map.
pub proof fn lemma_absent<K, V>(entries: Seq<(K, V)>, key: K)
    requires
        forall|i: int| 0 <= i < entries.len() ==> (#[trigger] entries[i]).0 != key,
    ensures
        !assoc_map(entries).contains_key(key),
{
}

/// A map from `K` to `V`, held as a list of entries.
pub struct LinearMap<K, V> {
    entries: Vec<(K, V)>,
}

impl<K: Key, V> LinearMap<K, V> {
    /// The entries in the order in which they are held.
    pub closed spec fn entries(&self) -> Seq<(K, V)> {
        self.entries@
    }

    pub open spec fn view(&self) -> Map<K, V> {
        assoc_map(self.entries())
    }

    pub fn new() -> (m: Self)
        ensures
            m.entries() == Seq::<(K, V)>::empty(),
            m@ == Map::<K, V>::empty(),
    {
        let m = LinearMap { entries: Vec::new() };
        assert(m@ =~= Map::<K, V>::empty());
        m
    }

    /// The number of entries held.
    pub fn len(&self) -> (n: usize)
        ensures
            n == self.entries().len(),
    {
        self.entries.len()
    }

    /// The index of the first entry under `key`.
    pub fn find(&self, key: &K) -> (r: Option<usize>)
        ensures
            match r {
                Some(i) => is_first(self.entries(), *key, i as int),
                None => forall|i: int|
                    0 <= i < self.entries().len() ==> (#[trigger] self.entries()[i]).0 != *key,
            },
            r is Some <==> self@.contains_key(*key),
    {
        let mut i: usize = 0;
        while i < self.entries.len()
            invariant
                i <= self.entries.len(),
                forall|j: int| 0 <= j < i ==> (#[trigger] self.entries@[j]).0 != *key,
            decreases self.entries.len() - i,
        {
            if self.entries[i].0.same(key) {
                proof {
                    lemma_first_decides(self.entries(), *key, i as int);
                }
                return Some(i);
            }
            i += 1;
        }
        proof {
            lemma_absent(self.entries(), *key);
        }
        None
    }

    pub fn contains_key(&self, key: &K) -> (b: bool)
        ensures
            b == self@.contains_key(*key),
    {
        self.find(key).is_some()
    }

    pub fn get(&self, key: &K) -> (r: Option<&V>)
        ensures
            match r {
                Some(v) => self@.contains_key(*key) && *v == self@[*key],
                None => !self@.contains_key(*key),
            },
    {
        match self.find(key) {
            Some(i) => {
                proof {
                    lemma_first_decides(self.entries(), *key, i as int);
                }
                Some(&self.entries[i].1)
            },
            None => None,
        }
    }

    /// The key of entry `i`.
    pub fn key_at(&self, i: usize) -> (key: K)
        requires
            i < self.entries().len(),
        ensures
            key == self.entries()[i as int].0,
    {
        self.entries[i].0
    }

    /// The value of entry `i`.
    pub fn value_at(&self, i: usize) -> (value: &V)
        requires
            i < self.entries().len(),
        ensures
            *value == self.entries()[i as int].1,
    {
        &self.entries[i].1
    }

    /// Replaces the value of entry `i`, leaving its key and all other
    /// entries as they are.
    pub fn set_value_at(&mut self, i: usize, value: V)
        requires
            i < old(self).entries().len(),
        ensures
            final(self).entries() == old(self).entries().update(
                i as int,
                (old(self).entries()[i as int].0, value),
            ),
    {
        self.entries[i].1 = value;
        assert(self.entries@ =~= old(self).entries@.update(
            i as int,
            (old(self).entries@[i as int].0, value),
        ));
    }

    /// Maps `key` to `value`. A key that is new goes behind all others; one
    /// that is known keeps its place.
    pub fn insert(&mut self, key: K, value: V)
        ensures
            final(self)@ == old(self)@.insert(key, value),
            old(self)@.contains_key(key) ==> exists|i: int|
                is_first(old(self).entries(), key, i) && #[trigger] old(self).entries().update(
                    i,
                    (key, value),
                ) == final(self).entries(),
            !old(self)@.contains_key(key) ==> final(self).entries() == old(self).entries().push(
                (key, value),
            ),
    {
        let ghost before = self.entries@;
        match self.find(&key) {
            Some(i) => {
                self.entries[i].1 = value;
                proof {
                    let after = self.entries@;
                    assert forall|k: K, j: int| is_first(after, k, j) <==> is_first(before, k, j) by {
                        if is_first(after, k, j) {
                            assert(forall|l: int| 0 <= l < j ==> (#[trigger] before[l]).0 == after[l].0);
                        }
                        if is_first(before, k, j) {
                            assert(forall|l: int| 0 <= l < j ==> (#[trigger] after[l]).0 == before[l].0);
                        }
                    }
                    assert forall|k: K| #[trigger]
                        assoc_map(after).contains_key(k) implies assoc_map(after)[k] == assoc_map(
                        before,
                    ).insert(key, value)[k] by {
                        let j = choose|j: int| is_first(after, k, j);
                        lemma_first_decides(after, k, j);
                        lemma_first_decides(before, k, j);
                        if k == key {
                            lemma_first_decides(after, key, i as int);
                        }
                    }
                    lemma_first_decides(after, key, i as int);
                    assert(assoc_map(after) =~= assoc_map(before).insert(key, value));
                    assert(after =~= before.update(i as int, (key, value)));
                }
            },
            None => {
                self.entries.push((key, value));
                proof {
                    let after = self.entries@;
                    let n = before.len() as int;
                    assert(is_first(after, key, n));
                    lemma_first_decides(after, key, n);
                    assert forall|k: K, j: int| k != key implies (is_first(after, k, j) <==> is_first(
                        before,
                        k,
                        j,
                    )) by {
                        if is_first(after, k, j) {
                            assert(forall|l: int| 0 <= l < j ==> (#[trigger] before[l]) == after[l]);
                        }
                        if is_first(before, k, j) {
                            assert(forall|l: int| 0 <= l < j ==> (#[trigger] after[l]) == before[l]);
                        }
                    }
                    assert forall|k: K| #[trigger]
                        assoc_map(after).contains_key(k) implies assoc_map(after)[k] == assoc_map(
                        before,
                    ).insert(key, value)[k] by {
                        if k != key {
                            let j = choose|j: int| is_first(after, k, j);
                            lemma_first_decides(after, k, j);
                            lemma_first_decides(before, k, j);
                        }
                    }
                    assert(assoc_map(after) =~= assoc_map(before).insert(key, value));
                }
            },
        }
    }

    /// A mutable handle on the value under `key`.
    pub fn get_mut(&mut self, key: &K) -> (r: &mut V)
        requires
            old(self)@.contains_key(*key),
        ensures
            *r == old(self)@[*key],
            final(self)@ == old(self)@.insert(*key, *final(r)),
    {
        let found = self.find(key);
        let i = found.unwrap();
        proof {
            lemma_first_decides(self.entries(), *key, i as int);
        }
        let ghost before = self.entries@;
        let r = &mut self.entries[i].1;
        proof {
            let after = before.update(i as int, (*key, *final(r)));
            assert(after_borrow(self.entries)@ =~= after);
            lemma_update_value(before, i as int, *final(r));
        }
        r
    }

    /// Forgets every entry.
    pub fn clear(&mut self)
        ensures
            final(self).entries() == Seq::<(K, V)>::empty(),
            final(self)@ == Map::<K, V>::empty(),
    {
        self.entries.clear();
        assert(self@ =~= Map::<K, V>::empty());
    }

    /// Forgets `key`, and says what it was mapped to.
    pub fn remove(&mut self, key: &K) -> (r: Option<V>)
        ensures
            final(self)@ == old(self)@.remove(*key),
            match r {
                Some(v) => old(self)@.contains_key(*key) && v == old(self)@[*key],
                None => !old(self)@.contains_key(*key),
            },
    {
        let ghost before = self.entries@;
        let mut removed: Option<V> = None;
        loop
            invariant
                assoc_map(self.entries@).remove(*key) == assoc_map(before).remove(*key),
                match removed {
                    Some(v) => assoc_map(before).contains_key(*key) && v == assoc_map(before)[*key],
                    None => self.entries@ == before,
                },
            ensures
                !assoc_map(self.entries@).contains_key(*key),
            decreases self.entries.len(),
        {
            match self.find(key) {
                Some(i) => {
                    proof {
                        lemma_first_decides(self.entries@, *key, i as int);
                        lemma_remove_at(self.entries@, i as int);
                    }
                    let entry = self.entries.remove(i);
                    if removed.is_none() {
                        removed = Some(entry.1);
                    }
                },
                None => {
                    break ;
                },
            }
        }
        assert(self@ =~= assoc_map(self.entries@).remove(*key));
        removed
    }
}

/// Replacing the value of an entry changes the map at that entry's key, if
/// the entry is the first under its key.
pub proof fn lemma_update_value<K, V>(entries: Seq<(K, V)>, i: int, value: V)
    requires
        is_first(entries, entries[i].0, i),
    ensures
        assoc_map(entries.update(i, (entries[i].0, value))) == assoc_map(entries).insert(
            entries[i].0,
            value,
        ),
{
    let key = entries[i].0;
    let after = entries.update(i, (key, value));
    assert forall|k: K, j: int| is_first(after, k, j) <==> is_first(entries, k, j) by {
        if is_first(after, k, j) {
            assert(forall|l: int| 0 <= l < j ==> (#[trigger] entries[l]).0 == after[l].0);
        }
        if is_first(entries, k, j) {
            assert(forall|l: int| 0 <= l < j ==> (#[trigger] after[l]).0 == entries[l].0);
        }
    }
    assert forall|k: K| #[trigger] assoc_map(after).contains_key(k) implies assoc_map(after)[k]
        == assoc_map(entries).insert(key, value)[k] by {
        let j = choose|j: int| is_first(after, k, j);
        lemma_first_decides(after, k, j);
        lemma_first_decides(entries, k, j);
        if k == key {
            lemma_first_decides(after, key, i);
        }
    }
    lemma_first_decides(after, key, i);
    assert(assoc_map(after) =~= assoc_map(entries).insert(key, value));
}

/// Taking one entry out of a list changes the map at most at that entry's
/// key.
pub proof fn lemma_remove_at<K, V>(entries: Seq<(K, V)>, i: int)
    requires
        0 <= i < entries.len(),
    ensures
        assoc_map(entries.remove(i)).remove(entries[i].0) == assoc_map(entries).remove(
            entries[i].0,
        ),
{
    let key = entries[i].0;
    let after = entries.remove(i);
    assert forall|k: K, j: int| k != key && 0 <= j < i implies (is_first(after, k, j) <==> is_first(
        entries,
        k,
        j,
    )) by {
        if is_first(after, k, j) {
            assert(forall|l: int| 0 <= l < j ==> (#[trigger] entries[l]) == after[l]);
        }
        if is_first(entries, k, j) {
            assert(forall|l: int| 0 <= l < j ==> (#[trigger] after[l]) == entries[l]);
        }
    }
    assert forall|k: K, j: int| k != key && i <= j implies (is_first(after, k, j) <==> is_first(
        entries,
        k,
        j + 1,
    )) by {
        if is_first(after, k, j) {
            assert forall|l: int| 0 <= l < j + 1 implies (#[trigger] entries[l]).0 != k by {
                if l < i {
                    assert(entries[l] == after[l]);
                } else if l > i {
                    assert(entries[l] == after[l - 1]);
                }
            }
        }
        if is_first(entries, k, j + 1) {
            assert forall|l: int| 0 <= l < j implies (#[trigger] after[l]).0 != k by {
                if l < i {
                    assert(after[l] == entries[l]);
                } else {
                    assert(after[l] == entries[l + 1]);
                }
            }
        }
    }
    let left = assoc_map(after).remove(key);
    let right = assoc_map(entries).remove(key);
    assert forall|k: K| left.contains_key(k) <==> right.contains_key(k) by {
        if left.contains_key(k) {
            let j = choose|j: int| is_first(after, k, j);
            if j < i {
                assert(is_first(entries, k, j));
            } else {
                assert(is_first(entries, k, j + 1));
            }
        }
        if right.contains_key(k) {
            let j = choose|j: int| is_first(entries, k, j);
            if j < i {
                assert(is_first(after, k, j));
            } else {
                assert(j != i);
                assert(is_first(after, k, j - 1));
            }
        }
    }
    assert forall|k: K| #[trigger] left.contains_key(k) implies left[k] == right[k] by {
        let j = choose|j: int| is_first(after, k, j);
        lemma_first_decides(after, k, j);
        if j < i {
            lemma_first_decides(entries, k, j);
        } else {
            lemma_first_decides(entries, k, j + 1);
        }
    }
    assert(left =~= right);
}


/// Rewriting every value by the same function, keys untouched, rewrites
/// the map value by value.
pub proof fn lemma_map_values<K, V>(before: Seq<(K, V)>, after: Seq<(K, V)>, f: spec_fn(V) -> V)
    requires
        before.len() == after.len(),
        forall|i: int|
            0 <= i < before.len() ==> #[trigger] after[i] == (before[i].0, f(before[i].1)),
    ensures
        assoc_map(after) == assoc_map(before).map_values(f),
{
    assert forall|k: K, j: int| is_first(after, k, j) <==> is_first(before, k, j) by {
        if is_first(after, k, j) {
            assert(after[j] == (before[j].0, f(before[j].1)));
            assert forall|l: int| 0 <= l < j implies (#[trigger] before[l]).0 != k by {
                assert(after[l] == (before[l].0, f(before[l].1)));
            }
        }
        if is_first(before, k, j) {
            assert(after[j] == (before[j].0, f(before[j].1)));
            assert forall|l: int| 0 <= l < j implies (#[trigger] after[l]).0 != k by {
                assert(after[l] == (before[l].0, f(before[l].1)));
            }
        }
    }
    let mapped = assoc_map(before).map_values(f);
    assert forall|k: K| #[trigger] assoc_map(after).contains_key(k) implies assoc_map(after)[k]
        == mapped[k] by {
        let j = choose|j: int| is_first(after, k, j);
        lemma_first_decides(after, k, j);
        lemma_first_decides(before, k, j);
        assert(after[j] == (before[j].0, f(before[j].1)));
    }
    assert(assoc_map(after) =~= mapped);
}

} // verus!
