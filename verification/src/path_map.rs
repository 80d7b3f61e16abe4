//! A map from paths to values that remembers the order in which its keys came.

use vstd::prelude::*;

use crate::path::{is_plain_path, str_eq};

verus! {

/// Whether one of `entries` has the key `key`.
pub open spec fn has_key<V>(entries: Seq<(Seq<char>, V)>, key: Seq<char>) -> bool {
    exists|i: int| 0 <= i < entries.len() && (#[trigger] entries[i]).0 == key
}

/// The place of `key` among `entries`, where it has one.
pub open spec fn index_of<V>(entries: Seq<(Seq<char>, V)>, key: Seq<char>) -> int {
    choose|i: int| 0 <= i < entries.len() && (#[trigger] entries[i]).0 == key
}

/// The value that `entries` hold for `key`.
pub open spec fn value_of<V>(entries: Seq<(Seq<char>, V)>, key: Seq<char>) -> Option<V> {
    if has_key(entries, key) {
        Some(entries[index_of(entries, key)].1)
    } else {
        None
    }
}

/// Whether no key occurs twice among `entries`.
pub open spec fn distinct_keys<V>(entries: Seq<(Seq<char>, V)>) -> bool {
    forall|i: int, j: int|
        0 <= i < j < entries.len() ==> (#[trigger] entries[i]).0 != (#[trigger] entries[j]).0
}

/// Whether every key of `entries` is spelled in the one way.
pub open spec fn plain_keys<V>(entries: Seq<(Seq<char>, V)>) -> bool {
    forall|i: int| 0 <= i < entries.len() ==> is_plain_path((#[trigger] entries[i]).0)
}

/// `entries` with `value` under `key`: in the place of the old value, or at the end.
pub open spec fn with_entry<V>(entries: Seq<(Seq<char>, V)>, key: Seq<char>, value: V) -> Seq<
    (Seq<char>, V),
> {
    if has_key(entries, key) {
        entries.update(index_of(entries, key), (key, value))
    } else {
        entries.push((key, value))
    }
}

/// `entries` without the entry under `key`.
pub open spec fn without_key<V>(entries: Seq<(Seq<char>, V)>, key: Seq<char>) -> Seq<
    (Seq<char>, V),
> {
    if has_key(entries, key) {
        entries.remove(index_of(entries, key))
    } else {
        entries
    }
}

/// The entries as a map, forgetting their order.
pub open spec fn as_map<V>(entries: Seq<(Seq<char>, V)>) -> Map<Seq<char>, V> {
    Map::new(|key: Seq<char>| has_key(entries, key), |key: Seq<char>| entries[index_of(entries, key)].1)
}

/// Where keys are distinct, a key's place is the one place that holds it.
pub proof fn lemma_index_of<V>(entries: Seq<(Seq<char>, V)>, i: int)
    requires
        distinct_keys(entries),
        0 <= i < entries.len(),
    ensures
        has_key(entries, entries[i].0),
        index_of(entries, entries[i].0) == i,
        value_of(entries, entries[i].0) == Some(entries[i].1),
{
    let j = index_of(entries, entries[i].0);
    assert(0 <= j < entries.len() && entries[j].0 == entries[i].0);
}

/// Putting a value under a key keeps keys distinct, sets that key and leaves the others.
pub proof fn lemma_with_entry<V>(entries: Seq<(Seq<char>, V)>, key: Seq<char>, value: V)
    requires
        distinct_keys(entries),
    ensures
        distinct_keys(with_entry(entries, key, value)),
        value_of(with_entry(entries, key, value), key) == Some(value),
        forall|other: Seq<char>|
            other != key ==> value_of(with_entry(entries, key, value), other) == value_of(
                entries,
                other,
            ),
{
    let after = with_entry(entries, key, value);
    if has_key(entries, key) {
        let at = index_of(entries, key);
        assert(after[at].0 == key);
        lemma_index_of(after, at);
        assert forall|other: Seq<char>| other != key implies value_of(after, other) == value_of(
            entries,
            other,
        ) by {
            if has_key(entries, other) {
                let k = index_of(entries, other);
                assert(after[k] == entries[k]);
                lemma_index_of(entries, k);
                lemma_index_of(after, k);
            } else if has_key(after, other) {
                let k = index_of(after, other);
                assert(entries[k].0 == other);
            }
        }
    } else {
        let at = entries.len() as int;
        assert(after[at].0 == key);
        assert forall|i: int, j: int| 0 <= i < j < after.len() implies (#[trigger] after[i]).0 != (
        #[trigger] after[j]).0 by {
            if j == at {
                assert(entries[i].0 != key);
            }
        }
        lemma_index_of(after, at);
        assert forall|other: Seq<char>| other != key implies value_of(after, other) == value_of(
            entries,
            other,
        ) by {
            if has_key(entries, other) {
                let k = index_of(entries, other);
                assert(after[k] == entries[k]);
                lemma_index_of(entries, k);
                lemma_index_of(after, k);
            } else if has_key(after, other) {
                let k = index_of(after, other);
                assert(entries[k].0 == other);
            }
        }
    }
}

/// Taking a key out keeps keys distinct, unsets that key and leaves the others.
pub proof fn lemma_without_key<V>(entries: Seq<(Seq<char>, V)>, key: Seq<char>)
    requires
        distinct_keys(entries),
    ensures
        distinct_keys(without_key(entries, key)),
        value_of(without_key(entries, key), key) is None,
        forall|other: Seq<char>|
            other != key ==> value_of(without_key(entries, key), other) == value_of(entries, other),
{
    let after = without_key(entries, key);
    if has_key(entries, key) {
        let at = index_of(entries, key);
        assert forall|i: int| 0 <= i < after.len() implies (#[trigger] after[i]) == entries[if i
            < at {
            i
        } else {
            i + 1
        }] by {}
        if has_key(after, key) {
            let k = index_of(after, key);
            assert(after[k] == entries[if k < at { k } else { k + 1 }]);
        }
        assert forall|other: Seq<char>| other != key implies value_of(after, other) == value_of(
            entries,
            other,
        ) by {
            if has_key(entries, other) {
                let k = index_of(entries, other);
                let k2 = if k < at { k } else { k - 1 };
                assert(after[k2] == entries[k]);
                lemma_index_of(entries, k);
                lemma_index_of(after, k2);
            } else if has_key(after, other) {
                let k = index_of(after, other);
                assert(after[k] == entries[if k < at { k } else { k + 1 }]);
            }
        }
    }
}

/// A map from paths to values. Its entries stay in the order in which their keys first came.
///
/// Keys are compared as strings. Every key is spelled in the one way that
/// [`is_plain_path`] allows, so that two keys are the same string exactly where they name
/// the same components.
#[derive(Debug, PartialEq, Eq)]
pub struct PathMap<V> {
    items: Vec<(String, V)>,
}

impl<V> PathMap<V> {
    /// The entries in order, each key as its sequence of characters.
    pub closed spec fn entries(&self) -> Seq<(Seq<char>, V)> {
        Seq::new(self.items@.len(), |i: int| (self.items@[i].0@, self.items@[i].1))
    }

    #[verifier::type_invariant]
    spec fn keys_are_distinct(&self) -> bool {
        distinct_keys(self.entries()) && plain_keys(self.entries())
    }

    /// The map without entries.
    pub fn new() -> (map: PathMap<V>)
        ensures
            map.entries() == Seq::<(Seq<char>, V)>::empty(),
    {
        let map = PathMap { items: Vec::new() };
        assert(map.entries() =~= Seq::<(Seq<char>, V)>::empty());
        map
    }

    /// The number of entries, none of which shares its key with another.
    pub fn len(&self) -> (len: usize)
        ensures
            len == self.entries().len(),
            distinct_keys(self.entries()),
            plain_keys(self.entries()),
    {
        proof {
            use_type_invariant(self);
        }
        self.items.len()
    }

    /// Whether the map has no entry.
    pub fn is_empty(&self) -> (empty: bool)
        ensures
            empty == (self.entries().len() == 0),
    {
        self.items.len() == 0
    }

    /// The place of `key`, if the map holds it.
    pub fn position(&self, key: &str) -> (place: Option<usize>)
        requires
            is_plain_path(key@),
        ensures
            place is Some == has_key(self.entries(), key@),
            place is Some ==> place->0 == index_of(self.entries(), key@),
            distinct_keys(self.entries()),
    {
        proof {
            use_type_invariant(self);
        }
        let mut i: usize = 0;
        while i < self.items.len()
            invariant
                i <= self.items.len(),
                distinct_keys(self.entries()),
                forall|j: int| 0 <= j < i ==> (#[trigger] self.entries()[j]).0 != key@,
            decreases self.items.len() - i,
        {
            if str_eq(self.items[i].0.as_str(), key) {
                proof {
                    assert(self.entries()[i as int].0 == key@);
                    lemma_index_of(self.entries(), i as int);
                }
                return Some(i);
            }
            i += 1;
        }
        None
    }

    /// The key at `place`.
    pub fn key_at(&self, place: usize) -> (key: &String)
        requires
            place < self.entries().len(),
        ensures
            key@ == self.entries()[place as int].0,
            is_plain_path(key@),
    {
        proof {
            use_type_invariant(self);
            assert(is_plain_path(self.entries()[place as int].0));
        }
        &self.items[place].0
    }

    /// The value at `place`.
    pub fn value_at(&self, place: usize) -> (value: &V)
        requires
            place < self.entries().len(),
        ensures
            *value == self.entries()[place as int].1,
    {
        &self.items[place].1
    }

    /// The value under `key`, if the map holds it.
    pub fn get(&self, key: &str) -> (value: Option<&V>)
        requires
            is_plain_path(key@),
        ensures
            value is Some == has_key(self.entries(), key@),
            value is Some ==> Some(*value->0) == value_of(self.entries(), key@),
    {
        match self.position(key) {
            Some(place) => Some(&self.items[place].1),
            None => None,
        }
    }

    /// Puts `value` under `key`: in the place of the old value, which is handed back, or at
    /// the end.
    pub fn insert(&mut self, key: String, value: V) -> (previous: Option<V>)
        requires
            is_plain_path(key@),
        ensures
            final(self).entries() == with_entry(old(self).entries(), key@, value),
            previous == value_of(old(self).entries(), key@),
            distinct_keys(old(self).entries()),
            distinct_keys(final(self).entries()),
    {
        proof {
            use_type_invariant(&*self);
            lemma_with_entry(self.entries(), key@, value);
        }
        let ghost before = self.entries();
        let place = self.position(key.as_str());
        let mut taken = PathMap::new();
        core::mem::swap(self, &mut taken);
        let mut items = taken.items;
        let previous = match place {
            Some(place) => {
                items.push((key, value));
                let (_, previous) = items.swap_remove(place);
                Some(previous)
            },
            None => {
                items.push((key, value));
                None
            },
        };
        let ghost after = (PathMap { items }).entries();
        assert(after =~= with_entry(before, key@, value));
        *self = PathMap { items };
        previous
    }

    /// Puts `value` under `key` at the end. The map must not hold `key` yet.
    pub fn push_new(&mut self, key: String, value: V)
        requires
            is_plain_path(key@),
            !has_key(old(self).entries(), key@),
        ensures
            final(self).entries() == old(self).entries().push((key@, value)),
            distinct_keys(old(self).entries()),
            distinct_keys(final(self).entries()),
    {
        proof {
            use_type_invariant(&*self);
            lemma_with_entry(self.entries(), key@, value);
        }
        let ghost before = self.entries();
        let mut taken = PathMap::new();
        core::mem::swap(self, &mut taken);
        let mut items = taken.items;
        items.push((key, value));
        let ghost after = (PathMap { items }).entries();
        assert(after =~= before.push((key@, value)));
        *self = PathMap { items };
    }

    /// Puts `value` in the place of the value at `place`, which is handed back.
    pub fn replace_at(&mut self, place: usize, value: V) -> (previous: V)
        requires
            place < old(self).entries().len(),
        ensures
            final(self).entries() == old(self).entries().update(
                place as int,
                (old(self).entries()[place as int].0, value),
            ),
            previous == old(self).entries()[place as int].1,
            distinct_keys(old(self).entries()),
            distinct_keys(final(self).entries()),
    {
        proof {
            use_type_invariant(&*self);
        }
        let ghost before = self.entries();
        let mut taken = PathMap::new();
        core::mem::swap(self, &mut taken);
        let mut items = taken.items;
        let key = items[place].0.clone();
        items.push((key, value));
        let (_, previous) = items.swap_remove(place);
        let ghost after = (PathMap { items }).entries();
        assert(after =~= before.update(place as int, (before[place as int].0, value)));
        *self = PathMap { items };
        previous
    }

    /// Takes the entry at `place` out, and hands it back.
    pub fn remove_at(&mut self, place: usize) -> (entry: (String, V))
        requires
            place < old(self).entries().len(),
        ensures
            final(self).entries() == old(self).entries().remove(place as int),
            (entry.0@, entry.1) == old(self).entries()[place as int],
            distinct_keys(old(self).entries()),
            distinct_keys(final(self).entries()),
    {
        proof {
            use_type_invariant(&*self);
        }
        let ghost before = self.entries();
        let mut taken = PathMap::new();
        core::mem::swap(self, &mut taken);
        let mut items = taken.items;
        let entry = items.remove(place);
        let ghost after = (PathMap { items }).entries();
        assert(after =~= before.remove(place as int));
        *self = PathMap { items };
        entry
    }

    /// Takes the entry under `key` out, and hands its value back.
    pub fn remove(&mut self, key: &str) -> (previous: Option<V>)
        requires
            is_plain_path(key@),
        ensures
            final(self).entries() == without_key(old(self).entries(), key@),
            previous == value_of(old(self).entries(), key@),
            distinct_keys(old(self).entries()),
            distinct_keys(final(self).entries()),
    {
        proof {
            use_type_invariant(&*self);
            lemma_without_key(self.entries(), key@);
        }
        let ghost before = self.entries();
        let place = self.position(key);
        let mut taken = PathMap::new();
        core::mem::swap(self, &mut taken);
        let mut items = taken.items;
        let previous = match place {
            Some(place) => {
                let (_, previous) = items.remove(place);
                Some(previous)
            },
            None => None,
        };
        let ghost after = (PathMap { items }).entries();
        assert(after =~= without_key(before, key@));
        *self = PathMap { items };
        previous
    }
}

impl<V: Clone> Clone for PathMap<V> {
    /// A map with the same keys in the same order, each with a clone of its value.
    fn clone(&self) -> (copy: PathMap<V>)
        ensures
            copy.entries().len() == self.entries().len(),
            forall|i: int|
                0 <= i < self.entries().len() ==> (#[trigger] copy.entries()[i]).0
                    == self.entries()[i].0 && cloned(self.entries()[i].1, copy.entries()[i].1),
    {
        proof {
            use_type_invariant(self);
        }
        let mut items: Vec<(String, V)> = Vec::new();
        let mut i: usize = 0;
        while i < self.items.len()
            invariant
                i <= self.items.len(),
                items.len() == i,
                forall|j: int|
                    0 <= j < i ==> (#[trigger] items@[j]).0@ == self.items@[j].0@ && cloned(
                        self.items@[j].1,
                        items@[j].1,
                    ),
            decreases self.items.len() - i,
        {
            let value = self.items[i].1.clone();
            items.push((self.items[i].0.clone(), value));
            i += 1;
        }
        let ghost entries = (PathMap { items }).entries();
        assert forall|a: int, b: int| 0 <= a < b < entries.len() implies (#[trigger] entries[a]).0
            != (#[trigger] entries[b]).0 by {
            assert(self.entries()[a].0 != self.entries()[b].0);
        }
        assert forall|a: int| 0 <= a < entries.len() implies is_plain_path(
            (#[trigger] entries[a]).0,
        ) by {
            assert(is_plain_path(self.entries()[a].0));
        }
        PathMap { items }
    }
}

} // verus!
