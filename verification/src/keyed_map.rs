//! Maps whose keys are listed in the order in which they first came.

use vstd::prelude::*;

verus! {

/// A value of which a copy with the same meaning can be made.
pub trait Duplicate: DeepView + Sized {
    /// A copy of the value.
    fn duplicate(&self) -> (copy: Self)
        ensures
            copy.deep_view() == self.deep_view(),
    ;
}

impl Duplicate for String {
    fn duplicate(&self) -> (copy: Self) {
        self.clone()
    }
}

impl<T: Duplicate> Duplicate for Option<T> {
    fn duplicate(&self) -> (copy: Self) {
        match self {
            Some(value) => Some(value.duplicate()),
            None => None,
        }
    }
}

impl<T: Duplicate> Duplicate for Vec<T> {
    fn duplicate(&self) -> (copy: Self) {
        let mut copy: Vec<T> = Vec::new();
        let mut i: usize = 0;
        while i < self.len()
            invariant
                i <= self@.len(),
                copy@.len() == i,
                forall|j: int| 0 <= j < i ==> #[trigger] copy@[j].deep_view() == self@[j].deep_view(),
            decreases self@.len() - i,
        {
            copy.push(self[i].duplicate());
            i += 1;
        }
        assert(copy.deep_view() =~= self.deep_view());
        copy
    }
}

impl<A: Duplicate, B: Duplicate> Duplicate for (A, B) {
    fn duplicate(&self) -> (copy: Self) {
        (self.0.duplicate(), self.1.duplicate())
    }
}

/// The map that a list of entries stands for: a later entry replaces an earlier one of its key.
pub open spec fn map_of<K, V>(entries: Seq<(K, V)>) -> Map<K, V>
    decreases entries.len(),
{
    if entries.len() == 0 {
        Map::empty()
    } else {
        map_of(entries.drop_last()).insert(entries.last().0, entries.last().1)
    }
}

/// Whether no key occurs twice.
pub open spec fn distinct_keys<K, V>(entries: Seq<(K, V)>) -> bool {
    forall|i: int, j: int|
        0 <= i < j < entries.len() ==> (#[trigger] entries[i]).0 != (#[trigger] entries[j]).0
}

pub proof fn lemma_map_of_has<K, V>(entries: Seq<(K, V)>, i: int)
    requires
        0 <= i < entries.len(),
    ensures
        map_of(entries).contains_key(entries[i].0),
        distinct_keys(entries) ==> map_of(entries)[entries[i].0] == entries[i].1,
    decreases entries.len(),
{
    if i < entries.len() - 1 {
        lemma_map_of_has(entries.drop_last(), i);
    }
}

pub proof fn lemma_map_of_lacks<K, V>(entries: Seq<(K, V)>, key: K)
    requires
        forall|i: int| 0 <= i < entries.len() ==> (#[trigger] entries[i]).0 != key,
    ensures
        !map_of(entries).contains_key(key),
    decreases entries.len(),
{
    if entries.len() > 0 {
        lemma_map_of_lacks(entries.drop_last(), key);
    }
}

pub proof fn lemma_map_of_key<K, V>(entries: Seq<(K, V)>, key: K) -> (i: int)
    requires
        map_of(entries).contains_key(key),
    ensures
        0 <= i < entries.len(),
        entries[i].0 == key,
        map_of(entries)[key] == entries[i].1,
    decreases entries.len(),
{
    if entries.last().0 == key {
        entries.len() - 1
    } else {
        lemma_map_of_key(entries.drop_last(), key)
    }
}

proof fn lemma_map_of_update<K, V>(entries: Seq<(K, V)>, i: int, value: V)
    requires
        distinct_keys(entries),
        0 <= i < entries.len(),
    ensures
        map_of(entries.update(i, (entries[i].0, value))) == map_of(entries).insert(
            entries[i].0,
            value,
        ),
    decreases entries.len(),
{
    let updated = entries.update(i, (entries[i].0, value));
    if i == entries.len() - 1 {
        assert(updated.drop_last() =~= entries.drop_last());
        assert(map_of(updated) =~= map_of(entries).insert(entries[i].0, value));
    } else {
        let shorter = entries.drop_last();
        lemma_map_of_update(shorter, i, value);
        assert(updated.drop_last() =~= shorter.update(i, (shorter[i].0, value)));
        assert(map_of(updated) =~= map_of(entries).insert(entries[i].0, value));
    }
}


/// A key that can be compared with another.
pub trait Key: DeepView + Sized {
    /// Whether two keys are the same.
    fn same_as(&self, other: &Self) -> (yes: bool)
        ensures
            yes == (self.deep_view() == other.deep_view()),
    ;
}

impl Key for String {
    fn same_as(&self, other: &Self) -> (yes: bool) {
        *self == *other
    }
}

impl<T: Key> Key for Option<T> {
    fn same_as(&self, other: &Self) -> (yes: bool) {
        match (self, other) {
            (Some(a), Some(b)) => a.same_as(b),
            (None, None) => true,
            _ => false,
        }
    }
}

impl<A: Key, B: Key> Key for (A, B) {
    fn same_as(&self, other: &Self) -> (yes: bool) {
        self.0.same_as(&other.0) && self.1.same_as(&other.1)
    }
}

impl<T: Key> Key for Vec<T> {
    fn same_as(&self, other: &Self) -> (yes: bool) {
        if self.len() != other.len() {
            assert(self.deep_view().len() != other.deep_view().len());
            return false;
        }
        let mut i: usize = 0;
        while i < self.len()
            invariant
                i <= self@.len() == other@.len(),
                forall|j: int|
                    0 <= j < i ==> self@[j].deep_view() == #[trigger] other@[j].deep_view(),
            decreases self@.len() - i,
        {
            if !self[i].same_as(&other[i]) {
                assert(self.deep_view()[i as int] != other.deep_view()[i as int]);
                return false;
            }
            i += 1;
        }
        assert(self.deep_view() =~= other.deep_view());
        true
    }
}

/// A map whose keys are listed in the order in which they first came.
#[derive(Debug)]
pub struct KeyedMap<K: Key, V: DeepView> {
    entries: Vec<(K, V)>,
}

/// A map from text to values.
pub type TextMap<V> = KeyedMap<String, V>;

impl<K: Key, V: DeepView> View for KeyedMap<K, V> {
    type V = Map<K::V, V::V>;

    open spec fn view(&self) -> Map<K::V, V::V> {
        map_of(self.items())
    }
}

impl<K: Key, V: DeepView> DeepView for KeyedMap<K, V> {
    type V = Map<K::V, V::V>;

    open spec fn deep_view(&self) -> Map<K::V, V::V> {
        map_of(self.items())
    }
}

impl<K: Key, V: DeepView> KeyedMap<K, V> {
    /// The entries in the order in which their keys first came.
    pub closed spec fn items(&self) -> Seq<(K::V, V::V)> {
        self.entries.deep_view()
    }

    #[verifier::type_invariant]
    spec fn keys_differ(self) -> bool {
        distinct_keys(self.items())
    }

    /// The empty map.
    pub fn new() -> (map: Self)
        ensures
            map@ == Map::<K::V, V::V>::empty(),
            map.items() == Seq::<(K::V, V::V)>::empty(),
    {
        let map = KeyedMap { entries: Vec::new() };
        assert(map.items() =~= Seq::<(K::V, V::V)>::empty());
        map
    }

    /// How many keys there are.
    pub fn len(&self) -> (n: usize)
        ensures
            n == self.items().len(),
            distinct_keys(self.items()),
    {
        proof {
            use_type_invariant(self);
        }
        self.entries.len()
    }

    /// Whether there are no keys.
    pub fn is_empty(&self) -> (yes: bool)
        ensures
            yes == (self@ == Map::<K::V, V::V>::empty()),
            yes == (self.items().len() == 0),
    {
        proof {
            if self.items().len() > 0 {
                lemma_map_of_has(self.items(), 0);
                assert(self@.contains_key(self.items()[0].0));
            }
        }
        self.entries.len() == 0
    }

    /// The key at a place of the list of entries.
    pub fn key_at(&self, i: usize) -> (key: &K)
        requires
            i < self.items().len(),
        ensures
            key.deep_view() == self.items()[i as int].0,
    {
        &self.entries[i].0
    }

    /// The value at a place of the list of entries.
    pub fn value_at(&self, i: usize) -> (value: &V)
        requires
            i < self.items().len(),
        ensures
            value.deep_view() == self.items()[i as int].1,
    {
        &self.entries[i].1
    }

    fn position(&self, key: &K) -> (place: Option<usize>)
        ensures
            match place {
                Some(i) => i < self.items().len() && self.items()[i as int].0 == key.deep_view(),
                None => forall|i: int|
                    0 <= i < self.items().len() ==> (#[trigger] self.items()[i]).0
                        != key.deep_view(),
            },
    {
        let mut i: usize = 0;
        while i < self.entries.len()
            invariant
                i <= self.entries@.len(),
                forall|j: int| 0 <= j < i ==> (#[trigger] self.items()[j]).0 != key.deep_view(),
            decreases self.entries@.len() - i,
        {
            if self.entries[i].0.same_as(key) {
                return Some(i);
            }
            i += 1;
        }
        None
    }

    /// The value of a key.
    pub fn get(&self, key: &K) -> (value: Option<&V>)
        ensures
            match value {
                Some(v) => self@.contains_key(key.deep_view()) && v.deep_view()
                    == self@[key.deep_view()],
                None => !self@.contains_key(key.deep_view()),
            },
    {
        proof {
            use_type_invariant(self);
        }
        match self.position(key) {
            Some(i) => {
                proof {
                    lemma_map_of_has(self.items(), i as int);
                }
                Some(&self.entries[i].1)
            },
            None => {
                proof {
                    lemma_map_of_lacks(self.items(), key.deep_view());
                }
                None
            },
        }
    }

    /// Gives a key a value, in place of the one that it had.
    pub fn insert(&mut self, key: K, value: V)
        ensures
            final(self)@ == old(self)@.insert(key.deep_view(), value.deep_view()),
            final(self).items() == inserted(old(self).items(), key.deep_view(), value.deep_view()),
    {
        proof {
            use_type_invariant(&*self);
        }
        let mut entries: Vec<(K, V)> = Vec::new();
        let place = self.position(&key);
        let ghost before = self.items();
        std::mem::swap(&mut entries, &mut self.entries);
        assert(entries.deep_view() == before);
        match place {
            Some(i) => {
                proof {
                    assert(place_of(before, key.deep_view()) == Some(i as int)) by {
                        lemma_place_of(before, key.deep_view());
                    }
                }
                entries.set(i, (key, value));
                proof {
                    lemma_map_of_update(before, i as int, value.deep_view());
                    assert(entries.deep_view() =~= before.update(
                        i as int,
                        (key.deep_view(), value.deep_view()),
                    ));
                }
            },
            None => {
                proof {
                    lemma_place_of(before, key.deep_view());
                }
                entries.push((key, value));
                proof {
                    assert(entries.deep_view() =~= before.push(
                        (key.deep_view(), value.deep_view()),
                    ));
                    assert(entries.deep_view().drop_last() =~= before);
                }
            },
        }
        *self = KeyedMap { entries };
    }
}

/// The place of a key in a list of entries.
pub open spec fn place_of<K, V>(entries: Seq<(K, V)>, key: K) -> Option<int> {
    if exists|i: int| 0 <= i < entries.len() && (#[trigger] entries[i]).0 == key {
        Some(choose|i: int| 0 <= i < entries.len() && (#[trigger] entries[i]).0 == key)
    } else {
        None
    }
}

/// The entries after a key was given a value: a new key comes last.
pub open spec fn inserted<K, V>(entries: Seq<(K, V)>, key: K, value: V) -> Seq<(K, V)> {
    match place_of(entries, key) {
        Some(i) => entries.update(i, (key, value)),
        None => entries.push((key, value)),
    }
}

proof fn lemma_place_of<K, V>(entries: Seq<(K, V)>, key: K)
    requires
        distinct_keys(entries),
    ensures
        match place_of(entries, key) {
            Some(i) => 0 <= i < entries.len() && entries[i].0 == key && forall|j: int|
                0 <= j < entries.len() && (#[trigger] entries[j]).0 == key ==> j == i,
            None => forall|j: int| 0 <= j < entries.len() ==> (#[trigger] entries[j]).0 != key,
        },
{
    if let Some(i) = place_of(entries, key) {
        assert forall|j: int| 0 <= j < entries.len() && (#[trigger] entries[j]).0 == key implies j
            == i by {
            assert(entries[i].0 == entries[j].0);
        }
    }
}

/// Giving a key a value keeps the keys distinct and changes the map at that key alone.
pub proof fn lemma_inserted<K, V>(entries: Seq<(K, V)>, key: K, value: V)
    requires
        distinct_keys(entries),
    ensures
        distinct_keys(inserted(entries, key, value)),
        map_of(inserted(entries, key, value)) == map_of(entries).insert(key, value),
{
    lemma_place_of(entries, key);
    match place_of(entries, key) {
        Some(i) => {
            lemma_map_of_update(entries, i, value);
        },
        None => {
            assert(entries.push((key, value)).drop_last() =~= entries);
        },
    }
}

impl<K: Key + Duplicate, V: Duplicate> Duplicate for KeyedMap<K, V> {
    fn duplicate(&self) -> (copy: Self)
        ensures
            copy.items() == self.items(),
    {
        proof {
            use_type_invariant(self);
        }
        KeyedMap { entries: self.entries.duplicate() }
    }
}

/// Whether a later entry has the key of the entry at a place.
pub open spec fn has_later<K, V>(entries: Seq<(K, V)>, i: int) -> bool {
    exists|j: int| i < j < entries.len() && (#[trigger] entries[j]).0 == entries[i].0
}

/// Of the entries with one key, the last one counts.
pub proof fn law_last_entry_counts<K, V>(entries: Seq<(K, V)>, i: int)
    requires
        0 <= i < entries.len(),
        forall|j: int| i < j < entries.len() ==> (#[trigger] entries[j]).0 != entries[i].0,
    ensures
        map_of(entries).contains_pair(entries[i].0, entries[i].1),
    decreases entries.len(),
{
    if i < entries.len() - 1 {
        let shorter = entries.drop_last();
        assert(entries[entries.len() - 1].0 != entries[i].0);
        assert forall|j: int| i < j < shorter.len() implies (#[trigger] shorter[j]).0
            != shorter[i].0 by {
            assert(entries[j].0 != entries[i].0);
        }
        law_last_entry_counts(shorter, i);
    }
}

/// A key is there exactly when some entry has it.
pub proof fn law_keys_of_entries<K, V>(entries: Seq<(K, V)>, key: K)
    ensures
        map_of(entries).contains_key(key) <==> exists|i: int|
            0 <= i < entries.len() && (#[trigger] entries[i]).0 == key,
{
    if map_of(entries).contains_key(key) {
        let i = lemma_map_of_key(entries, key);
        assert(entries[i].0 == key);
    }
    if exists|i: int| 0 <= i < entries.len() && (#[trigger] entries[i]).0 == key {
        let i = choose|i: int| 0 <= i < entries.len() && (#[trigger] entries[i]).0 == key;
        lemma_map_of_has(entries, i);
    }
}

/// Giving a key a value changes the entry of that key in its place, or adds one behind the others.
pub proof fn law_new_keys_come_last<K, V>(entries: Seq<(K, V)>, key: K, value: V, i: int)
    requires
        distinct_keys(entries),
    ensures
        (forall|j: int| 0 <= j < entries.len() ==> (#[trigger] entries[j]).0 != key) ==> inserted(
            entries,
            key,
            value,
        ) == entries.push((key, value)),
        0 <= i < entries.len() && entries[i].0 == key ==> inserted(entries, key, value)
            == entries.update(i, (key, value)),
{
    lemma_place_of(entries, key);
    if 0 <= i < entries.len() && entries[i].0 == key {
        assert(place_of(entries, key) is Some);
    }
}

} // verus!
