//! A map with text keys that is walked in the order of its keys.

use vstd::prelude::*;

use crate::datum::{lemma_views_push, views, Datum};
use crate::text::{place, precedes, Place};

verus! {

/// A map from texts to values, kept in ascending order of its keys.
#[derive(Debug, PartialEq, Eq)]
pub struct Keyed<V> {
    pub(crate) entries: Vec<(String, V)>,
}

/// The keys of a list of entries.
pub open spec fn entry_keys<V>(entries: Seq<(String, V)>) -> Seq<Seq<char>> {
    entries.map_values(|entry: (String, V)| entry.0@)
}

/// Each key comes before all later ones.
pub open spec fn ascending(keys: Seq<Seq<char>>) -> bool {
    forall|i: int, j: int|
        0 <= i < j < keys.len() ==> precedes(#[trigger] keys[i], #[trigger] keys[j])
}

/// The map that a list of entries with distinct keys stands for.
pub open spec fn entry_map<V>(entries: Seq<(String, V)>) -> Map<Seq<char>, V> {
    Map::new(
        |key: Seq<char>| entry_keys(entries).contains(key),
        |key: Seq<char>| entries[entry_keys(entries).index_of(key)].1,
    )
}

proof fn lemma_distinct(keys: Seq<Seq<char>>)
    requires
        ascending(keys),
    ensures
        keys.no_duplicates(),
{
    assert forall|i: int, j: int| 0 <= i < keys.len() && 0 <= j < keys.len()
        && i != j implies keys[i]
        != keys[j] by {
        crate::text::lemma_precedes_irreflexive(keys[i]);
        if i < j {
            assert(precedes(keys[i], keys[j]));
        } else {
            assert(precedes(keys[j], keys[i]));
        }
    }
}

pub(crate) proof fn lemma_entry<V>(entries: Seq<(String, V)>, index: int)
    requires
        ascending(entry_keys(entries)),
        0 <= index < entries.len(),
    ensures
        entry_map(entries).contains_key(entries[index].0@),
        entry_map(entries)[entries[index].0@] == entries[index].1,
{
    let keys = entry_keys(entries);
    lemma_distinct(keys);
    assert(keys[index] == entries[index].0@);
    assert(keys.contains(keys[index]));
    let found = keys.index_of(keys[index]);
    assert(0 <= found < keys.len() && keys[found] == keys[index]);
    assert(found == index);
}

pub(crate) proof fn lemma_key<V>(entries: Seq<(String, V)>, key: Seq<char>)
    requires
        entry_map(entries).contains_key(key),
    ensures
        exists|i: int| 0 <= i < entries.len() && #[trigger] entries[i].0@ == key,
{
    let keys = entry_keys(entries);
    assert(keys.contains(key));
    let i = choose|i: int| 0 <= i < keys.len() && keys[i] == key;
    assert(entries[i].0@ == key);
}

/// The map is the one that its entries stand for.
pub(crate) proof fn lemma_entries<V>(map: Keyed<V>)
    ensures
        map@ == entry_map(map.entries@),
        map.keys() == entry_keys(map.entries@),
{
}

impl<V> View for Keyed<V> {
    type V = Map<Seq<char>, V>;

    closed spec fn view(&self) -> Map<Seq<char>, V> {
        entry_map(self.entries@)
    }
}

impl<V> Keyed<V> {
    #[verifier::type_invariant]
    spec fn ordered(self) -> bool {
        ascending(entry_keys(self.entries@))
    }

    /// The keys, in ascending order.
    pub closed spec fn keys(&self) -> Seq<Seq<char>> {
        entry_keys(self.entries@)
    }

    pub fn new() -> (map: Self)
        ensures
            map@ == Map::<Seq<char>, V>::empty(),
            map.keys() == Seq::<Seq<char>>::empty(),
    {
        let map = Keyed { entries: Vec::new() };
        proof {
            assert(entry_keys(map.entries@) =~= Seq::<Seq<char>>::empty());
            assert(map@ =~= Map::<Seq<char>, V>::empty());
        }
        map
    }

    /// The entries, in ascending order of their keys.
    pub(crate) fn all(&self) -> (entries: &Vec<(String, V)>)
        ensures
            *entries == self.entries,
            ascending(entry_keys(entries@)),
    {
        proof {
            use_type_invariant(self);
        }
        &self.entries
    }

    /// The map of entries that stand in ascending order of their keys.
    pub(crate) fn of_ascending(entries: Vec<(String, V)>) -> (map: Self)
        requires
            ascending(entry_keys(entries@)),
        ensures
            map.entries == entries,
    {
        Keyed { entries }
    }

    /// The number of keys. The keys ascend and are the map's domain.
    pub fn len(&self) -> (count: usize)
        ensures
            count == self.keys().len(),
            ascending(self.keys()),
            self.keys().no_duplicates(),
            self@.dom() == self.keys().to_set(),
    {
        proof {
            use_type_invariant(self);
            lemma_distinct(self.keys());
            assert(self@.dom() =~= self.keys().to_set());
        }
        self.entries.len()
    }

    /// The key at a position of the order.
    pub fn key_at(&self, index: usize) -> (key: &String)
        requires
            index < self.keys().len(),
        ensures
            key@ == self.keys()[index as int],
            self@.contains_key(key@),
    {
        proof {
            use_type_invariant(self);
            lemma_entry(self.entries@, index as int);
        }
        &self.entries[index].0
    }

    /// The value at a position of the order.
    pub fn value_at(&self, index: usize) -> (value: &V)
        requires
            index < self.keys().len(),
        ensures
            self@.contains_key(self.keys()[index as int]),
            *value == self@[self.keys()[index as int]],
    {
        proof {
            use_type_invariant(self);
            lemma_entry(self.entries@, index as int);
        }
        &self.entries[index].1
    }

    /// The first position whose key does not come before `key`.
    fn position(&self, key: &str) -> (found: (bool, usize))
        ensures
            found.1 <= self.entries@.len(),
            forall|i: int|
                0 <= i < found.1 ==> precedes(#[trigger] entry_keys(self.entries@)[i], key@),
            found.0 ==> found.1 < self.entries@.len() && entry_keys(self.entries@)[found.1 as int]
                == key@,
            !found.0 && found.1 < self.entries@.len() ==> precedes(
                key@,
                entry_keys(self.entries@)[found.1 as int],
            ),
    {
        let mut index: usize = 0;
        while index < self.entries.len()
            invariant
                index <= self.entries@.len(),
                forall|i: int|
                    0 <= i < index ==> precedes(#[trigger] entry_keys(self.entries@)[i], key@),
            decreases self.entries@.len() - index,
        {
            match place(self.entries[index].0.as_str(), key) {
                Place::Before => {
                    index = index + 1;
                },
                Place::Same => {
                    return (true, index);
                },
                Place::After => {
                    return (false, index);
                },
            }
        }
        (false, index)
    }

    proof fn lemma_absent(entries: Seq<(String, V)>, key: Seq<char>, at: int)
        requires
            ascending(entry_keys(entries)),
            0 <= at <= entries.len(),
            forall|i: int| 0 <= i < at ==> precedes(#[trigger] entry_keys(entries)[i], key),
            at < entries.len() ==> precedes(key, entry_keys(entries)[at]),
        ensures
            !entry_keys(entries).contains(key),
            forall|i: int| at <= i < entries.len() ==> precedes(key, #[trigger] entry_keys(entries)[i]),
    {
        let keys = entry_keys(entries);
        assert forall|i: int| at <= i < entries.len() implies precedes(key, #[trigger] keys[i]) by {
            if i > at {
                assert(precedes(keys[at], keys[i]));
                crate::text::lemma_precedes_transitive(key, keys[at], keys[i]);
            }
        }
        crate::text::lemma_precedes_irreflexive(key);
        assert forall|i: int| 0 <= i < keys.len() implies keys[i] != key by {
            if i < at {
                assert(precedes(keys[i], key));
            } else {
                assert(precedes(key, keys[i]));
            }
        }
    }

    /// The value of a key.
    pub fn get(&self, key: &str) -> (value: Option<&V>)
        ensures
            match value {
                Some(found) => self@.contains_key(key@) && *found == self@[key@],
                None => !self@.contains_key(key@),
            },
    {
        let (found, at) = self.position(key);
        proof {
            use_type_invariant(self);
        }
        if found {
            proof {
                lemma_entry(self.entries@, at as int);
            }
            Some(&self.entries[at].1)
        } else {
            proof {
                Self::lemma_absent(self.entries@, key@, at as int);
            }
            None
        }
    }

    /// Whether a key is present.
    pub fn contains(&self, key: &str) -> (present: bool)
        ensures
            present == self@.contains_key(key@),
    {
        match self.get(key) {
            Some(_) => true,
            None => false,
        }
    }

    /// Sets the value of a key and hands back the value that it had.
    pub fn insert(&mut self, key: String, value: V) -> (previous: Option<V>)
        ensures
            final(self)@ == old(self)@.insert(key@, value),
            previous == (if old(self)@.contains_key(key@) {
                Some(old(self)@[key@])
            } else {
                None
            }),
    {
        let (found, at) = self.position(key.as_str());
        proof {
            use_type_invariant(&*self);
        }
        let mut entries: Vec<(String, V)> = Vec::new();
        std::mem::swap(&mut entries, &mut self.entries);
        let ghost before = entries@;
        let ghost keys = entry_keys(before);
        let mut previous: Option<V> = None;
        if found {
            proof {
                lemma_entry(before, at as int);
            }
            let taken = entries.remove(at);
            previous = Some(taken.1);
        } else {
            proof {
                Self::lemma_absent(before, key@, at as int);
                assert(!entry_map(before).contains_key(key@));
            }
        }
        let ghost key_view = key@;
        entries.insert(at, (key, value));
        proof {
            let after = entries@;
            let next = entry_keys(after);
            if found {
                assert(next =~= keys);
                assert forall|i: int| 0 <= i < before.len() && i != at implies after[i] == before[i] by {}
            } else {
                assert(next =~= keys.insert(at as int, key_view));
                assert forall|i: int, j: int| 0 <= i < j < next.len() implies precedes(
                    #[trigger] next[i],
                    #[trigger] next[j],
                ) by {
                    if i < at && j > at {
                        assert(precedes(keys[i], keys[j - 1]));
                    } else if i > at {
                        assert(precedes(keys[i - 1], keys[j - 1]));
                    } else if j < at {
                        assert(precedes(keys[i], keys[j]));
                    } else if i == at {
                        assert(precedes(key_view, keys[j - 1]));
                    } else {
                        assert(precedes(keys[i], key_view));
                    }
                }
            }
            let expected = entry_map(before).insert(key_view, value);
            lemma_entry(after, at as int);
            assert forall|k: Seq<char>|
                #![trigger entry_map(after).dom().contains(k)]
                #![trigger expected.dom().contains(k)]
                #![trigger entry_map(after)[k]]
                entry_map(after).dom().contains(k) == expected.dom().contains(k) && (
                expected.dom().contains(k) ==> entry_map(after)[k] == expected[k]) by {
                if k != key_view {
                    if entry_map(after).contains_key(k) {
                        lemma_key(after, k);
                        let i = choose|i: int| 0 <= i < after.len() && #[trigger] after[i].0@ == k;
                        lemma_entry(after, i);
                        if found || i < at {
                            lemma_entry(before, i);
                        } else {
                            lemma_entry(before, i - 1);
                        }
                    } else if entry_map(before).contains_key(k) {
                        lemma_key(before, k);
                        let i = choose|i: int| 0 <= i < before.len()
                            && #[trigger] before[i].0@ == k;
                        if found || i < at {
                            assert(after[i].0@ == k);
                            lemma_entry(after, i);
                        } else {
                            assert(after[i + 1].0@ == k);
                            lemma_entry(after, i + 1);
                        }
                    }
                }
            }
            assert(entry_map(after) =~= expected);
        }
        self.entries = entries;
        previous
    }

    /// Removes a key and hands back the value that it had.
    pub fn remove(&mut self, key: &str) -> (previous: Option<V>)
        ensures
            final(self)@ == old(self)@.remove(key@),
            previous == (if old(self)@.contains_key(key@) {
                Some(old(self)@[key@])
            } else {
                None
            }),
    {
        let (found, at) = self.position(key);
        proof {
            use_type_invariant(&*self);
        }
        if !found {
            proof {
                Self::lemma_absent(self.entries@, key@, at as int);
                assert(entry_map(self.entries@).remove(key@) =~= entry_map(self.entries@));
            }
            return None;
        }
        let mut entries: Vec<(String, V)> = Vec::new();
        std::mem::swap(&mut entries, &mut self.entries);
        let ghost before = entries@;
        let ghost keys = entry_keys(before);
        proof {
            lemma_entry(before, at as int);
        }
        let taken = entries.remove(at);
        proof {
            let after = entries@;
            let next = entry_keys(after);
            assert(next =~= keys.remove(at as int));
            assert forall|i: int, j: int| 0 <= i < j < next.len() implies precedes(
                #[trigger] next[i],
                #[trigger] next[j],
            ) by {
                let a = if i < at { i } else { i + 1 };
                let b = if j < at { j } else { j + 1 };
                assert(precedes(keys[a], keys[b]));
            }
            lemma_distinct(keys);
            let expected = entry_map(before).remove(key@);
            assert forall|k: Seq<char>|
                #![trigger entry_map(after).dom().contains(k)]
                #![trigger expected.dom().contains(k)]
                #![trigger entry_map(after)[k]]
                entry_map(after).dom().contains(k) == expected.dom().contains(k) && (
                expected.dom().contains(k) ==> entry_map(after)[k] == expected[k]) by {
                if entry_map(after).contains_key(k) {
                    lemma_key(after, k);
                    let i = choose|i: int| 0 <= i < after.len() && #[trigger] after[i].0@ == k;
                    lemma_entry(after, i);
                    let a = if i < at { i } else { i + 1 };
                    lemma_entry(before, a);
                    assert(keys[a] != keys[at as int]);
                } else if expected.contains_key(k) {
                    lemma_key(before, k);
                    let i = choose|i: int| 0 <= i < before.len() && #[trigger] before[i].0@ == k;
                    let a = if i < at { i } else { i - 1 };
                    assert(after[a].0@ == k);
                    lemma_entry(after, a);
                }
            }
            assert(entry_map(after) =~= expected);
        }
        self.entries = entries;
        Some(taken.1)
    }
}

/// A map with each value replaced by its view.
pub open spec fn keyed_view<V: View>(map: Map<Seq<char>, V>) -> Map<Seq<char>, V::V> {
    map.map_values(|value: V| value@)
}

/// Copies every key and value.
pub fn snapshot_keyed<V: Datum>(map: &Keyed<V>) -> (copy: Keyed<V>)
    ensures
        keyed_view(copy@) == keyed_view(map@),
        copy.keys() == map.keys(),
{
    let all = map.all();
    let mut entries: Vec<(String, V)> = Vec::new();
    let mut index: usize = 0;
    while index < all.len()
        invariant
            index <= all@.len(),
            entries@.len() == index,
            forall|i: int|
                0 <= i < index ==> (#[trigger] entries@[i]).0@ == all@[i].0@ && entries@[i].1@
                    == all@[i].1@,
        decreases all@.len() - index,
    {
        entries.push((all[index].0.clone(), all[index].1.snapshot()));
        index = index + 1;
    }
    assert(entry_keys(entries@) =~= entry_keys(all@));
    let copy = Keyed::of_ascending(entries);
    assert(keyed_view(copy@) =~= keyed_view(map@));
    copy
}

/// The keys of a map, in ascending order.
pub fn key_list<V>(map: &Keyed<V>) -> (keys: Vec<String>)
    ensures
        views(keys@) == map.keys(),
        ascending(map.keys()),
        map@.dom() == map.keys().to_set(),
{
    let count: usize = map.len();
    let mut keys: Vec<String> = Vec::new();
    let mut index: usize = 0;
    assert(views(keys@) =~= map.keys().take(0));
    while index < count
        invariant
            index <= count,
            count == map.keys().len(),
            views(keys@) == map.keys().take(index as int),
        decreases count - index,
    {
        let key = map.key_at(index).clone();
        proof {
            lemma_views_push(keys@, key);
            assert(map.keys().take(index as int + 1) =~= map.keys().take(index as int).push(key@));
        }
        keys.push(key);
        index = index + 1;
    }
    assert(map.keys().take(index as int) =~= map.keys());
    keys
}

} // verus!
