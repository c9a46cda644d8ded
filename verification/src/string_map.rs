//! A map from strings to values that keeps the order of insertion.

use crate::text::same_text;
use vstd::prelude::*;

verus! {

/// A value that can be copied, the copy having the same view.
pub trait Duplicate: View + Sized {
    fn duplicate(&self) -> (copy: Self)
        ensures
            copy@ == self@,
    ;
}

impl Duplicate for String {
    fn duplicate(&self) -> (copy: Self) {
        self.clone()
    }
}

/// A map from strings to values, as a list of entries in the order in which
/// their keys came in. No key occurs twice.
pub struct StringMap<V> {
    entries: Vec<(String, V)>,
}

/// The keys of a list of entries.
pub open spec fn keys_of<V>(entries: Seq<(String, V)>) -> Seq<Seq<char>> {
    entries.map_values(|e: (String, V)| e.0@)
}

/// The map that a list of entries stands for.
pub open spec fn map_of<V: View>(entries: Seq<(String, V)>) -> Map<Seq<char>, V::V> {
    Map::new(
        |k: Seq<char>| keys_of(entries).contains(k),
        |k: Seq<char>| entries[keys_of(entries).index_of(k)].1@,
    )
}

/// A list of entries without repeated keys has each entry in its map, and as
/// many entries as its map.
pub proof fn map_of_entries<V: View>(entries: Seq<(String, V)>)
    requires
        keys_of(entries).no_duplicates(),
    ensures
        forall|i: int|
            0 <= i < entries.len() ==> map_of(entries).contains_key(#[trigger] entries[i].0@) && map_of(
                entries,
            )[entries[i].0@] == entries[i].1@,
        keys_of(entries).to_set() == map_of(entries).dom(),
        map_of(entries).dom().finite(),
        map_of(entries).dom().len() == entries.len(),
{
    let keys = keys_of(entries);
    assert forall|i: int| 0 <= i < entries.len() implies map_of(entries).contains_key(
        #[trigger] entries[i].0@,
    ) && map_of(entries)[entries[i].0@] == entries[i].1@ by {
        assert(keys[i] == entries[i].0@);
        assert(keys.contains(entries[i].0@));
        let j = keys.index_of(entries[i].0@);
        assert(keys[j] == keys[i]);
    }
    assert(keys.to_set() =~= map_of(entries).dom());
    keys.unique_seq_to_set();
    vstd::seq_lib::seq_to_set_is_finite(keys);
}

/// Whether a list holds the values of a map in some order of its keys.
pub open spec fn lists_by<A>(list: Seq<A>, map: Map<Seq<char>, A>, order: Seq<Seq<char>>) -> bool {
    order.no_duplicates() && order.to_set() == map.dom() && list == order.map_values(
        |k: Seq<char>| map[k],
    )
}

/// Whether a list holds the values of a map, each once.
pub open spec fn is_listing<A>(list: Seq<A>, map: Map<Seq<char>, A>) -> bool {
    exists|order: Seq<Seq<char>>| #[trigger] lists_by(list, map, order)
}

impl<V: View> View for StringMap<V> {
    type V = Map<Seq<char>, V::V>;

    closed spec fn view(&self) -> Map<Seq<char>, V::V> {
        map_of(self.entries@)
    }
}

impl<V> StringMap<V> {
    #[verifier::type_invariant]
    spec fn inv(&self) -> bool {
        keys_of(self.entries@).no_duplicates()
    }
}

impl<V: View> StringMap<V> {
    /// The keys in the order in which they came in.
    pub closed spec fn order(&self) -> Seq<Seq<char>> {
        keys_of(self.entries@)
    }

    /// The empty map.
    pub fn new() -> (map: Self)
        ensures
            map@ == Map::<Seq<char>, V::V>::empty(),
            map.order() == Seq::<Seq<char>>::empty(),
    {
        let map = StringMap { entries: Vec::new() };
        proof {
            assert(map.order() =~= Seq::<Seq<char>>::empty());
            assert(map@ =~= Map::<Seq<char>, V::V>::empty());
        }
        map
    }

    /// The number of entries.
    pub fn len(&self) -> (n: usize)
        ensures
            n == self.order().len(),
            n == self@.dom().len(),
            self@.dom().finite(),
            self.order().no_duplicates(),
            self.order().to_set() == self@.dom(),
            forall|i: int| 0 <= i < n ==> self@.contains_key(#[trigger] self.order()[i]),
    {
        proof {
            use_type_invariant(self);
            map_of_entries(self.entries@);
        }
        self.entries.len()
    }

    /// Whether there is no entry.
    pub fn is_empty(&self) -> (yes: bool)
        ensures
            yes == (self@ == Map::<Seq<char>, V::V>::empty()),
    {
        let n = self.len();
        proof {
            if n == 0 {
                assert(self@ =~= Map::<Seq<char>, V::V>::empty());
            } else {
                assert(self@.contains_key(self.order()[0]));
            }
        }
        n == 0
    }

    fn position(&self, key: &str) -> (at: Option<usize>)
        ensures
            at matches Some(i) ==> i < self.entries@.len() && self.entries@[i as int].0@ == key@,
            at is Some == self@.contains_key(key@),
    {
        let mut i: usize = 0;
        while i < self.entries.len()
            invariant
                i <= self.entries@.len(),
                forall|j: int| 0 <= j < i ==> self.entries@[j].0@ != key@,
            decreases self.entries@.len() - i,
        {
            if same_text(self.entries[i].0.as_str(), key) {
                proof {
                    assert(keys_of(self.entries@)[i as int] == key@);
                }
                return Some(i);
            }
            i += 1;
        }
        None
    }

    /// Whether `key` is in the map.
    pub fn contains_key(&self, key: &str) -> (yes: bool)
        ensures
            yes == self@.contains_key(key@),
    {
        self.position(key).is_some()
    }

    /// The value of `key`.
    pub fn get(&self, key: &str) -> (value: Option<&V>)
        ensures
            value is Some == self@.contains_key(key@),
            value matches Some(v) ==> v@ == self@[key@],
    {
        proof {
            use_type_invariant(self);
            map_of_entries(self.entries@);
        }
        match self.position(key) {
            Some(i) => Some(&self.entries[i].1),
            None => None,
        }
    }

    /// The key at a place of the order.
    pub fn key_at(&self, i: usize) -> (key: &String)
        requires
            i < self.order().len(),
        ensures
            key@ == self.order()[i as int],
    {
        &self.entries[i].0
    }

    /// The value at a place of the order.
    pub fn value_at(&self, i: usize) -> (value: &V)
        requires
            i < self.order().len(),
        ensures
            value@ == self@[self.order()[i as int]],
    {
        proof {
            use_type_invariant(self);
            map_of_entries(self.entries@);
            assert(self.order()[i as int] == self.entries@[i as int].0@);
        }
        &self.entries[i].1
    }

    /// Puts a value under a key, in place of the one that was there. A new key
    /// comes last in the order.
    pub fn insert(&mut self, key: String, value: V)
        ensures
            final(self)@ == old(self)@.insert(key@, value@),
            old(self)@.contains_key(key@) ==> final(self).order() == old(self).order(),
            !old(self)@.contains_key(key@) ==> final(self).order() == old(self).order().push(key@),
    {
        proof {
            use_type_invariant(&*self);
            map_of_entries(self.entries@);
        }
        let ghost before = self.entries@;
        let ghost k = key@;
        match self.position(key.as_str()) {
            Some(i) => {
                let ghost entry = (key, value);
                proof {
                    assert(keys_of(before.update(i as int, entry)) =~= keys_of(before));
                }
                let mut entries: Vec<(String, V)> = Vec::new();
                std::mem::swap(&mut self.entries, &mut entries);
                entries.set(i, (key, value));
                self.entries = entries;
                proof {
                    map_of_entries(self.entries@);
                    assert forall|other: Seq<char>|
                        map_of(before).contains_key(other) implies map_of(before).insert(k, value@)[other]
                        == map_of(self.entries@)[other] by {
                        let j = keys_of(before).index_of(other);
                        assert(keys_of(before)[j] == other);
                        assert(self.entries@[j].0@ == other);
                        if j != i {
                            assert(keys_of(before)[j] != keys_of(before)[i as int]);
                            assert(self.entries@[j] == before[j]);
                        }
                    }
                    assert(self@ =~= map_of(before).insert(k, value@));
                }
            },
            None => {
                proof {
                    let after = before.push((key, value));
                    assert(keys_of(after) =~= keys_of(before).push(k));
                    assert(keys_of(after).no_duplicates()) by {
                        assert forall|a: int, b: int|
                            0 <= a < b < keys_of(after).len() implies keys_of(after)[a] != keys_of(
                            after,
                        )[b] by {
                            if b == before.len() {
                                assert(keys_of(before)[a] == keys_of(after)[a]);
                                assert(keys_of(before).contains(keys_of(before)[a]));
                            } else {
                                assert(keys_of(before)[a] == keys_of(after)[a]);
                                assert(keys_of(before)[b] == keys_of(after)[b]);
                            }
                        }
                    }
                }
                let mut entries: Vec<(String, V)> = Vec::new();
                std::mem::swap(&mut self.entries, &mut entries);
                entries.push((key, value));
                self.entries = entries;
                proof {
                    map_of_entries(self.entries@);
                    assert(self.entries@[before.len() as int].0@ == k);
                    assert forall|other: Seq<char>|
                        #![auto]
                        map_of(before).insert(k, value@).contains_key(other) == map_of(
                            self.entries@,
                        ).contains_key(other) by {
                        if keys_of(before).contains(other) {
                            let j = keys_of(before).index_of(other);
                            assert(keys_of(self.entries@)[j] == other);
                        }
                        if other == k {
                            assert(keys_of(self.entries@)[before.len() as int] == k);
                        }
                    }
                    assert forall|other: Seq<char>|
                        map_of(before).contains_key(other) implies map_of(before)[other] == map_of(
                        self.entries@,
                    )[other] by {
                        let j = keys_of(before).index_of(other);
                        assert(keys_of(before)[j] == other);
                        assert(self.entries@[j] == before[j]);
                        assert(self.entries@[j].0@ == other);
                    }
                    assert(self@ =~= map_of(before).insert(k, value@));
                }
            },
        }
    }

    /// Takes the entry of a key out of the map.
    pub fn remove(&mut self, key: &str) -> (value: Option<V>)
        ensures
            final(self)@ == old(self)@.remove(key@),
            value is Some == old(self)@.contains_key(key@),
            value matches Some(v) ==> v@ == old(self)@[key@],
            value is None ==> final(self).order() == old(self).order(),
            value is Some ==> exists|i: int|
                0 <= i < old(self).order().len() && old(self).order()[i] == key@ && final(self).order()
                    == #[trigger] old(self).order().remove(i),
    {
        proof {
            use_type_invariant(&*self);
            map_of_entries(self.entries@);
        }
        let ghost before = self.entries@;
        match self.position(key) {
            Some(i) => {
                proof {
                    let after = before.remove(i as int);
                    assert(keys_of(after) =~= keys_of(before).remove(i as int));
                    assert(keys_of(after).no_duplicates());
                }
                let mut entries: Vec<(String, V)> = Vec::new();
                std::mem::swap(&mut self.entries, &mut entries);
                let entry = entries.remove(i);
                self.entries = entries;
                proof {
                    map_of_entries(self.entries@);
                    assert forall|other: Seq<char>| #![auto]
                        map_of(before).remove(key@).contains_key(other) == map_of(
                            self.entries@,
                        ).contains_key(other) by {
                        if keys_of(before).contains(other) && other != key@ {
                            let j = keys_of(before).index_of(other);
                            let at = if j < i { j } else { j - 1 };
                            assert(self.entries@[at] == before[j]);
                            assert(keys_of(self.entries@)[at] == other);
                        }
                        if keys_of(self.entries@).contains(other) {
                            let at = keys_of(self.entries@).index_of(other);
                            let j = if at < i { at } else { at + 1 };
                            assert(self.entries@[at] == before[j]);
                            assert(keys_of(before)[j] == other);
                            assert(keys_of(before)[i as int] == key@);
                        }
                    }
                    assert forall|other: Seq<char>|
                        map_of(self.entries@).contains_key(other) implies map_of(before)[other] == map_of(
                        self.entries@,
                    )[other] by {
                        let at = keys_of(self.entries@).index_of(other);
                        assert(keys_of(self.entries@)[at] == other);
                        let j = if at < i { at } else { at + 1 };
                        assert(self.entries@[at] == before[j]);
                        assert(before[j].0@ == other);
                    }
                    assert(self@ =~= map_of(before).remove(key@));
                    assert(keys_of(before)[i as int] == key@);
                    assert(self.order() == old(self).order().remove(i as int));
                }
                Some(entry.1)
            },
            None => {
                proof {
                    assert(self@ =~= map_of(before).remove(key@));
                }
                None
            },
        }
    }
}

impl<V: Duplicate> Duplicate for StringMap<V> {
    fn duplicate(&self) -> (copy: Self) {
        let mut copy: StringMap<V> = StringMap::new();
        let n = self.len();
        let mut i: usize = 0;
        while i < n
            invariant
                i <= n == self.order().len(),
                self.order().no_duplicates(),
                self.order().to_set() == self@.dom(),
                copy.order() == self.order().take(i as int),
                forall|j: int|
                    0 <= j < i ==> copy@.contains_key(#[trigger] self.order()[j])
                        && copy@[self.order()[j]] == self@[self.order()[j]],
            decreases n - i,
        {
            let ghost before = copy.order();
            let m = copy.len();
            proof {
                if copy@.contains_key(self.order()[i as int]) {
                    assert(copy.order().to_set().contains(self.order()[i as int]));
                    let j = choose|j: int|
                        0 <= j < before.len() && before[j] == self.order()[i as int];
                    assert(self.order()[j] == self.order()[i as int]);
                }
            }
            copy.insert(self.key_at(i).clone(), self.value_at(i).duplicate());
            i += 1;
            proof {
                assert(self.order().take(i as int) =~= self.order().take(i - 1).push(
                    self.order()[i - 1],
                ));
            }
        }
        let m = copy.len();
        proof {
            assert(self.order().take(n as int) =~= self.order());
            assert forall|k: Seq<char>| #[trigger] self@.contains_key(k) implies copy@[k] == self@[k] by {
                assert(self.order().to_set().contains(k));
                let j = choose|j: int| 0 <= j < self.order().len() && self.order()[j] == k;
                assert(copy@.contains_key(self.order()[j]));
            }
            assert(copy@ =~= self@);
        }
        copy
    }
}

/// A listing of a map holds the value of each of its keys, nothing else, and as many
/// items as the map has keys.
pub proof fn listings_hold_each_value<A>(
    list: Seq<A>,
    map: Map<Seq<char>, A>,
    order: Seq<Seq<char>>,
    key: Seq<char>,
    i: int,
)
    requires
        lists_by(list, map, order),
    ensures
        list.len() == map.dom().len(),
        map.contains_key(key) ==> exists|j: int| 0 <= j < list.len() && #[trigger] list[j] == map[key],
        0 <= i < list.len() ==> map.contains_key(order[i]) && list[i] == map[order[i]],
        0 <= i < list.len() ==> order.index_of(order[i]) == i,
{
    order.unique_seq_to_set();
    if map.contains_key(key) {
        assert(order.to_set().contains(key));
        let j = order.index_of(key);
        assert(list[j] == map[key]);
    }
    if 0 <= i < list.len() {
        assert(order.to_set().contains(order[i]));
        assert(order.contains(order[i]));
    }
}

} // verus!
