//! A keyed table: values in slots, found through an index of their keys.

use crate::string_map::{keys_of, map_of, map_of_entries};
use dashmap::DashMap;
use vstd::prelude::*;

verus! {

/// `dashmap::DashMap`, the concurrent hash map of the `dashmap` crate.
#[verifier::external_type_specification]
#[verifier::external_body]
#[verifier::reject_recursive_types(K)]
#[verifier::reject_recursive_types(V)]
#[verifier::reject_recursive_types(S)]
pub struct ExDashMap<K, V, S>(dashmap::DashMap<K, V, S>);

/// What an index holds: the slot of each key.
pub uninterp spec fn slots_of(index: DashMap<String, usize>) -> Map<Seq<char>, usize>;

/// `DashMap::new`: a map without entries.
#[verifier::external_body]
fn index_new() -> (index: DashMap<String, usize>)
    ensures
        slots_of(index).dom() == Set::<Seq<char>>::empty(),
{
    DashMap::new()
}

/// `DashMap::get`: the value stored under a key, if there is one. The value is
/// copied out and the guard that the map hands out is dropped at once.
#[verifier::external_body]
fn index_get(index: &DashMap<String, usize>, key: &str) -> (slot: Option<usize>)
    ensures
        slot is Some == slots_of(*index).contains_key(key@),
        slot matches Some(i) ==> i == slots_of(*index)[key@],
{
    index.get(key).map(|entry| *entry.value())
}

/// `DashMap::insert`: stores a value under a key, in place of the one that was
/// there, and changes no other entry.
#[verifier::external_body]
fn index_insert(index: &mut DashMap<String, usize>, key: String, slot: usize)
    ensures
        slots_of(*final(index)) == slots_of(*old(index)).insert(key@, slot),
{
    index.insert(key, slot);
}

/// `DashMap::remove`: takes the entry of a key out, if there is one, and changes
/// no other entry.
#[verifier::external_body]
fn index_remove(index: &mut DashMap<String, usize>, key: &str)
    ensures
        slots_of(*final(index)) == slots_of(*old(index)).remove(key@),
{
    index.remove(key);
}

/// Values in slots, found by their keys through an index.
pub struct Table<V> {
    index: DashMap<String, usize>,
    slots: Vec<(String, V)>,
}

impl<V: View> View for Table<V> {
    type V = Map<Seq<char>, V::V>;

    closed spec fn view(&self) -> Map<Seq<char>, V::V> {
        map_of(self.slots@)
    }
}

impl<V: View> Table<V> {
    /// The index knows each key, with the slot that holds its value.
    pub closed spec fn wf(&self) -> bool {
        &&& keys_of(self.slots@).no_duplicates()
        &&& forall|k: Seq<char>| #[trigger]
            slots_of(self.index).contains_key(k) ==> slots_of(self.index)[k] < self.slots@.len()
                && self.slots@[slots_of(self.index)[k] as int].0@ == k
        &&& forall|i: int|
            0 <= i < self.slots@.len() ==> slots_of(self.index).contains_key(
                #[trigger] self.slots@[i].0@,
            )
    }

    /// The keys in the order of their slots.
    pub closed spec fn order(&self) -> Seq<Seq<char>> {
        keys_of(self.slots@)
    }

    proof fn index_is_exact(&self)
        requires
            self.wf(),
        ensures
            keys_of(self.slots@).no_duplicates(),
            forall|k: Seq<char>| #[trigger]
                slots_of(self.index).contains_key(k) == self@.contains_key(k),
            forall|k: Seq<char>| #[trigger]
                self@.contains_key(k) ==> self@[k] == self.slots@[slots_of(self.index)[k] as int].1@,
            forall|i: int|
                0 <= i < self.slots@.len() ==> slots_of(self.index)[#[trigger] self.slots@[i].0@] == i,
    {
        let index = slots_of(self.index);
        map_of_entries(self.slots@);
        assert forall|i: int| 0 <= i < self.slots@.len() implies index[#[trigger] self.slots@[i].0@]
            == i by {
            let k = self.slots@[i].0@;
            assert(index.contains_key(k));
            let j = index[k] as int;
            assert(keys_of(self.slots@)[i] == keys_of(self.slots@)[j]);
        }
        assert forall|k: Seq<char>| #[trigger] index.contains_key(k) == self@.contains_key(k) by {
            if index.contains_key(k) {
                assert(keys_of(self.slots@)[index[k] as int] == k);
            }
            if self@.contains_key(k) {
                let i = keys_of(self.slots@).index_of(k);
                assert(keys_of(self.slots@)[i] == k);
                assert(self.slots@[i].0@ == k);
            }
        }
        assert forall|k: Seq<char>| #[trigger] self@.contains_key(k) implies self@[k]
            == self.slots@[slots_of(self.index)[k] as int].1@ by {
            assert(index.contains_key(k));
            let i = index[k] as int;
            assert(self.slots@[i].0@ == k);
        }
    }

    /// The empty table.
    pub fn new() -> (table: Self)
        ensures
            table.wf(),
            table@ == Map::<Seq<char>, V::V>::empty(),
    {
        let table = Table { index: index_new(), slots: Vec::new() };
        proof {
            assert(table@ =~= Map::<Seq<char>, V::V>::empty());
        }
        table
    }

    /// The number of entries.
    pub fn len(&self) -> (n: usize)
        requires
            self.wf(),
        ensures
            n == self.order().len(),
            n == self@.dom().len(),
            self@.dom().finite(),
            self.order().no_duplicates(),
            self.order().to_set() == self@.dom(),
            forall|i: int| 0 <= i < n ==> self@.contains_key(#[trigger] self.order()[i]),
    {
        proof {
            map_of_entries(self.slots@);
        }
        self.slots.len()
    }

    /// Whether `key` is in the table.
    pub fn contains_key(&self, key: &str) -> (yes: bool)
        requires
            self.wf(),
        ensures
            yes == self@.contains_key(key@),
    {
        proof {
            self.index_is_exact();
        }
        index_get(&self.index, key).is_some()
    }

    /// The value of `key`.
    pub fn get(&self, key: &str) -> (value: Option<&V>)
        requires
            self.wf(),
        ensures
            value is Some == self@.contains_key(key@),
            value matches Some(v) ==> v@ == self@[key@],
    {
        proof {
            self.index_is_exact();
        }
        match index_get(&self.index, key) {
            Some(i) => Some(&self.slots[i].1),
            None => None,
        }
    }

    /// The key at a place of the order.
    pub fn key_at(&self, i: usize) -> (key: &String)
        requires
            i < self.order().len(),
        ensures
            key@ == self.order()[i as int],
    {
        &self.slots[i].0
    }

    /// The value at a place of the order.
    pub fn value_at(&self, i: usize) -> (value: &V)
        requires
            self.wf(),
            i < self.order().len(),
        ensures
            value@ == self@[self.order()[i as int]],
    {
        proof {
            map_of_entries(self.slots@);
            assert(self.order()[i as int] == self.slots@[i as int].0@);
        }
        &self.slots[i].1
    }

    /// Puts a value under a key, in place of the one that was there. A new key
    /// gets the last slot.
    pub fn insert(&mut self, key: String, value: V)
        requires
            old(self).wf(),
        ensures
            final(self).wf(),
            final(self)@ == old(self)@.insert(key@, value@),
            old(self)@.contains_key(key@) ==> final(self).order() == old(self).order(),
            !old(self)@.contains_key(key@) ==> final(self).order() == old(self).order().push(key@),
    {
        proof {
            self.index_is_exact();
            map_of_entries(self.slots@);
        }
        let ghost before = self.slots@;
        let ghost k = key@;
        let ghost v = value@;
        match index_get(&self.index, key.as_str()) {
            Some(i) => {
                proof {
                    assert(keys_of(before.update(i as int, (key, value))) =~= keys_of(before));
                }
                self.slots.set(i, (key, value));
                proof {
                    map_of_entries(self.slots@);
                    assert forall|other: Seq<char>| map_of(before).contains_key(other) implies map_of(
                        before,
                    ).insert(k, v)[other] == map_of(self.slots@)[other] by {
                        let j = keys_of(before).index_of(other);
                        assert(keys_of(before)[j] == other);
                        assert(self.slots@[j].0@ == other);
                        if j != i {
                            assert(keys_of(before)[j] != keys_of(before)[i as int]);
                            assert(self.slots@[j] == before[j]);
                        }
                    }
                    assert(self@ =~= map_of(before).insert(k, v));
                }
            },
            None => {
                index_insert(&mut self.index, key.clone(), self.slots.len());
                self.slots.push((key, value));
                proof {
                    let after = self.slots@;
                    assert(keys_of(after) =~= keys_of(before).push(k));
                    assert forall|a: int, b: int|
                        0 <= a < b < keys_of(after).len() implies keys_of(after)[a] != keys_of(
                        after,
                    )[b] by {
                        assert(keys_of(before)[a] == keys_of(after)[a]);
                        assert(keys_of(before).contains(keys_of(before)[a]));
                        if b < before.len() {
                            assert(keys_of(before)[b] == keys_of(after)[b]);
                        }
                    }
                    assert forall|i: int| 0 <= i < after.len() implies slots_of(
                        self.index,
                    ).contains_key(#[trigger] after[i].0@) by {
                        if i < before.len() {
                            assert(after[i] == before[i]);
                        }
                    }
                    map_of_entries(after);
                    assert(after[before.len() as int].0@ == k);
                    assert forall|other: Seq<char>| #[trigger] map_of(before).insert(
                        k,
                        v,
                    ).contains_key(other) == map_of(after).contains_key(other) by {
                        if keys_of(before).contains(other) {
                            let j = keys_of(before).index_of(other);
                            assert(keys_of(after)[j] == other);
                        }
                        if other == k {
                            assert(keys_of(after)[before.len() as int] == k);
                        }
                    }
                    assert forall|other: Seq<char>| map_of(before).contains_key(other) implies map_of(
                        before,
                    )[other] == map_of(after)[other] by {
                        let j = keys_of(before).index_of(other);
                        assert(keys_of(before)[j] == other);
                        assert(after[j] == before[j]);
                        assert(after[j].0@ == other);
                    }
                    assert(self@ =~= map_of(before).insert(k, v));
                }
            },
        }
    }

    /// Takes the entry of a key out of the table. The entry of the last slot
    /// moves into the slot that becomes free.
    pub fn remove(&mut self, key: &str) -> (value: Option<V>)
        requires
            old(self).wf(),
        ensures
            final(self).wf(),
            final(self)@ == old(self)@.remove(key@),
            value is Some == old(self)@.contains_key(key@),
            value matches Some(v) ==> v@ == old(self)@[key@],
    {
        proof {
            self.index_is_exact();
            map_of_entries(self.slots@);
        }
        let ghost before = self.slots@;
        let ghost known = slots_of(self.index);
        match index_get(&self.index, key) {
            Some(i) => {
                let last: usize = self.slots.len() - 1;
                index_remove(&mut self.index, key);
                if i < last {
                    let moved = self.slots[last].0.clone();
                    index_insert(&mut self.index, moved, i);
                }
                let entry = self.slots.swap_remove(i);
                proof {
                    let after = self.slots@;
                    let index = slots_of(self.index);
                    assert(after =~= before.update(i as int, before.last()).drop_last());
                    assert(keys_of(before)[i as int] == key@);
                    assert(keys_of(before)[last as int] == before[last as int].0@);
                    assert forall|a: int| 0 <= a < after.len() implies #[trigger] after[a].0@ != key@
                        && index.contains_key(after[a].0@) && index[after[a].0@] == a by {
                        let b = if a == i { last as int } else { a };
                        assert(after[a] == before[b]);
                        assert(keys_of(before)[b] != keys_of(before)[i as int]);
                        if a != i {
                            assert(keys_of(before)[b] != keys_of(before)[last as int]);
                            assert(known[before[b].0@] == b);
                        }
                    }
                    assert forall|a: int, b: int|
                        0 <= a < b < after.len() implies keys_of(after)[a] != keys_of(after)[b] by {
                        assert(after[a].0@ == keys_of(after)[a]);
                        assert(after[b].0@ == keys_of(after)[b]);
                        assert(index[after[a].0@] != index[after[b].0@]);
                    }
                    assert forall|k: Seq<char>| #[trigger] index.contains_key(k) implies index[k]
                        < after.len() && after[index[k] as int].0@ == k by {
                        if i < last && k == before[last as int].0@ {
                            assert(after[i as int] == before[last as int]);
                        } else {
                            assert(known.contains_key(k));
                            assert(k != key@);
                            let b = known[k] as int;
                            assert(before[b].0@ == k);
                            assert(b != i);
                            assert(b != last);
                            assert(after[b] == before[b]);
                        }
                    }
                    self.index_is_exact();
                    map_of_entries(after);
                    assert forall|k: Seq<char>| #[trigger] map_of(before).remove(key@).contains_key(k)
                        == map_of(after).contains_key(k) by {
                        assert(known.contains_key(k) == map_of(before).contains_key(k));
                        assert(index.contains_key(k) == self@.contains_key(k));
                    }
                    assert forall|k: Seq<char>| map_of(after).contains_key(k) implies map_of(
                        before,
                    )[k] == map_of(after)[k] by {
                        assert(index.contains_key(k) == self@.contains_key(k));
                        let a = index[k] as int;
                        let b = if a == i { last as int } else { a };
                        assert(after[a].0@ == k);
                        assert(after[a] == before[b]);
                        assert(before[b].0@ == k);
                    }
                    assert(self@ =~= map_of(before).remove(key@));
                }
                Some(entry.1)
            },
            None => {
                proof {
                    assert(self@ =~= map_of(before).remove(key@));
                }
                None
            },
        }
    }
}

} // verus!
