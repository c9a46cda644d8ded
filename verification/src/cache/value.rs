//! Cached values.

use crate::sorted::SortedSet;
use crate::string_map::{Duplicate, StringMap};
use crate::text::texts;
use std::collections::VecDeque;
use vstd::prelude::*;

verus! {

/// A cached value: a string, a list, a set or a hash.
pub enum CacheValue {
    Text(String),
    List(VecDeque<String>),
    Members(SortedSet),
    Fields(StringMap<String>),
}

/// What a cached value holds.
pub enum ValueModel {
    Text(Seq<char>),
    List(Seq<Seq<char>>),
    Members(Set<Seq<char>>),
    Fields(Map<Seq<char>, Seq<char>>),
}

impl View for CacheValue {
    type V = ValueModel;

    open spec fn view(&self) -> ValueModel {
        match self {
            CacheValue::Text(s) => ValueModel::Text(s@),
            CacheValue::List(l) => ValueModel::List(texts(l@)),
            CacheValue::Members(m) => ValueModel::Members(m@),
            CacheValue::Fields(f) => ValueModel::Fields(f@),
        }
    }
}

/// A copy of a list of strings.
pub fn copy_list(list: &VecDeque<String>) -> (copy: VecDeque<String>)
    ensures
        copy@ == list@,
{
    let mut copy: VecDeque<String> = VecDeque::new();
    let mut i: usize = 0;
    while i < list.len()
        invariant
            i <= list@.len(),
            copy@ == list@.take(i as int),
        decreases list@.len() - i,
    {
        copy.push_back(list[i].clone());
        i += 1;
        proof {
            assert(list@.take(i as int) =~= list@.take(i - 1).push(list@[i - 1]));
        }
    }
    proof {
        assert(list@.take(list@.len() as int) =~= list@);
    }
    copy
}

impl Duplicate for CacheValue {
    fn duplicate(&self) -> (copy: Self) {
        match self {
            CacheValue::Text(s) => CacheValue::Text(s.clone()),
            CacheValue::List(l) => CacheValue::List(copy_list(l)),
            CacheValue::Members(m) => CacheValue::Members(m.duplicate()),
            CacheValue::Fields(f) => CacheValue::Fields(f.duplicate()),
        }
    }
}

/// The list in a value, or the empty one where it is of another kind or missing.
pub open spec fn list_in(value: Option<ValueModel>) -> Seq<Seq<char>> {
    match value {
        Some(ValueModel::List(l)) => l,
        _ => Seq::empty(),
    }
}

/// The set in a value, or the empty one where it is of another kind or missing.
pub open spec fn members_in(value: Option<ValueModel>) -> Set<Seq<char>> {
    match value {
        Some(ValueModel::Members(m)) => m,
        _ => Set::empty(),
    }
}

/// The hash in a value, or the empty one where it is of another kind or missing.
pub open spec fn fields_in(value: Option<ValueModel>) -> Map<Seq<char>, Seq<char>> {
    match value {
        Some(ValueModel::Fields(f)) => f,
        _ => Map::empty(),
    }
}

/// The string in a value, where it is one.
pub open spec fn text_in(value: Option<ValueModel>) -> Option<Seq<char>> {
    match value {
        Some(ValueModel::Text(s)) => Some(s),
        _ => None,
    }
}

/// The view of a value that may be missing.
pub open spec fn value_view(value: Option<CacheValue>) -> Option<ValueModel> {
    match value {
        Some(v) => Some(v@),
        None => None,
    }
}

/// Takes the list out of a value, or starts an empty one.
pub fn into_list(value: Option<CacheValue>) -> (list: VecDeque<String>)
    ensures
        texts(list@) == list_in(value_view(value)),
{
    match value {
        Some(CacheValue::List(l)) => l,
        _ => {
            let list: VecDeque<String> = VecDeque::new();
            proof {
                assert(texts(list@) =~= Seq::<Seq<char>>::empty());
            }
            list
        },
    }
}

/// Takes the set out of a value, or starts an empty one.
pub fn into_members(value: Option<CacheValue>) -> (members: SortedSet)
    ensures
        members@ == members_in(value_view(value)),
{
    match value {
        Some(CacheValue::Members(m)) => m,
        _ => SortedSet::new(),
    }
}

/// Takes the hash out of a value, or starts an empty one.
pub fn into_fields(value: Option<CacheValue>) -> (fields: StringMap<String>)
    ensures
        fields@ == fields_in(value_view(value)),
{
    match value {
        Some(CacheValue::Fields(f)) => f,
        _ => StringMap::new(),
    }
}

/// The inclusive range `[start, end]` of a list, cut off at its end.
pub open spec fn inclusive_range(list: Seq<Seq<char>>, start: nat, end: nat) -> Seq<Seq<char>> {
    if end < start || start >= list.len() {
        Seq::empty()
    } else if end < list.len() {
        list.subrange(start as int, (end + 1) as int)
    } else {
        list.subrange(start as int, list.len() as int)
    }
}

/// Copies the inclusive range `[start, end]` of a list.
pub fn range_of(list: &VecDeque<String>, start: usize, end: usize) -> (range: Vec<String>)
    ensures
        texts(range@) == inclusive_range(texts(list@), start as nat, end as nat),
{
    let mut range: Vec<String> = Vec::new();
    if end < start || start >= list.len() {
        proof {
            assert(texts(range@) =~= Seq::<Seq<char>>::empty());
        }
        return range;
    }
    let to: usize = if end < list.len() {
        end + 1
    } else {
        list.len()
    };
    let mut i: usize = start;
    while i < to
        invariant
            start <= i <= to <= list@.len(),
            range@ == list@.subrange(start as int, i as int),
        decreases to - i,
    {
        range.push(list[i].clone());
        i += 1;
        proof {
            assert(list@.subrange(start as int, i as int) =~= list@.subrange(
                start as int,
                i - 1,
            ).push(list@[i - 1]));
        }
    }
    proof {
        assert(texts(range@) =~= texts(list@).subrange(start as int, to as int));
    }
    range
}

/// The field names of a hash in their order.
pub fn field_names(fields: &StringMap<String>) -> (names: SortedSet)
    ensures
        names@ == fields@.dom(),
{
    let mut names = SortedSet::new();
    let n = fields.len();
    let ghost order = fields.order();
    let mut i: usize = 0;
    proof {
        assert(names@ =~= order.take(0).to_set());
    }
    while i < n
        invariant
            order == fields.order(),
            i <= n == order.len(),
            names@ == order.take(i as int).to_set(),
        decreases n - i,
    {
        names.insert(fields.key_at(i).clone());
        i += 1;
        proof {
            let done = order.take(i as int);
            assert(done =~= order.take(i - 1).push(order[i - 1]));
            assert forall|k: Seq<char>| #[trigger] done.contains(k) == (order.take(i - 1).contains(k)
                || k == order[i - 1]) by {
                if order.take(i - 1).contains(k) {
                    let j = order.take(i - 1).index_of(k);
                    assert(done[j] == k);
                }
                assert(done[i - 1] == order[i - 1]);
            }
            assert(done.to_set() =~= order.take(i - 1).to_set().insert(order[i - 1]));
        }
    }
    proof {
        assert(order.take(n as int) =~= order);
    }
    names
}

} // verus!
