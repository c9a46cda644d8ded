//! The cache that keeps its data in-process.

use crate::cache::base::{apply_sort_options, with_options};
use crate::cache::value::{
    field_names, fields_in, inclusive_range, into_fields, into_list, into_members, list_in,
    members_in, range_of, text_in, value_view, CacheValue, ValueModel,
};
use crate::clock::Moment;
use crate::sorted::{lists_in_order, precedes, SortedSet};
use crate::string_map::StringMap;
use crate::text::{format_signed, parse_signed, signed_decimal, signed_in, texts};
use vstd::prelude::*;

verus! {

/// A cached value and the time from which on it has expired.
pub struct CacheEntry {
    pub value: CacheValue,
    /// Nanoseconds on the clock of the cache.
    pub expires_at: Option<u128>,
}

/// What an entry holds.
pub struct EntryModel {
    pub value: ValueModel,
    pub expires_at: Option<u128>,
}

impl View for CacheEntry {
    type V = EntryModel;

    open spec fn view(&self) -> EntryModel {
        EntryModel { value: self.value@, expires_at: self.expires_at }
    }
}

/// Whether an entry has expired.
pub open spec fn expired(entry: EntryModel, now: Moment) -> bool {
    entry.expires_at matches Some(at) && now.ns() >= at
}

/// Whether an entry has expired.
pub fn is_expired(entry: &CacheEntry, now: Moment) -> (yes: bool)
    ensures
        yes == expired(entry@, now),
{
    match entry.expires_at {
        Some(at) => now.total_nanos() >= at,
        None => false,
    }
}

/// Whether a key has an entry that has not expired.
pub open spec fn is_live(entries: Map<Seq<char>, EntryModel>, key: Seq<char>, now: Moment) -> bool {
    entries.contains_key(key) && !expired(entries[key], now)
}

/// The value of a key, where it has one that has not expired.
pub open spec fn live_value(
    entries: Map<Seq<char>, EntryModel>,
    key: Seq<char>,
    now: Moment,
) -> Option<ValueModel> {
    if is_live(entries, key, now) {
        Some(entries[key].value)
    } else {
        None
    }
}

/// The entries without that of a key, where it has expired.
pub open spec fn purged(
    entries: Map<Seq<char>, EntryModel>,
    key: Seq<char>,
    now: Moment,
) -> Map<Seq<char>, EntryModel> {
    if is_live(entries, key, now) {
        entries
    } else {
        entries.remove(key)
    }
}

/// The entries after a string has been stored.
pub open spec fn stored(
    entries: Map<Seq<char>, EntryModel>,
    key: Seq<char>,
    value: Seq<char>,
    expires_at: Option<u128>,
) -> Map<Seq<char>, EntryModel> {
    entries.insert(key, EntryModel { value: ValueModel::Text(value), expires_at })
}

/// The deadline of an entry that lives for `ttl` seconds from now on.
pub open spec fn deadline(now: Moment, ttl: u64) -> Option<u128> {
    Some((now.ns() + ttl * 1_000_000_000) as u128)
}

/// Whether two values are of one kind.
pub open spec fn same_kind(a: ValueModel, b: ValueModel) -> bool {
    match (a, b) {
        (ValueModel::Text(_), ValueModel::Text(_)) => true,
        (ValueModel::List(_), ValueModel::List(_)) => true,
        (ValueModel::Members(_), ValueModel::Members(_)) => true,
        (ValueModel::Fields(_), ValueModel::Fields(_)) => true,
        _ => false,
    }
}

/// The entries after a value has grown. A live value of the same kind keeps its
/// deadline; anything else gives way to a value without one.
pub open spec fn grown(
    entries: Map<Seq<char>, EntryModel>,
    key: Seq<char>,
    now: Moment,
    value: ValueModel,
) -> Map<Seq<char>, EntryModel> {
    entries.insert(
        key,
        EntryModel {
            value,
            expires_at: if is_live(entries, key, now) && same_kind(entries[key].value, value) {
                entries[key].expires_at
            } else {
                None
            },
        },
    )
}

/// The entries after a live value has shrunk; its deadline stays.
pub open spec fn shrunk(
    entries: Map<Seq<char>, EntryModel>,
    key: Seq<char>,
    value: ValueModel,
) -> Map<Seq<char>, EntryModel> {
    entries.insert(key, EntryModel { value, ..entries[key] })
}

/// The number that a key counts: what its string writes, else 0.
pub open spec fn counted(entries: Map<Seq<char>, EntryModel>, key: Seq<char>, now: Moment) -> int {
    match text_in(live_value(entries, key, now)) {
        Some(s) => match signed_in(s) {
            Some(n) => n,
            None => 0,
        },
        None => 0,
    }
}

/// The entries after the first item of a list has been taken.
pub open spec fn popped_left(
    entries: Map<Seq<char>, EntryModel>,
    key: Seq<char>,
    now: Moment,
) -> Map<Seq<char>, EntryModel> {
    let list = list_in(live_value(entries, key, now));
    if list.len() > 0 {
        shrunk(entries, key, ValueModel::List(list.drop_first()))
    } else {
        purged(entries, key, now)
    }
}

/// The entries after the last item of a list has been taken.
pub open spec fn popped_right(
    entries: Map<Seq<char>, EntryModel>,
    key: Seq<char>,
    now: Moment,
) -> Map<Seq<char>, EntryModel> {
    let list = list_in(live_value(entries, key, now));
    if list.len() > 0 {
        shrunk(entries, key, ValueModel::List(list.drop_last()))
    } else {
        purged(entries, key, now)
    }
}

/// The entries after a member has been taken out of a set.
pub open spec fn member_removed(
    entries: Map<Seq<char>, EntryModel>,
    key: Seq<char>,
    now: Moment,
    member: Seq<char>,
) -> Map<Seq<char>, EntryModel> {
    let members = members_in(live_value(entries, key, now));
    if members.contains(member) {
        shrunk(entries, key, ValueModel::Members(members.remove(member)))
    } else {
        purged(entries, key, now)
    }
}

/// The entries after a field has been taken out of a hash.
pub open spec fn field_removed(
    entries: Map<Seq<char>, EntryModel>,
    key: Seq<char>,
    now: Moment,
    field: Seq<char>,
) -> Map<Seq<char>, EntryModel> {
    let fields = fields_in(live_value(entries, key, now));
    if fields.contains_key(field) {
        shrunk(entries, key, ValueModel::Fields(fields.remove(field)))
    } else {
        purged(entries, key, now)
    }
}

/// The entries after a key has been given a time to live.
pub open spec fn expiring(
    entries: Map<Seq<char>, EntryModel>,
    key: Seq<char>,
    now: Moment,
    ttl: u64,
) -> Map<Seq<char>, EntryModel> {
    if is_live(entries, key, now) {
        entries.insert(key, EntryModel { expires_at: deadline(now, ttl), ..entries[key] })
    } else {
        entries.remove(key)
    }
}

/// The keys whose entries have not expired.
pub open spec fn live_keys(entries: Map<Seq<char>, EntryModel>, now: Moment) -> Set<Seq<char>> {
    Set::new(|k: Seq<char>| is_live(entries, k, now))
}

/// Whether an optional string is the first of a set in order.
pub open spec fn is_first_of(first: Option<String>, set: Set<Seq<char>>) -> bool {
    match first {
        Some(f) => set.contains(f@) && forall|s: Seq<char>| #[trigger]
            set.contains(s) ==> s == f@ || precedes(f@, s),
        None => set == Set::<Seq<char>>::empty(),
    }
}

/// The cache that keeps its data in-process. Every operation takes the reading
/// of the cache clock at which it is made.
pub struct InMemoryCacheManager {
    entries: StringMap<CacheEntry>,
}

impl View for InMemoryCacheManager {
    type V = Map<Seq<char>, EntryModel>;

    closed spec fn view(&self) -> Map<Seq<char>, EntryModel> {
        self.entries@
    }
}

impl InMemoryCacheManager {
    /// An empty cache.
    pub fn new() -> (cache: Self)
        ensures
            cache@ == Map::<Seq<char>, EntryModel>::empty(),
    {
        InMemoryCacheManager { entries: StringMap::new() }
    }

    /// The entry of a key, where it has one that has not expired.
    fn entry_ref(&self, key: &str, now: Moment) -> (entry: Option<&CacheEntry>)
        ensures
            entry is Some == is_live(self@, key@, now),
            entry matches Some(e) ==> e@ == self@[key@],
    {
        match self.entries.get(key) {
            Some(entry) => if is_expired(entry, now) {
                None
            } else {
                Some(entry)
            },
            None => None,
        }
    }

    /// Takes the entry of a key out; returns it where it has not expired.
    fn take_live(&mut self, key: &str, now: Moment) -> (entry: Option<CacheEntry>)
        ensures
            final(self)@ == old(self)@.remove(key@),
            entry is Some == is_live(old(self)@, key@, now),
            entry matches Some(e) ==> e@ == old(self)@[key@],
    {
        match self.entries.remove(key) {
            Some(entry) => if is_expired(&entry, now) {
                None
            } else {
                Some(entry)
            },
            None => None,
        }
    }

    /// Takes the entry of a key out, as its value and its deadline.
    fn take_parts(&mut self, key: &str, now: Moment) -> (parts: (Option<CacheValue>, Option<u128>))
        ensures
            final(self)@ == old(self)@.remove(key@),
            value_view(parts.0) == live_value(old(self)@, key@, now),
            is_live(old(self)@, key@, now) ==> parts.1 == old(self)@[key@].expires_at,
            !is_live(old(self)@, key@, now) ==> parts.1 is None,
    {
        match self.take_live(key, now) {
            Some(entry) => (Some(entry.value), entry.expires_at),
            None => (None, None),
        }
    }

    /// Puts back what was taken out, or leaves it out where there was nothing.
    fn put_back(&mut self, key: &str, value: Option<CacheValue>, expires_at: Option<u128>)
        ensures
            value matches Some(v) ==> final(self)@ == old(self)@.insert(
                key@,
                EntryModel { value: v@, expires_at },
            ),
            value is None ==> final(self)@ == old(self)@,
    {
        if let Some(value) = value {
            self.entries.insert(key.to_owned(), CacheEntry { value, expires_at });
        }
    }

    /// Returns a string value for `key` when present and not expired.
    pub fn get(&self, key: &str, now: Moment) -> (value: Option<String>)
        ensures
            match value {
                Some(s) => text_in(live_value(self@, key@, now)) == Some(s@),
                None => text_in(live_value(self@, key@, now)) is None,
            },
    {
        match self.entry_ref(key, now) {
            Some(entry) => match &entry.value {
                CacheValue::Text(s) => Some(s.clone()),
                _ => None,
            },
            None => None,
        }
    }

    /// Stores a string value without expiration.
    pub fn set(&mut self, key: &str, value: String)
        ensures
            final(self)@ == stored(old(self)@, key@, value@, None),
    {
        self.entries.insert(
            key.to_owned(),
            CacheEntry { value: CacheValue::Text(value), expires_at: None },
        );
    }

    /// Returns the existing string value for `key`, or stores and returns `value`
    /// when the key has none.
    pub fn get_or_set(&mut self, key: &str, value: String, now: Moment) -> (held: String)
        ensures
            match text_in(live_value(old(self)@, key@, now)) {
                Some(s) => held@ == s && final(self)@ == old(self)@,
                None => held@ == value@ && final(self)@ == stored(old(self)@, key@, value@, None),
            },
    {
        match self.get(key, now) {
            Some(existing) => existing,
            None => {
                self.set(key, value.clone());
                value
            },
        }
    }

    /// Stores a string value with a time-to-live in seconds.
    pub fn set_with_ttl(&mut self, key: &str, value: String, ttl: u64, now: Moment)
        ensures
            final(self)@ == stored(old(self)@, key@, value@, deadline(now, ttl)),
    {
        self.entries.insert(
            key.to_owned(),
            CacheEntry { value: CacheValue::Text(value), expires_at: Some(now.deadline(ttl)) },
        );
    }

    /// Stores a string value only when the key does not already exist.
    pub fn set_if_not_exists(&mut self, key: &str, value: String, now: Moment) -> (stored_it: bool)
        ensures
            stored_it == !is_live(old(self)@, key@, now),
            final(self)@ == (if stored_it {
                stored(old(self)@, key@, value@, None)
            } else {
                old(self)@
            }),
    {
        if self.entry_ref(key, now).is_some() {
            return false;
        }
        self.set(key, value);
        true
    }

    /// Increments an integer-like string value by `delta` and returns the result.
    /// The result is stored without expiration.
    pub fn incr(&mut self, key: &str, delta: i64, now: Moment) -> (next: i64)
        requires
            i64::MIN <= counted(old(self)@, key@, now) + delta <= i64::MAX,
        ensures
            next == counted(old(self)@, key@, now) + delta,
            final(self)@ == stored(old(self)@, key@, signed_decimal(next as int), None),
    {
        let current: i64 = match self.get(key, now) {
            Some(s) => match parse_signed(s.as_str()) {
                Some(n) => n,
                None => 0,
            },
            None => 0,
        };
        let next: i64 = current + delta;
        self.set(key, format_signed(next));
        next
    }

    /// Decrements an integer-like string value by `delta` and returns the result.
    /// The result is stored without expiration.
    pub fn decr(&mut self, key: &str, delta: i64, now: Moment) -> (next: i64)
        requires
            delta > i64::MIN,
            i64::MIN <= counted(old(self)@, key@, now) - delta <= i64::MAX,
        ensures
            next == counted(old(self)@, key@, now) - delta,
            final(self)@ == stored(old(self)@, key@, signed_decimal(next as int), None),
    {
        self.incr(key, -delta, now)
    }

    /// Appends a value to the tail of a cached list.
    pub fn list_append(&mut self, key: &str, value: String, now: Moment) -> (appended: String)
        ensures
            appended@ == value@,
            final(self)@ == grown(
                old(self)@,
                key@,
                now,
                ValueModel::List(list_in(live_value(old(self)@, key@, now)).push(value@)),
            ),
    {
        let ghost before = self@;
        let (held, expires_at) = self.take_parts(key, now);
        let kept = match &held {
            Some(CacheValue::List(_)) => expires_at,
            _ => None,
        };
        let mut list = into_list(held);
        let ghost items = list@;
        list.push_back(value.clone());
        proof {
            assert(texts(list@) =~= texts(items).push(value@));
        }
        self.put_back(key, Some(CacheValue::List(list)), kept);
        proof {
            assert(self@ =~= grown(
                before,
                key@,
                now,
                ValueModel::List(list_in(live_value(before, key@, now)).push(value@)),
            ));
        }
        value
    }

    /// Prepends a value to the head of a cached list.
    pub fn list_prepend(&mut self, key: &str, value: String, now: Moment) -> (prepended: String)
        ensures
            prepended@ == value@,
            final(self)@ == grown(
                old(self)@,
                key@,
                now,
                ValueModel::List(seq![value@] + list_in(live_value(old(self)@, key@, now))),
            ),
    {
        let ghost before = self@;
        let (held, expires_at) = self.take_parts(key, now);
        let kept = match &held {
            Some(CacheValue::List(_)) => expires_at,
            _ => None,
        };
        let mut list = into_list(held);
        let ghost items = list@;
        list.push_front(value.clone());
        proof {
            assert(texts(list@) =~= seq![value@] + texts(items));
        }
        self.put_back(key, Some(CacheValue::List(list)), kept);
        proof {
            assert(self@ =~= grown(
                before,
                key@,
                now,
                ValueModel::List(seq![value@] + list_in(live_value(before, key@, now))),
            ));
        }
        value
    }

    /// Removes and returns the first list item.
    pub fn list_pop_left(&mut self, key: &str, now: Moment) -> (item: Option<String>)
        ensures
            ({
                let list = list_in(live_value(old(self)@, key@, now));
                match item {
                    Some(s) => list.len() > 0 && s@ == list[0],
                    None => list.len() == 0,
                }
            }),
            final(self)@ == popped_left(old(self)@, key@, now),
    {
        let ghost before = self@;
        let (held, expires_at) = self.take_parts(key, now);
        match held {
            Some(CacheValue::List(mut list)) => {
                let ghost items = list@;
                let item = list.pop_front();
                self.put_back(key, Some(CacheValue::List(list)), expires_at);
                proof {
                    if items.len() > 0 {
                        assert(texts(items)[0] == items[0]@);
                        assert(texts(list@) =~= texts(items).drop_first());
                    }
                    assert(self@ =~= popped_left(before, key@, now));
                }
                item
            },
            other => {
                self.put_back(key, other, expires_at);
                proof {
                    assert(self@ =~= popped_left(before, key@, now));
                }
                None
            },
        }
    }

    /// Removes and returns the last list item.
    pub fn list_pop_right(&mut self, key: &str, now: Moment) -> (item: Option<String>)
        ensures
            ({
                let list = list_in(live_value(old(self)@, key@, now));
                match item {
                    Some(s) => list.len() > 0 && s@ == list.last(),
                    None => list.len() == 0,
                }
            }),
            final(self)@ == popped_right(old(self)@, key@, now),
    {
        let ghost before = self@;
        let (held, expires_at) = self.take_parts(key, now);
        match held {
            Some(CacheValue::List(mut list)) => {
                let ghost items = list@;
                let item = list.pop_back();
                self.put_back(key, Some(CacheValue::List(list)), expires_at);
                proof {
                    if items.len() > 0 {
                        assert(texts(items).last() == items.last()@);
                        assert(texts(list@) =~= texts(items).drop_last());
                    }
                    assert(self@ =~= popped_right(before, key@, now));
                }
                item
            },
            other => {
                self.put_back(key, other, expires_at);
                proof {
                    assert(self@ =~= popped_right(before, key@, now));
                }
                None
            },
        }
    }

    /// Returns the number of items in the cached list.
    pub fn list_length(&self, key: &str, now: Moment) -> (n: usize)
        ensures
            n == list_in(live_value(self@, key@, now)).len(),
    {
        match self.entry_ref(key, now) {
            Some(entry) => match &entry.value {
                CacheValue::List(list) => list.len(),
                _ => 0,
            },
            None => 0,
        }
    }

    /// Returns the list item at `index` when present.
    pub fn list_index(&self, key: &str, index: usize, now: Moment) -> (item: Option<String>)
        ensures
            ({
                let list = list_in(live_value(self@, key@, now));
                match item {
                    Some(s) => index < list.len() && s@ == list[index as int],
                    None => index >= list.len(),
                }
            }),
    {
        match self.entry_ref(key, now) {
            Some(entry) => match &entry.value {
                CacheValue::List(list) => if index < list.len() {
                    Some(list[index].clone())
                } else {
                    None
                },
                _ => None,
            },
            None => None,
        }
    }

    /// Returns the inclusive `[start, end]` range from the cached list.
    pub fn list_range(&self, key: &str, start: usize, end: usize, now: Moment) -> (range: Vec<String>)
        ensures
            texts(range@) == inclusive_range(
                list_in(live_value(self@, key@, now)),
                start as nat,
                end as nat,
            ),
    {
        if let Some(entry) = self.entry_ref(key, now) {
            if let CacheValue::List(list) = &entry.value {
                return range_of(list, start, end);
            }
        }
        let range: Vec<String> = Vec::new();
        proof {
            assert(texts(range@) =~= Seq::<Seq<char>>::empty());
        }
        range
    }

    /// Adds a member to a cached set. Returns whether it was not there before.
    pub fn set_add(&mut self, key: &str, value: String, now: Moment) -> (added: bool)
        ensures
            added == !members_in(live_value(old(self)@, key@, now)).contains(value@),
            final(self)@ == grown(
                old(self)@,
                key@,
                now,
                ValueModel::Members(members_in(live_value(old(self)@, key@, now)).insert(value@)),
            ),
    {
        let ghost before = self@;
        let (held, expires_at) = self.take_parts(key, now);
        let kept = match &held {
            Some(CacheValue::Members(_)) => expires_at,
            _ => None,
        };
        let mut members = into_members(held);
        let added = members.insert(value);
        self.put_back(key, Some(CacheValue::Members(members)), kept);
        proof {
            assert(self@ =~= grown(
                before,
                key@,
                now,
                ValueModel::Members(members_in(live_value(before, key@, now)).insert(value@)),
            ));
        }
        added
    }

    /// Removes a member from a cached set. Returns whether it was there.
    pub fn set_remove(&mut self, key: &str, value: String, now: Moment) -> (removed: bool)
        ensures
            removed == members_in(live_value(old(self)@, key@, now)).contains(value@),
            final(self)@ == member_removed(old(self)@, key@, now, value@),
    {
        let ghost before = self@;
        let (held, expires_at) = self.take_parts(key, now);
        match held {
            Some(CacheValue::Members(mut members)) => {
                let ghost all = members@;
                let removed = members.remove(value.as_str());
                self.put_back(key, Some(CacheValue::Members(members)), expires_at);
                proof {
                    if !removed {
                        assert(all.remove(value@) =~= all);
                    }
                    assert(self@ =~= member_removed(before, key@, now, value@));
                }
                removed
            },
            other => {
                self.put_back(key, other, expires_at);
                proof {
                    assert(self@ =~= member_removed(before, key@, now, value@));
                }
                false
            },
        }
    }

    /// Returns whether `value` belongs to the cached set.
    pub fn set_is_member(&self, key: &str, value: &str, now: Moment) -> (yes: bool)
        ensures
            yes == members_in(live_value(self@, key@, now)).contains(value@),
    {
        match self.entry_ref(key, now) {
            Some(entry) => match &entry.value {
                CacheValue::Members(members) => members.contains(value),
                _ => false,
            },
            None => false,
        }
    }

    /// Returns all members of the cached set, sorted lexicographically.
    pub fn set_members(&self, key: &str, now: Moment) -> (members: Vec<String>)
        ensures
            lists_in_order(texts(members@), members_in(live_value(self@, key@, now))),
    {
        if let Some(entry) = self.entry_ref(key, now) {
            if let CacheValue::Members(members) = &entry.value {
                return members.to_vec();
            }
        }
        SortedSet::new().to_vec()
    }

    /// Returns one member from the cached set when available: the first one.
    pub fn set_random_member(&self, key: &str, now: Moment) -> (member: Option<String>)
        ensures
            is_first_of(member, members_in(live_value(self@, key@, now))),
    {
        if let Some(entry) = self.entry_ref(key, now) {
            if let CacheValue::Members(members) = &entry.value {
                return members.first();
            }
        }
        None
    }

    /// Returns members sorted lexicographically.
    pub fn set_sort(&self, key: &str, now: Moment) -> (members: Vec<String>)
        ensures
            lists_in_order(texts(members@), members_in(live_value(self@, key@, now))),
    {
        self.set_members(key, now)
    }

    /// Returns members sorted with additional provider-agnostic options.
    pub fn set_sort_with_options(&self, key: &str, options: &str, now: Moment) -> (members: Vec<String>)
        ensures
            exists|all: Seq<String>|
                lists_in_order(texts(all), members_in(live_value(self@, key@, now))) && members@
                    == #[trigger] with_options(all, options@),
    {
        let all = self.set_members(key, now);
        apply_sort_options(all, options)
    }

    /// Returns the set cardinality.
    pub fn set_card(&self, key: &str, now: Moment) -> (n: usize)
        ensures
            n == members_in(live_value(self@, key@, now)).len(),
    {
        if let Some(entry) = self.entry_ref(key, now) {
            if let CacheValue::Members(members) = &entry.value {
                return members.len();
            }
        }
        0
    }

    /// Returns the hash field value when present.
    pub fn hash_get(&self, key: &str, field: &str, now: Moment) -> (value: Option<String>)
        ensures
            ({
                let fields = fields_in(live_value(self@, key@, now));
                match value {
                    Some(s) => fields.contains_key(field@) && s@ == fields[field@],
                    None => !fields.contains_key(field@),
                }
            }),
    {
        if let Some(entry) = self.entry_ref(key, now) {
            if let CacheValue::Fields(fields) = &entry.value {
                return match fields.get(field) {
                    Some(s) => Some(s.clone()),
                    None => None,
                };
            }
        }
        None
    }

    /// Stores a hash field value.
    pub fn hash_set(&mut self, key: &str, field: &str, value: String, now: Moment)
        ensures
            final(self)@ == grown(
                old(self)@,
                key@,
                now,
                ValueModel::Fields(
                    fields_in(live_value(old(self)@, key@, now)).insert(field@, value@),
                ),
            ),
    {
        let ghost before = self@;
        let (held, expires_at) = self.take_parts(key, now);
        let kept = match &held {
            Some(CacheValue::Fields(_)) => expires_at,
            _ => None,
        };
        let mut fields = into_fields(held);
        fields.insert(field.to_owned(), value);
        self.put_back(key, Some(CacheValue::Fields(fields)), kept);
        proof {
            assert(self@ =~= grown(
                before,
                key@,
                now,
                ValueModel::Fields(
                    fields_in(live_value(before, key@, now)).insert(field@, value@),
                ),
            ));
        }
    }

    /// Deletes a hash field when present. Returns whether it was there.
    pub fn hash_delete(&mut self, key: &str, field: &str, now: Moment) -> (removed: bool)
        ensures
            removed == fields_in(live_value(old(self)@, key@, now)).contains_key(field@),
            final(self)@ == field_removed(old(self)@, key@, now, field@),
    {
        let ghost before = self@;
        let (held, expires_at) = self.take_parts(key, now);
        match held {
            Some(CacheValue::Fields(mut fields)) => {
                let ghost all = fields@;
                let removed = fields.remove(field).is_some();
                self.put_back(key, Some(CacheValue::Fields(fields)), expires_at);
                proof {
                    if !removed {
                        assert(all.remove(field@) =~= all);
                    }
                    assert(self@ =~= field_removed(before, key@, now, field@));
                }
                removed
            },
            other => {
                self.put_back(key, other, expires_at);
                proof {
                    assert(self@ =~= field_removed(before, key@, now, field@));
                }
                false
            },
        }
    }

    /// Returns whether a hash field exists.
    pub fn hash_exists(&self, key: &str, field: &str, now: Moment) -> (yes: bool)
        ensures
            yes == fields_in(live_value(self@, key@, now)).contains_key(field@),
    {
        self.hash_get(key, field, now).is_some()
    }

    /// The names of the hash fields as a set.
    fn field_set(&self, key: &str, now: Moment) -> (names: SortedSet)
        ensures
            names@ == fields_in(live_value(self@, key@, now)).dom(),
    {
        if let Some(entry) = self.entry_ref(key, now) {
            if let CacheValue::Fields(fields) = &entry.value {
                return field_names(fields);
            }
        }
        let names = SortedSet::new();
        proof {
            assert(names@ =~= Map::<Seq<char>, Seq<char>>::empty().dom());
        }
        names
    }

    /// Returns all hash field names, sorted lexicographically.
    pub fn hash_fields(&self, key: &str, now: Moment) -> (names: Vec<String>)
        ensures
            lists_in_order(texts(names@), fields_in(live_value(self@, key@, now)).dom()),
    {
        self.field_set(key, now).to_vec()
    }

    /// Returns one hash field name when present: the first one.
    pub fn hash_random_field(&self, key: &str, now: Moment) -> (name: Option<String>)
        ensures
            is_first_of(name, fields_in(live_value(self@, key@, now)).dom()),
    {
        self.field_set(key, now).first()
    }

    /// Returns the number of fields in the hash.
    pub fn hash_length(&self, key: &str, now: Moment) -> (n: usize)
        ensures
            n == fields_in(live_value(self@, key@, now)).dom().len(),
    {
        self.field_set(key, now).len()
    }

    /// Returns the keys that have not expired, sorted lexicographically.
    pub fn keys(&self, now: Moment) -> (keys: Vec<String>)
        ensures
            lists_in_order(texts(keys@), live_keys(self@, now)),
    {
        let mut found = SortedSet::new();
        let n = self.entries.len();
        let ghost order = self.entries.order();
        let mut i: usize = 0;
        while i < n
            invariant
                order == self.entries.order(),
                order.to_set() == self@.dom(),
                i <= n == order.len(),
                forall|k: Seq<char>| #[trigger]
                    found@.contains(k) <==> order.take(i as int).contains(k) && is_live(self@, k, now),
            decreases n - i,
        {
            proof {
                assert(order.to_set().contains(order[i as int]));
            }
            if !is_expired(self.entries.value_at(i), now) {
                found.insert(self.entries.key_at(i).clone());
            }
            i += 1;
            proof {
                let done = order.take(i as int);
                assert(done =~= order.take(i - 1).push(order[i - 1]));
                assert forall|k: Seq<char>|
                    done.contains(k) == (order.take(i - 1).contains(k) || k == order[i - 1]) by {
                    if order.take(i - 1).contains(k) {
                        let j = order.take(i - 1).index_of(k);
                        assert(done[j] == k);
                    }
                    assert(done[i - 1] == order[i - 1]);
                }
            }
        }
        proof {
            assert(order.take(n as int) =~= order);
            assert forall|k: Seq<char>| #[trigger] found@.contains(k) == live_keys(self@, now).contains(
                k,
            ) by {
                assert(order.to_set().contains(k) == order.contains(k));
            }
            assert(found@ =~= live_keys(self@, now));
        }
        found.to_vec()
    }

    /// Returns whether `key` exists and is not expired.
    pub fn key_exists(&self, key: &str, now: Moment) -> (yes: bool)
        ensures
            yes == is_live(self@, key@, now),
    {
        self.entry_ref(key, now).is_some()
    }

    /// Removes `key` and reports whether there was an entry of it.
    pub fn unlink(&mut self, key: &str) -> (removed: bool)
        ensures
            removed == old(self)@.contains_key(key@),
            final(self)@ == old(self)@.remove(key@),
    {
        self.entries.remove(key).is_some()
    }

    /// Updates the TTL of an existing key.
    pub fn expire(&mut self, key: &str, ttl: u64, now: Moment)
        ensures
            final(self)@ == expiring(old(self)@, key@, now, ttl),
    {
        let ghost before = self@;
        if let Some(mut entry) = self.take_live(key, now) {
            entry.expires_at = Some(now.deadline(ttl));
            self.entries.insert(key.to_owned(), entry);
            proof {
                assert(self@ =~= expiring(before, key@, now, ttl));
            }
        }
    }

    /// Deletes `key` without returning a status.
    pub fn delete(&mut self, key: &str)
        ensures
            final(self)@ == old(self)@.remove(key@),
    {
        self.entries.remove(key);
    }
}

} // verus!
