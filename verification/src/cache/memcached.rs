//! The rules of the Memcached-backed cache.
//!
//! A memcached server holds one serialised entry per key, and the index of all
//! keys under a key of its own. What to write for each operation, given the
//! entry that was read and the time, is decided here.

use crate::cache::value::{
    fields_in, into_fields, into_list, into_members, list_in, members_in, value_view, CacheValue,
    ValueModel,
};
use crate::sorted::SortedSet;
use crate::text::{
    chars_of, find_from, find_part, format_signed, parse_signed, part_position, position_from,
    position_from_is_first, same_text, signed_decimal, signed_in, string_of, texts,
};

use vstd::prelude::*;

verus! {

/// The key under which the index of all keys is kept.
pub fn key_index() -> (key: &'static str)
    ensures
        key@ == "__basilisk_cache_keys__"@,
{
    "__basilisk_cache_keys__"
}

/// A value and the Unix time in milliseconds from which on it has expired.
pub struct StoredEntry {
    pub value: CacheValue,
    pub expires_at_unix_ms: Option<u128>,
}

/// The view of the value of an entry that may be missing.
pub open spec fn stored_value(entry: Option<StoredEntry>) -> Option<ValueModel> {
    match entry {
        Some(e) => Some(e.value@),
        None => None,
    }
}

/// Whether a deadline has passed.
pub open spec fn has_passed(expires_at: Option<u128>, now_ms: u128) -> bool {
    expires_at matches Some(at) && now_ms >= at
}

/// Whether an entry has expired.
pub fn is_expired(expires_at: Option<u128>, now_ms: u128) -> (yes: bool)
    ensures
        yes == has_passed(expires_at, now_ms),
{
    match expires_at {
        Some(at) => now_ms >= at,
        None => false,
    }
}

/// The whole seconds, rounded up, from `now_ms` to a later time. The distance
/// counts modulo 2^64 milliseconds.
pub open spec fn seconds_left(at: u128, now_ms: u128) -> int {
    ((at - now_ms) % 0x1_0000_0000_0000_0000 + 999) / 1000
}

fn remaining_seconds(at: u128, now_ms: u128) -> (seconds: u64)
    requires
        at > now_ms,
    ensures
        seconds == seconds_left(at, now_ms),
{
    let distance: u128 = (at - now_ms) % 0x1_0000_0000_0000_0000;
    ((distance + 999) / 1000) as u64
}

/// The time to live that is handed to the server with an entry: 0 for no
/// expiration, else at least 1, modulo 2^32 seconds.
pub fn ttl_for_entry(expires_at: Option<u128>, now_ms: u128) -> (ttl: u32)
    ensures
        match expires_at {
            None => ttl == 0,
            Some(at) => if at <= now_ms {
                ttl == 1
            } else {
                let left = seconds_left(at, now_ms);
                ttl == (if left < 1 { 1 } else { left }) % 0x1_0000_0000
            },
        },
{
    match expires_at {
        None => 0,
        Some(at) => {
            if at <= now_ms {
                1
            } else {
                let left: u64 = remaining_seconds(at, now_ms);
                let whole: u64 = if left < 1 {
                    1
                } else {
                    left
                };
                (whole % 0x1_0000_0000) as u32
            }
        },
    }
}

/// The seconds that an entry has left to live.
pub open spec fn ttl_left(expires_at: Option<u128>, now_ms: u128) -> Option<u64> {
    match expires_at {
        None => None,
        Some(at) => if at <= now_ms {
            Some(0)
        } else {
            Some(seconds_left(at, now_ms) as u64)
        },
    }
}

/// The seconds that an entry has left to live.
pub fn current_ttl(expires_at: Option<u128>, now_ms: u128) -> (ttl: Option<u64>)
    ensures
        ttl == ttl_left(expires_at, now_ms),
{
    match expires_at {
        None => None,
        Some(at) => {
            if at <= now_ms {
                Some(0)
            } else {
                Some(remaining_seconds(at, now_ms))
            }
        },
    }
}

/// The latest time at which a deadline can be set without leaving `u128`.
pub open spec fn in_time(now_ms: u128) -> bool {
    now_ms <= u128::MAX - u64::MAX * 1000
}

/// The deadline of a value that is written with a time to live.
pub open spec fn deadline_of(ttl: Option<u64>, now_ms: u128) -> Option<u128> {
    match ttl {
        Some(seconds) => Some((now_ms + seconds * 1000) as u128),
        None => None,
    }
}

/// The deadline of a value that is written with a time to live.
pub fn expiry_after(ttl: Option<u64>, now_ms: u128) -> (expires_at: Option<u128>)
    requires
        in_time(now_ms),
    ensures
        expires_at == deadline_of(ttl, now_ms),
{
    match ttl {
        Some(seconds) => Some(now_ms + seconds as u128 * 1000),
        None => None,
    }
}

/// The deadline of a value that is written in place of an entry: the time that
/// the entry has left, in whole seconds.
pub open spec fn kept_deadline(entry: Option<StoredEntry>, now_ms: u128) -> Option<u128> {
    match entry {
        Some(e) => deadline_of(ttl_left(e.expires_at_unix_ms, now_ms), now_ms),
        None => None,
    }
}

fn kept_expiry(entry: &Option<StoredEntry>, now_ms: u128) -> (expires_at: Option<u128>)
    requires
        in_time(now_ms),
    ensures
        expires_at == kept_deadline(*entry, now_ms),
{
    match entry {
        Some(e) => expiry_after(current_ttl(e.expires_at_unix_ms, now_ms), now_ms),
        None => None,
    }
}

fn value_of(entry: Option<StoredEntry>) -> (value: Option<CacheValue>)
    ensures
        value_view(value) == stored_value(entry),
{
    match entry {
        Some(e) => Some(e.value),
        None => None,
    }
}

/// The entry of a value with a time to live.
pub fn entry_for(value: CacheValue, ttl: Option<u64>, now_ms: u128) -> (entry: StoredEntry)
    requires
        in_time(now_ms),
    ensures
        entry.value == value,
        entry.expires_at_unix_ms == deadline_of(ttl, now_ms),
{
    StoredEntry { value, expires_at_unix_ms: expiry_after(ttl, now_ms) }
}

/// The number that an entry counts: what its string writes, else 0.
pub open spec fn count_in(entry: Option<StoredEntry>) -> int {
    match stored_value(entry) {
        Some(ValueModel::Text(s)) => match signed_in(s) {
            Some(n) => n,
            None => 0,
        },
        _ => 0,
    }
}

/// What to write for an increment, and the new count. The time to live is kept.
pub fn incremented(entry: Option<StoredEntry>, delta: i64, now_ms: u128) -> (step: (StoredEntry, i64))
    requires
        in_time(now_ms),
        i64::MIN <= count_in(entry) + delta <= i64::MAX,
    ensures
        step.1 == count_in(entry) + delta,
        step.0.value@ == ValueModel::Text(signed_decimal(step.1 as int)),
        step.0.expires_at_unix_ms == kept_deadline(entry, now_ms),
{
    let expires_at_unix_ms = kept_expiry(&entry, now_ms);
    let current: i64 = match &entry {
        Some(e) => match &e.value {
            CacheValue::Text(s) => match parse_signed(s.as_str()) {
                Some(n) => n,
                None => 0,
            },
            _ => 0,
        },
        None => 0,
    };
    let next: i64 = current + delta;
    (StoredEntry { value: CacheValue::Text(format_signed(next)), expires_at_unix_ms }, next)
}

/// What to write for an item at the tail of a list.
pub fn list_appended(entry: Option<StoredEntry>, item: String, now_ms: u128) -> (next: StoredEntry)
    requires
        in_time(now_ms),
    ensures
        next.value@ == ValueModel::List(list_in(stored_value(entry)).push(item@)),
        next.expires_at_unix_ms == kept_deadline(entry, now_ms),
{
    let expires_at_unix_ms = kept_expiry(&entry, now_ms);
    let mut list = into_list(value_of(entry));
    let ghost items = list@;
    list.push_back(item);
    proof {
        assert(texts(list@) =~= texts(items).push(item@));
    }
    StoredEntry { value: CacheValue::List(list), expires_at_unix_ms }
}

/// What to write for an item at the head of a list.
pub fn list_prepended(entry: Option<StoredEntry>, item: String, now_ms: u128) -> (next: StoredEntry)
    requires
        in_time(now_ms),
    ensures
        next.value@ == ValueModel::List(seq![item@] + list_in(stored_value(entry))),
        next.expires_at_unix_ms == kept_deadline(entry, now_ms),
{
    let expires_at_unix_ms = kept_expiry(&entry, now_ms);
    let mut list = into_list(value_of(entry));
    let ghost items = list@;
    list.push_front(item);
    proof {
        assert(texts(list@) =~= seq![item@] + texts(items));
    }
    StoredEntry { value: CacheValue::List(list), expires_at_unix_ms }
}

/// What to write, if anything, when an end of a list is taken, and the item.
/// `front` tells which end. Nothing is written for what is not a list.
pub fn list_popped(entry: Option<StoredEntry>, front: bool, now_ms: u128) -> (step: (
    Option<StoredEntry>,
    Option<String>,
))
    requires
        in_time(now_ms),
    ensures
        match stored_value(entry) {
            Some(ValueModel::List(list)) => step.0 is Some && step.0->0.expires_at_unix_ms
                == kept_deadline(entry, now_ms) && (if list.len() == 0 {
                step.1 is None && step.0->0.value@ == ValueModel::List(list)
            } else if front {
                step.1 is Some && step.1->0@ == list[0] && step.0->0.value@ == ValueModel::List(
                    list.drop_first(),
                )
            } else {
                step.1 is Some && step.1->0@ == list.last() && step.0->0.value@ == ValueModel::List(
                    list.drop_last(),
                )
            }),
            _ => step.0 is None && step.1 is None,
        },
{
    let expires_at_unix_ms = kept_expiry(&entry, now_ms);
    match value_of(entry) {
        Some(CacheValue::List(mut list)) => {
            let ghost items = list@;
            let item = if front {
                list.pop_front()
            } else {
                list.pop_back()
            };
            proof {
                if items.len() > 0 {
                    assert(texts(items)[0] == items[0]@);
                    assert(texts(items).last() == items.last()@);
                    if front {
                        assert(texts(list@) =~= texts(items).drop_first());
                    } else {
                        assert(texts(list@) =~= texts(items).drop_last());
                    }
                } else {
                    assert(texts(list@) =~= texts(items));
                }
            }
            (Some(StoredEntry { value: CacheValue::List(list), expires_at_unix_ms }), item)
        },
        _ => (None, None),
    }
}

/// What to write for a new member of a set, and whether it was not there before.
pub fn member_added(entry: Option<StoredEntry>, member: String, now_ms: u128) -> (step: (
    StoredEntry,
    bool,
))
    requires
        in_time(now_ms),
    ensures
        step.1 == !members_in(stored_value(entry)).contains(member@),
        step.0.value@ == ValueModel::Members(members_in(stored_value(entry)).insert(member@)),
        step.0.expires_at_unix_ms == kept_deadline(entry, now_ms),
{
    let expires_at_unix_ms = kept_expiry(&entry, now_ms);
    let mut members = into_members(value_of(entry));
    let added = members.insert(member);
    (StoredEntry { value: CacheValue::Members(members), expires_at_unix_ms }, added)
}

/// What to write, if anything, when a member leaves a set, and whether it was there.
pub fn member_removed(entry: Option<StoredEntry>, member: &str, now_ms: u128) -> (step: (
    Option<StoredEntry>,
    bool,
))
    requires
        in_time(now_ms),
    ensures
        step.1 == members_in(stored_value(entry)).contains(member@),
        match stored_value(entry) {
            Some(ValueModel::Members(members)) => step.0 is Some && step.0->0.value@
                == ValueModel::Members(members.remove(member@)) && step.0->0.expires_at_unix_ms
                == kept_deadline(entry, now_ms),
            _ => step.0 is None,
        },
{
    let expires_at_unix_ms = kept_expiry(&entry, now_ms);
    match value_of(entry) {
        Some(CacheValue::Members(mut members)) => {
            let removed = members.remove(member);
            (Some(StoredEntry { value: CacheValue::Members(members), expires_at_unix_ms }), removed)
        },
        _ => (None, false),
    }
}

/// What to write for a field of a hash.
pub fn field_set(entry: Option<StoredEntry>, field: &str, value: String, now_ms: u128) -> (next:
    StoredEntry)
    requires
        in_time(now_ms),
    ensures
        next.value@ == ValueModel::Fields(fields_in(stored_value(entry)).insert(field@, value@)),
        next.expires_at_unix_ms == kept_deadline(entry, now_ms),
{
    let expires_at_unix_ms = kept_expiry(&entry, now_ms);
    let mut fields = into_fields(value_of(entry));
    fields.insert(field.to_owned(), value);
    StoredEntry { value: CacheValue::Fields(fields), expires_at_unix_ms }
}

/// What to write, if anything, when a field leaves a hash, and whether it was there.
pub fn field_removed(entry: Option<StoredEntry>, field: &str, now_ms: u128) -> (step: (
    Option<StoredEntry>,
    bool,
))
    requires
        in_time(now_ms),
    ensures
        step.1 == fields_in(stored_value(entry)).contains_key(field@),
        match stored_value(entry) {
            Some(ValueModel::Fields(fields)) => step.0 is Some && step.0->0.value@
                == ValueModel::Fields(fields.remove(field@)) && step.0->0.expires_at_unix_ms
                == kept_deadline(entry, now_ms),
            _ => step.0 is None,
        },
{
    let expires_at_unix_ms = kept_expiry(&entry, now_ms);
    match value_of(entry) {
        Some(CacheValue::Fields(mut fields)) => {
            let removed = fields.remove(field).is_some();
            (Some(StoredEntry { value: CacheValue::Fields(fields), expires_at_unix_ms }), removed)
        },
        _ => (None, false),
    }
}

/// Notes a key in the index. Returns whether the index is to be written; the key
/// of the index itself is never noted.
pub fn track_key(index: &mut SortedSet, key: &str) -> (write: bool)
    ensures
        write == (key@ != "__basilisk_cache_keys__"@),
        final(index)@ == (if write {
            old(index)@.insert(key@)
        } else {
            old(index)@
        }),
{
    if same_text(key, key_index()) {
        return false;
    }
    index.insert(key.to_owned());
    true
}

/// Takes a key out of the index. Returns whether the index is to be written.
pub fn untrack_key(index: &mut SortedSet, key: &str) -> (write: bool)
    ensures
        write == old(index)@.contains(key@),
        final(index)@ == old(index)@.remove(key@),
{
    index.remove(key)
}

/// The address part of a server URL: what stands between `://` and the next
/// `://` or `/`.
pub open spec fn address_in(url: Seq<char>) -> Option<Seq<char>> {
    match part_position(url, "://"@, 0) {
        None => None,
        Some(at) => {
            let rest = url.skip(at + 3);
            let piece = match part_position(rest, "://"@, 0) {
                Some(end) => rest.take(end),
                None => rest,
            };
            Some(piece.take(position_from(piece, '/', 0)))
        },
    }
}

/// The `host:port` of a server URL.
pub fn memcached_address(url: &str) -> (address: Option<String>)
    ensures
        match address {
            Some(a) => address_in(url@) == Some(a@),
            None => address_in(url@) is None,
        },
{
    let chars = chars_of(url);
    let mark = chars_of("://");
    proof {
        reveal_strlit("://");
        assert(mark@.len() == 3);
    }
    match find_part(&chars, &mark, 0) {
        None => None,
        Some(at) => {
            let n: usize = chars.len();
            let rest = chars_of(string_of(&chars, at + 3, n).as_str());
            proof {
                assert(rest@ =~= url@.skip(at + 3));
            }
            let end: usize = match find_part(&rest, &mark, 0) {
                Some(end) => end,
                None => rest.len(),
            };
            let piece = chars_of(string_of(&rest, 0, end).as_str());
            let ghost expected = match part_position(rest@, "://"@, 0) {
                Some(e) => rest@.take(e),
                None => rest@,
            };
            proof {
                assert(piece@ =~= expected);
                position_from_is_first(piece@, '/', 0);
            }
            let to: usize = match find_from(&piece, '/', 0) {
                Some(i) => i,
                None => piece.len(),
            };
            let address = string_of(&piece, 0, to);
            proof {
                assert(address@ =~= piece@.take(position_from(piece@, '/', 0)));
            }
            Some(address)
        },
    }
}

} // verus!
