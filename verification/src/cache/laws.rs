//! What holds across the operations of the cache.

use crate::cache::in_memory::{
    counted, deadline, expiring, field_removed, grown, is_live, live_keys, live_value,
    member_removed, popped_left, popped_right, purged, stored, EntryModel,
};
use crate::cache::runtime::{is_reserved, reserved_key};
use crate::cache::value::{fields_in, list_in, members_in, text_in, ValueModel};
use crate::clock::Moment;
use crate::text::{signed_decimal, signed_decimal_reads_back};
use vstd::prelude::*;

verus! {

/// What was stored without a time to live is read back at any time.
pub proof fn stored_text_is_read_back(
    entries: Map<Seq<char>, EntryModel>,
    key: Seq<char>,
    value: Seq<char>,
    now: Moment,
)
    ensures
        text_in(live_value(stored(entries, key, value, None), key, now)) == Some(value),
{
}

/// What was stored with a time to live is read back until that time has passed,
/// and from then on it is gone: it is not listed and does not exist.
pub proof fn time_to_live_bounds_life(
    entries: Map<Seq<char>, EntryModel>,
    key: Seq<char>,
    value: Seq<char>,
    ttl: u64,
    then: Moment,
    now: Moment,
)
    ensures
        ({
            let after = stored(entries, key, value, deadline(then, ttl));
            let alive = now.ns() < then.ns() + ttl * 1_000_000_000;
            &&& is_live(after, key, now) == alive
            &&& live_keys(after, now).contains(key) == alive
            &&& text_in(live_value(after, key, now)) == (if alive {
                Some(value)
            } else {
                None
            })
        }),
{
}

/// A time to live of zero seconds hides an entry at once.
pub proof fn zero_time_to_live_hides_at_once(
    entries: Map<Seq<char>, EntryModel>,
    key: Seq<char>,
    now: Moment,
)
    ensures
        !is_live(expiring(entries, key, now, 0), key, now),
        forall|value: Seq<char>|
            !is_live(#[trigger] stored(entries, key, value, deadline(now, 0)), key, now),
{
}

/// What has expired stays expired: as time goes on, a key holds the value that it held
/// or none, and none after none, as long as nothing is stored under it.
pub proof fn expired_stays_expired(
    entries: Map<Seq<char>, EntryModel>,
    key: Seq<char>,
    earlier: Moment,
    later: Moment,
)
    requires
        earlier.ns() <= later.ns(),
    ensures
        !is_live(entries, key, earlier) ==> !is_live(entries, key, later),
        live_value(entries, key, later) is None || live_value(entries, key, later) == live_value(
            entries,
            key,
            earlier,
        ),
        live_keys(entries, later).subset_of(live_keys(entries, earlier)),
{
    assert forall|k: Seq<char>| live_keys(entries, later).contains(k) implies live_keys(
        entries,
        earlier,
    ).contains(k) by {}
}

/// No operation on one key touches the entry of another.
pub proof fn operations_keep_to_their_key(
    entries: Map<Seq<char>, EntryModel>,
    key: Seq<char>,
    other: Seq<char>,
    now: Moment,
    value: ValueModel,
    text: Seq<char>,
    expires_at: Option<u128>,
    ttl: u64,
)
    requires
        key != other,
    ensures
        live_value(stored(entries, key, text, expires_at), other, now) == live_value(
            entries,
            other,
            now,
        ),
        live_value(grown(entries, key, now, value), other, now) == live_value(entries, other, now),
        live_value(popped_left(entries, key, now), other, now) == live_value(entries, other, now),
        live_value(popped_right(entries, key, now), other, now) == live_value(entries, other, now),
        live_value(member_removed(entries, key, now, text), other, now) == live_value(
            entries,
            other,
            now,
        ),
        live_value(field_removed(entries, key, now, text), other, now) == live_value(
            entries,
            other,
            now,
        ),
        live_value(expiring(entries, key, now, ttl), other, now) == live_value(entries, other, now),
        live_value(entries.remove(key), other, now) == live_value(entries, other, now),
{
}

/// Taking from the end to which an item was just put gives that item back and
/// leaves the list as it was.
pub proof fn popping_undoes_pushing(
    entries: Map<Seq<char>, EntryModel>,
    key: Seq<char>,
    item: Seq<char>,
    now: Moment,
)
    ensures
        ({
            let list = list_in(live_value(entries, key, now));
            let appended = grown(entries, key, now, ValueModel::List(list.push(item)));
            let prepended = grown(entries, key, now, ValueModel::List(seq![item] + list));
            &&& list_in(live_value(appended, key, now)).last() == item
            &&& list_in(live_value(popped_right(appended, key, now), key, now)) == list
            &&& list_in(live_value(prepended, key, now))[0] == item
            &&& list_in(live_value(popped_left(prepended, key, now), key, now)) == list
        }),
{
    let list = list_in(live_value(entries, key, now));
    let appended = grown(entries, key, now, ValueModel::List(list.push(item)));
    let prepended = grown(entries, key, now, ValueModel::List(seq![item] + list));
    assert(is_live(appended, key, now));
    assert(is_live(prepended, key, now));
    assert(list.push(item).drop_last() =~= list);
    assert((seq![item] + list).drop_first() =~= list);
}

/// A member is in a set after it has been added, and not after it has been removed.
pub proof fn membership_follows_last_change(
    entries: Map<Seq<char>, EntryModel>,
    key: Seq<char>,
    member: Seq<char>,
    now: Moment,
)
    ensures
        ({
            let members = members_in(live_value(entries, key, now));
            let added = grown(entries, key, now, ValueModel::Members(members.insert(member)));
            let removed = member_removed(entries, key, now, member);
            &&& members_in(live_value(added, key, now)) == members.insert(member)
            &&& members_in(live_value(removed, key, now)) == members.remove(member)
        }),
{
    let members = members_in(live_value(entries, key, now));
    let added = grown(entries, key, now, ValueModel::Members(members.insert(member)));
    assert(is_live(added, key, now));
    if !members.contains(member) {
        assert(members.remove(member) =~= members);
    }
}

/// A hash field reads back what was last set, and nothing after it has been deleted.
pub proof fn field_follows_last_change(
    entries: Map<Seq<char>, EntryModel>,
    key: Seq<char>,
    field: Seq<char>,
    value: Seq<char>,
    now: Moment,
)
    ensures
        ({
            let fields = fields_in(live_value(entries, key, now));
            let set = grown(entries, key, now, ValueModel::Fields(fields.insert(field, value)));
            let deleted = field_removed(entries, key, now, field);
            &&& fields_in(live_value(set, key, now)) == fields.insert(field, value)
            &&& fields_in(live_value(deleted, key, now)) == fields.remove(field)
        }),
{
    let fields = fields_in(live_value(entries, key, now));
    let set = grown(entries, key, now, ValueModel::Fields(fields.insert(field, value)));
    assert(is_live(set, key, now));
    if !fields.contains_key(field) {
        assert(fields.remove(field) =~= fields);
    }
}

/// A counter counts: after an increment its count is the new one.
pub proof fn counter_counts(
    entries: Map<Seq<char>, EntryModel>,
    key: Seq<char>,
    delta: i64,
    then: Moment,
    now: Moment,
)
    requires
        i64::MIN <= counted(entries, key, then) + delta <= i64::MAX,
    ensures
        counted(
            stored(entries, key, signed_decimal(counted(entries, key, then) + delta), None),
            key,
            now,
        ) == counted(entries, key, then) + delta,
{
    signed_decimal_reads_back((counted(entries, key, then) + delta) as i64);
}

/// Purging what has expired changes nothing that can be seen.
pub proof fn purging_is_invisible(
    entries: Map<Seq<char>, EntryModel>,
    key: Seq<char>,
    other: Seq<char>,
    now: Moment,
)
    ensures
        live_value(purged(entries, key, now), other, now) == live_value(entries, other, now),
{
}

/// The keys of the gateway's own are reserved, so they are never listed among the
/// visible ones, and different keys stay different under the namespace.
pub proof fn own_keys_are_reserved(namespace: Seq<char>, key: Seq<char>, other: Seq<char>)
    ensures
        is_reserved(namespace, reserved_key(namespace, key)),
        reserved_key(namespace, key) == reserved_key(namespace, other) ==> key == other,
{
    let prefix = namespace + ":"@;
    let a = reserved_key(namespace, key);
    let b = reserved_key(namespace, other);
    assert(a =~= prefix + key);
    assert(b =~= prefix + other);
    assert(a.subrange(0, prefix.len() as int) =~= prefix);
    assert(a.skip(prefix.len() as int) =~= key);
    assert(b.skip(prefix.len() as int) =~= other);
}

/// An operation on a key that is not reserved leaves the gateway's own entries as
/// they were.
pub proof fn user_keys_never_collide(
    entries: Map<Seq<char>, EntryModel>,
    namespace: Seq<char>,
    user_key: Seq<char>,
    own_key: Seq<char>,
    value: Seq<char>,
    expires_at: Option<u128>,
    now: Moment,
)
    requires
        !is_reserved(namespace, user_key),
    ensures
        user_key != reserved_key(namespace, own_key),
        live_value(
            stored(entries, user_key, value, expires_at),
            reserved_key(namespace, own_key),
            now,
        ) == live_value(entries, reserved_key(namespace, own_key), now),
{
    own_keys_are_reserved(namespace, own_key, own_key);
}

} // verus!
