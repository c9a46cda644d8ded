//! What holds of listings, deadlines and names in the caches.

use crate::cache::base::{
    limit_place, provider_named, window, with_options, CacheProviderKind,
};
use crate::cache::in_memory::{
    counted, expiring, field_removed, grown, is_first_of, is_live, live_value, member_removed,
    popped_left, popped_right, stored, EntryModel,
};
use crate::cache::memcached::{
    address_in, count_in, deadline_of, has_passed, in_time, kept_deadline, ttl_left, StoredEntry,
};
use crate::cache::runtime::{is_reserved, normalized, reserved_key};
use crate::cache::value::{
    fields_in, inclusive_range, list_in, members_in, text_in, CacheValue, ValueModel,
};
use crate::clock::Moment;
use crate::sorted::{precedes, precedes_is_irreflexive, precedes_is_transitive, SortedSet};
use crate::string_map::StringMap;
use crate::text::{
    ascii_lowered, ascii_raised, decimal, decimal_reads_back, is_space, occurs, part_position,
    part_position_is_first, position_from, position_from_is_first, stands_at, stripped, stripped_end,
    stripped_start, trimmed, words,
};
use crate::text_laws::{
    blank_is_white_space, signed_numbers_are_read, trimming_keeps_the_rest,
    unsigned_numbers_are_read, words_are_parted_by_white_space,
};
use std::collections::VecDeque;
use vstd::prelude::*;

verus! {

/// A window of a list has the items from the offset on, as many as were asked for or as
/// there are.
pub proof fn windows_show_a_part<A>(list: Seq<A>, offset: nat, count: nat, i: int)
    ensures
        offset <= list.len() && count <= list.len() - offset ==> window(list, offset, count).len()
            == count,
        offset <= list.len() && count > list.len() - offset ==> window(list, offset, count).len()
            == list.len() - offset,
        offset > list.len() ==> window(list, offset, count).len() == 0,
        0 <= i < window(list, offset, count).len() ==> window(list, offset, count)[i]
            == list[offset + i],
{
}

proof fn no_descending(s: Seq<char>)
    requires
        forall|i: int| 0 <= i < s.len() ==> #[trigger] s[i] != 'D' && s[i] != 'd',
    ensures
        !occurs(ascii_raised(s), "DESC"@),
{
    reveal_strlit("DESC");
    let raised = ascii_raised(s);
    if occurs(raised, "DESC"@) {
        let at = choose|at: int| #[trigger] stands_at(raised, "DESC"@, at);
        assert(raised.subrange(at, at + 4)[0] == raised[at]);
        assert(raised[at] == 'D');
        assert(s[at] != 'D' && s[at] != 'd');
    }
}

/// Without options a listing is shown as it is; `DESC`, in small or capital letters,
/// turns it around.
pub proof fn descending_listings_are_turned_around<A>(list: Seq<A>)
    ensures
        with_options(list, Seq::empty()) == list,
        with_options(list, "DESC"@) == list.reverse(),
        with_options(list, "desc"@) == list.reverse(),
{
    let none = Seq::<char>::empty();
    no_descending(none);
    words_are_parted_by_white_space(none, ' ', none);
    assert(words(none).len() == 0);
    reveal_strlit("DESC");
    reveal_strlit("desc");
    reveal_strlit("LIMIT");
    words_are_parted_by_white_space("DESC"@, ' ', none);
    words_are_parted_by_white_space("desc"@, ' ', none);
    let big = ascii_raised("DESC"@);
    let small = ascii_raised("desc"@);
    assert(big =~= "DESC"@);
    assert(small =~= "DESC"@);
    assert(big.subrange(0, 4) =~= "DESC"@);
    assert(small.subrange(0, 4) =~= "DESC"@);
    assert(stands_at(big, "DESC"@, 0));
    assert(stands_at(small, "DESC"@, 0));
    assert(ascii_lowered("DESC"@).len() == 4);
    assert(ascii_lowered("desc"@).len() == 4);
    assert(ascii_lowered("LIMIT"@).len() == 5);
    let one = words("DESC"@);
    let other = words("desc"@);
    assert(one == seq!["DESC"@]);
    assert(other == seq!["desc"@]);
    assert(limit_place(one, 1) == 1);
    assert(limit_place(one, 0) == 1);
    assert(limit_place(other, 1) == 1);
    assert(limit_place(other, 0) == 1);
    assert(limit_place(words(none), 0) == 0);
}

/// `LIMIT offset count` shows that window of a listing; with `DESC` before it, of the
/// listing turned around.
pub proof fn limited_listings_are_windows<A>(list: Seq<A>, offset: usize, count: usize)
    ensures
        ({
            let limit = "LIMIT"@.push(' ') + (decimal(offset as nat).push(' ') + decimal(
                count as nat,
            ));
            &&& with_options(list, limit) == window(list, offset as nat, count as nat)
            &&& with_options(list, "DESC"@.push(' ') + limit) == window(
                list.reverse(),
                offset as nat,
                count as nat,
            )
        }),
{
    let o = decimal(offset as nat);
    let c = decimal(count as nat);
    let numbers = o.push(' ') + c;
    let limit = "LIMIT"@.push(' ') + numbers;
    let desc = "DESC"@.push(' ') + limit;
    decimal_reads_back(offset as nat);
    decimal_reads_back(count as nat);
    reveal_strlit("LIMIT");
    reveal_strlit("DESC");
    assert forall|i: int| 0 <= i < o.len() implies !is_space(#[trigger] o[i]) by {
        assert('0' <= o[i] <= '9');
    }
    assert forall|i: int| 0 <= i < c.len() implies !is_space(#[trigger] c[i]) by {
        assert('0' <= c[i] <= '9');
    }
    words_are_parted_by_white_space(o, ' ', c);
    words_are_parted_by_white_space(c, ' ', c);
    words_are_parted_by_white_space("LIMIT"@, ' ', numbers);
    words_are_parted_by_white_space("DESC"@, ' ', limit);
    assert(words(limit) =~= seq!["LIMIT"@, o, c]);
    assert(words(desc) =~= seq!["DESC"@, "LIMIT"@, o, c]);
    assert(ascii_lowered("DESC"@).len() == 4);
    assert(ascii_lowered("LIMIT"@).len() == 5);
    assert(limit_place(words(limit), 0) == 0);
    assert(limit_place(words(desc), 1) == 1);
    assert(limit_place(words(desc), 0) == 1);
    unsigned_numbers_are_read(offset as nat, usize::MAX as nat, o, 0);
    unsigned_numbers_are_read(count as nat, usize::MAX as nat, c, 0);
    assert forall|i: int| 0 <= i < limit.len() implies #[trigger] limit[i] != 'D' && limit[i] != 'd' by {
        if 6 <= i < 6 + o.len() {
            assert(limit[i] == o[i - 6]);
        } else if i > 6 + o.len() {
            assert(limit[i] == c[i - 7 - o.len()]);
        }
    }
    no_descending(limit);
    let raised = ascii_raised(desc);
    assert(raised.subrange(0, 4) =~= "DESC"@);
    assert(stands_at(raised, "DESC"@, 0));
}

/// An inclusive range of a list has the items from the first to the last place asked
/// for, as far as the list goes.
pub proof fn ranges_hold_both_ends(list: Seq<Seq<char>>, start: nat, end: nat, i: int)
    ensures
        start <= end < list.len() ==> inclusive_range(list, start, end).len() == end - start + 1,
        start < list.len() <= end ==> inclusive_range(list, start, end).len() == list.len() - start,
        start > end || start >= list.len() ==> inclusive_range(list, start, end).len() == 0,
        0 <= i < inclusive_range(list, start, end).len() ==> inclusive_range(list, start, end)[i]
            == list[start + i],
{
}

/// The three provider names stand for one provider each.
pub proof fn providers_have_one_name_each(name: Seq<char>)
    ensures
        provider_named(name) == Some(CacheProviderKind::Memory) <==> name == "memory"@,
        provider_named(name) == Some(CacheProviderKind::Redis) <==> name == "redis"@,
        provider_named(name) == Some(CacheProviderKind::Memcached) <==> name == "memcached"@,
{
    reveal_strlit("memory");
    reveal_strlit("redis");
    reveal_strlit("memcached");
    assert("memory"@.len() == 6);
    assert("redis"@.len() == 5);
    assert("memcached"@.len() == 9);
}

/// A live value that grows, in its kind, or shrinks keeps its deadline: it lives exactly
/// as long as it would have. Where there was none, or one of another kind, what takes
/// its place lives on.
pub proof fn changes_keep_the_deadline(
    entries: Map<Seq<char>, EntryModel>,
    key: Seq<char>,
    item: Seq<char>,
    list: Seq<Seq<char>>,
    members: Set<Seq<char>>,
    fields: Map<Seq<char>, Seq<char>>,
    then: Moment,
    now: Moment,
)
    requires
        then.ns() <= now.ns(),
    ensures
        ({
            let pushed = grown(entries, key, then, ValueModel::List(list));
            let alive = is_live(entries, key, then);
            &&& alive && entries[key].value is List ==> is_live(pushed, key, now) == is_live(
                entries,
                key,
                now,
            )
            &&& alive && !(entries[key].value is List) ==> is_live(pushed, key, now)
            &&& !alive ==> is_live(pushed, key, now)
        }),
        ({
            let added = grown(entries, key, then, ValueModel::Members(members));
            let set = grown(entries, key, then, ValueModel::Fields(fields));
            let alive = is_live(entries, key, then);
            &&& is_live(added, key, now) == (if alive && entries[key].value is Members {
                is_live(entries, key, now)
            } else {
                true
            })
            &&& is_live(set, key, now) == (if alive && entries[key].value is Fields {
                is_live(entries, key, now)
            } else {
                true
            })
        }),
        ({
            let alive = is_live(entries, key, then);
            &&& alive ==> is_live(popped_left(entries, key, then), key, now) == is_live(
                entries,
                key,
                now,
            )
            &&& alive ==> is_live(popped_right(entries, key, then), key, now) == is_live(
                entries,
                key,
                now,
            )
            &&& alive ==> is_live(member_removed(entries, key, then, item), key, now) == is_live(
                entries,
                key,
                now,
            )
            &&& alive ==> is_live(field_removed(entries, key, then, item), key, now) == is_live(
                entries,
                key,
                now,
            )
            &&& !alive ==> !is_live(popped_left(entries, key, then), key, now)
        }),
{
}

/// A key that is given a time to live keeps its value until that time has passed, and
/// loses it then; a key without a value gets none.
pub proof fn expiry_is_counted_from_now(
    entries: Map<Seq<char>, EntryModel>,
    key: Seq<char>,
    ttl: u64,
    then: Moment,
    now: Moment,
)
    ensures
        ({
            let after = expiring(entries, key, then, ttl);
            let alive = now.ns() < then.ns() + ttl * 1_000_000_000;
            &&& is_live(entries, key, then) ==> live_value(after, key, now) == (if alive {
                live_value(entries, key, then)
            } else {
                None
            })
            &&& !is_live(entries, key, then) ==> live_value(after, key, now) is None
        }),
{
}

/// What is taken from a list is its first or its last item, and the others stay in
/// order; nothing is taken from an empty one.
pub proof fn pops_take_one_end(
    entries: Map<Seq<char>, EntryModel>,
    key: Seq<char>,
    now: Moment,
    i: int,
)
    ensures
        ({
            let list = list_in(live_value(entries, key, now));
            let left = list_in(live_value(popped_left(entries, key, now), key, now));
            let right = list_in(live_value(popped_right(entries, key, now), key, now));
            &&& list.len() > 0 ==> left.len() == list.len() - 1 && right.len() == list.len() - 1
            &&& list.len() == 0 ==> left.len() == 0 && right.len() == 0
            &&& 0 <= i < left.len() ==> left[i] == list[i + 1]
            &&& 0 <= i < right.len() ==> right[i] == list[i]
        }),
{
}

/// A value is read only as what it is: each kind gives nothing where another is asked
/// for.
pub proof fn values_are_read_as_their_kind(
    text: Seq<char>,
    list: Seq<Seq<char>>,
    members: Set<Seq<char>>,
    fields: Map<Seq<char>, Seq<char>>,
)
    ensures
        text_in(Some(ValueModel::Text(text))) == Some(text),
        list_in(Some(ValueModel::List(list))) == list,
        members_in(Some(ValueModel::Members(members))) == members,
        fields_in(Some(ValueModel::Fields(fields))) == fields,
        text_in(Some(ValueModel::List(list))) is None,
        text_in(Some(ValueModel::Members(members))) is None,
        text_in(Some(ValueModel::Fields(fields))) is None,
        text_in(None) is None,
        list_in(Some(ValueModel::Text(text))).len() == 0,
        list_in(None).len() == 0,
        members_in(Some(ValueModel::Text(text))) == Set::<Seq<char>>::empty(),
        members_in(None) == Set::<Seq<char>>::empty(),
        fields_in(Some(ValueModel::Text(text))) == Map::<Seq<char>, Seq<char>>::empty(),
        fields_in(None) == Map::<Seq<char>, Seq<char>>::empty(),
{
}

/// The count of a key is the number that its string writes; 0 where there is none, or
/// none that is a number.
pub proof fn counts_start_at_zero(
    entries: Map<Seq<char>, EntryModel>,
    key: Seq<char>,
    n: u32,
    now: Moment,
)
    ensures
        !is_live(entries, key, now) ==> counted(entries, key, now) == 0,
        counted(stored(entries, key, decimal(n as nat), None), key, now) == n,
        counted(stored(entries, key, seq!['-'] + decimal(n as nat), None), key, now) == -(n as int),
        counted(stored(entries, key, Seq::empty(), None), key, now) == 0,
{
    signed_numbers_are_read(n as nat, Seq::empty(), 0);
}

/// The seconds that an entry has left are the smallest whole number that is not less
/// than the time to its deadline; none after it, and no number without one.
pub proof fn time_left_is_rounded_up(at: u128, now_ms: u128)
    requires
        at < now_ms + 0x1_0000_0000_0000_0000,
    ensures
        ttl_left(None, now_ms) is None,
        at <= now_ms ==> ttl_left(Some(at), now_ms) == Some(0u64) && has_passed(Some(at), now_ms),
        at > now_ms ==> !has_passed(Some(at), now_ms) && ttl_left(Some(at), now_ms) is Some && at
            - now_ms <= (ttl_left(Some(at), now_ms)->0) * 1000 && (ttl_left(Some(at), now_ms)->0)
            * 1000 < at - now_ms + 1000,
        !has_passed(None, now_ms),
{
}

/// A deadline lies the given number of seconds ahead, and that number is what is left of
/// it at first.
pub proof fn deadlines_lie_ahead(seconds: u64, now_ms: u128)
    requires
        in_time(now_ms),
    ensures
        deadline_of(None, now_ms) is None,
        deadline_of(Some(seconds), now_ms) is Some,
        (deadline_of(Some(seconds), now_ms)->0) - now_ms == seconds * 1000,
        seconds * 1000 < 0x1_0000_0000_0000_0000 ==> ttl_left(
            deadline_of(Some(seconds), now_ms),
            now_ms,
        ) == Some(seconds),
{
    assert(seconds * 1000 <= u64::MAX * 1000);
}

/// Writing a value in place of an entry makes it live as long as the entry would have,
/// or up to a second longer.
pub proof fn rewriting_keeps_the_time_left(entry: StoredEntry, now_ms: u128)
    requires
        in_time(now_ms),
        entry.expires_at_unix_ms matches Some(at) ==> now_ms < at < now_ms + 0x1_0000_0000_0000_0000,
    ensures
        kept_deadline(None, now_ms) is None,
        entry.expires_at_unix_ms is None <==> kept_deadline(Some(entry), now_ms) is None,
        entry.expires_at_unix_ms matches Some(at) ==> at <= (kept_deadline(Some(entry), now_ms)->0)
            < at + 1000,
{
    if let Some(at) = entry.expires_at_unix_ms {
        time_left_is_rounded_up(at, now_ms);
        let left = ttl_left(Some(at), now_ms)->0;
        deadlines_lie_ahead(left, now_ms);
    }
}

/// A stored counter counts what its string writes, and 0 where it writes no number.
pub proof fn stored_counts_are_read(entry: StoredEntry, n: u32)
    ensures
        count_in(None) == 0,
        entry.value@ == ValueModel::Text(decimal(n as nat)) ==> count_in(Some(entry)) == n,
        entry.value@ == ValueModel::Text(seq!['-'] + decimal(n as nat)) ==> count_in(Some(entry))
            == -(n as int),
        entry.value@ is List ==> count_in(Some(entry)) == 0,
{
    signed_numbers_are_read(n as nat, Seq::empty(), 0);
}

/// The address of a server stands between the scheme and the next slash of its URL; a
/// URL without a scheme has none.
pub proof fn addresses_follow_the_scheme(scheme: Seq<char>, address: Seq<char>, path: Seq<char>)
    requires
        !scheme.contains(':'),
        !address.contains('/'),
        !path.contains(':'),
        address.len() > 0 ==> address.last() != ':',
    ensures
        address_in(scheme + "://"@ + address) == Some(address),
        address_in(scheme + "://"@ + address.push('/') + path) == Some(address),
        address_in(scheme) is None,
{
    reveal_strlit("://");
    part_position_is_first(scheme, "://"@, 0);
    if part_position(scheme, "://"@, 0) is Some {
        let at = part_position(scheme, "://"@, 0)->0;
        assert(stands_at(scheme, "://"@, at));
        assert(scheme.subrange(at, at + 3)[0] == scheme[at]);
        assert(scheme.contains(':'));
    }
    scheme_ends_at_the_first_mark(scheme, address);
    let full = address.push('/') + path;
    assert(scheme + "://"@ + address.push('/') + path =~= scheme + "://"@ + full);
    scheme_ends_at_the_first_mark(scheme, full);
    assert(no_marker(full)) by {
        marker_needs_slashes(address, path);
    }
    assert(no_marker(address)) by {
        if occurs(address, "://"@) {
            let at = choose|at: int| #[trigger] stands_at(address, "://"@, at);
            assert(address.subrange(at, at + 3)[1] == address[at + 1]);
            assert(address.contains('/'));
        }
    }
    part_position_is_first(address, "://"@, 0);
    part_position_is_first(full, "://"@, 0);
    position_from_is_first(address, '/', 0);
    position_from_is_first(full, '/', 0);
    assert(full[address.len() as int] == '/');
    let cut = position_from(full, '/', 0);
    if cut < address.len() {
        assert(address[cut] == '/');
    }
    assert(full.take(cut) =~= address);
    let end = position_from(address, '/', 0);
    if end < address.len() {
        assert(address[end] == '/');
    }
    assert(address.take(address.len() as int) =~= address);
}

/// Whether a text holds no mark of a scheme.
spec fn no_marker(s: Seq<char>) -> bool {
    !occurs(s, "://"@)
}

proof fn marker_needs_slashes(address: Seq<char>, path: Seq<char>)
    requires
        !address.contains('/'),
        !path.contains(':'),
        address.len() > 0 ==> address.last() != ':',
    ensures
        no_marker(address.push('/') + path),
{
    reveal_strlit("://");
    let full = address.push('/') + path;
    if occurs(full, "://"@) {
        let at = choose|at: int| #[trigger] stands_at(full, "://"@, at);
        let found = full.subrange(at, at + 3);
        assert(found[0] == full[at] && found[1] == full[at + 1] && found[2] == full[at + 2]);
        if at > address.len() {
            assert(path[at - address.len() - 1] == ':');
        } else if at + 1 < address.len() {
            assert(address[at + 1] == '/');
        } else if at + 1 == address.len() {
            assert(full[at] == address.last());
        }
    }
}

proof fn scheme_ends_at_the_first_mark(scheme: Seq<char>, rest: Seq<char>)
    requires
        !scheme.contains(':'),
    ensures
        ({
            let url = scheme + "://"@ + rest;
            &&& part_position(url, "://"@, 0) == Some(scheme.len() as int)
            &&& url.skip(scheme.len() as int + 3) == rest
        }),
{
    reveal_strlit("://");
    let url = scheme + "://"@ + rest;
    part_position_is_first(url, "://"@, 0);
    assert(url.subrange(scheme.len() as int, scheme.len() as int + 3) =~= "://"@);
    assert(stands_at(url, "://"@, scheme.len() as int));
    let at = part_position(url, "://"@, 0)->0;
    if at < scheme.len() {
        assert(url.subrange(at, at + 3)[0] == url[at]);
        assert(scheme[at] == ':');
    }
    assert(url.skip(scheme.len() as int + 3) =~= rest);
}

/// A namespace is used without white space and then colons at its ends; where nothing
/// is left, the gateway has its usual one.
pub proof fn namespaces_are_cut_at_their_ends(core: Seq<char>, blank: Seq<char>)
    requires
        core.len() > 0,
        !is_space(core[0]) && core[0] != ':',
        !is_space(core.last()) && core.last() != ':',
        forall|i: int| 0 <= i < blank.len() ==> is_space(#[trigger] blank[i]),
    ensures
        normalized(core) == core,
        normalized(seq![':'] + core + seq![':']) == core,
        normalized(blank) == "basilisk:gateway:runtime"@,
        normalized(seq![':']) == "basilisk:gateway:runtime"@,
{
    trimming_keeps_the_rest(core);
    let marked = seq![':'] + core + seq![':'];
    trimming_keeps_the_rest(marked);
    trimming_keeps_the_rest(seq![':']);
    blank_is_white_space(blank);
    let tail = core + seq![':'];
    assert(marked.drop_first() =~= tail);
    assert(tail[0] == core[0]);
    assert(stripped_start(tail, ':') == tail);
    assert(stripped_start(marked, ':') == tail);
    assert(tail.drop_last() =~= core);
    assert(stripped_end(core, ':') == core);
    assert(stripped_end(tail, ':') == core);
    assert(stripped(core, ':') == core);
    assert(trimmed(blank) =~= Seq::<char>::empty());
    let none = Seq::<char>::empty();
    assert(stripped_start(none, ':') == none);
    assert(stripped_end(none, ':') == none);
    assert(seq![':'].drop_first() =~= none);
    assert(stripped_start(seq![':'], ':') == none);
    assert(stripped(seq![':'], ':') == none);
}

/// A key is reserved exactly when it begins with the namespace and a colon, and the
/// gateway's own keys are the keys after that.
pub proof fn reserved_keys_begin_with_the_namespace(
    namespace: Seq<char>,
    key: Seq<char>,
    rest: Seq<char>,
)
    ensures
        reserved_key(namespace, rest) == namespace.push(':') + rest,
        is_reserved(namespace, namespace.push(':') + rest),
        is_reserved(namespace, key) ==> key == namespace.push(':') + key.skip(
            namespace.len() as int + 1,
        ),
{
    reveal_strlit(":");
    let prefix = namespace + ":"@;
    assert(prefix =~= namespace.push(':'));
    assert(prefix.is_prefix_of(prefix + rest));
    if prefix.is_prefix_of(key) {
        assert(key =~= prefix + key.skip(namespace.len() as int + 1));
    }
}

/// The first of a set is in it and comes before every other; an empty set has none.
pub proof fn first_of_a_set_comes_first(first: String, set: Set<Seq<char>>, other: Seq<char>)
    ensures
        is_first_of(Some(first), set) ==> set.contains(first@),
        is_first_of(Some(first), set) && set.contains(other) ==> !precedes(other, first@),
        is_first_of(None, set) ==> !set.contains(other),
        is_first_of(Some(first), set.insert(first@)) || exists|s: Seq<char>| #[trigger]
            set.contains(s) && s != first@ && !precedes(first@, s),
{
    if is_first_of(Some(first), set) && set.contains(other) && precedes(other, first@) {
        precedes_is_irreflexive(first@);
        if other != first@ {
            precedes_is_transitive(other, first@, other);
            precedes_is_irreflexive(other);
        }
    }
    if !is_first_of(Some(first), set.insert(first@)) {
        let s = choose|s: Seq<char>| #[trigger]
            set.insert(first@).contains(s) && s != first@ && !precedes(first@, s);
        assert(set.contains(s));
    }
}

/// Nothing of a cached value is lost in its model.
pub proof fn cached_values_hold_every_part(
    text: String,
    list: VecDeque<String>,
    members: SortedSet,
    fields: StringMap<String>,
    i: int,
)
    ensures
        CacheValue::Text(text)@ == ValueModel::Text(text@),
        CacheValue::List(list)@ is List && CacheValue::List(list)@->List_0.len() == list@.len(),
        0 <= i < list@.len() ==> CacheValue::List(list)@->List_0[i] == list@[i]@,
        CacheValue::Members(members)@ == ValueModel::Members(members@),
        CacheValue::Fields(fields)@ == ValueModel::Fields(fields@),
{
}

proof fn limit_in_any_letters(word: Seq<char>)
    requires
        ascii_lowered(word) == "limit"@,
    ensures
        word.len() == 5,
        forall|i: int|
            0 <= i < word.len() ==> !is_space(#[trigger] word[i]) && word[i] != 'D' && word[i]
                != 'd',
        ascii_lowered(word) == ascii_lowered("LIMIT"@),
{
    reveal_strlit("limit");
    reveal_strlit("LIMIT");
    assert(ascii_lowered("LIMIT"@) =~= "limit"@);
    assert(ascii_lowered(word).len() == word.len());
    assert forall|i: int| 0 <= i < word.len() implies !is_space(#[trigger] word[i]) && word[i]
        != 'D' && word[i] != 'd' by {
        assert(ascii_lowered(word)[i] == "limit"@[i]);
    }
}

/// The word of a limit may be written in small and capital letters; a limit without both
/// of its numbers is none.
pub proof fn limits_are_complete_or_none<A>(
    list: Seq<A>,
    word: Seq<char>,
    offset: usize,
    count: usize,
)
    requires
        ascii_lowered(word) == "limit"@,
    ensures
        with_options(
            list,
            word.push(' ') + (decimal(offset as nat).push(' ') + decimal(count as nat)),
        ) == window(list, offset as nat, count as nat),
        with_options(list, word.push(' ') + decimal(offset as nat)) == list,
        with_options(list, word) == list,
{
    limit_in_any_letters(word);
    let o = decimal(offset as nat);
    let c = decimal(count as nat);
    let numbers = o.push(' ') + c;
    let full = word.push(' ') + numbers;
    let half = word.push(' ') + o;
    decimal_reads_back(offset as nat);
    decimal_reads_back(count as nat);
    assert forall|i: int| 0 <= i < o.len() implies !is_space(#[trigger] o[i]) by {
        assert('0' <= o[i] <= '9');
    }
    assert forall|i: int| 0 <= i < c.len() implies !is_space(#[trigger] c[i]) by {
        assert('0' <= c[i] <= '9');
    }
    words_are_parted_by_white_space(o, ' ', c);
    words_are_parted_by_white_space(c, ' ', c);
    words_are_parted_by_white_space(word, ' ', numbers);
    words_are_parted_by_white_space(word, ' ', o);
    assert(words(full) =~= seq![word, o, c]);
    assert(words(half) =~= seq![word, o]);
    assert(words(word) =~= seq![word]);
    assert(limit_place(words(full), 0) == 0);
    assert(limit_place(words(half), 0) == 0);
    assert(limit_place(words(word), 0) == 0);
    unsigned_numbers_are_read(offset as nat, usize::MAX as nat, o, 0);
    unsigned_numbers_are_read(count as nat, usize::MAX as nat, c, 0);
    assert forall|i: int| 0 <= i < full.len() implies #[trigger] full[i] != 'D' && full[i] != 'd' by {
        if i < 5 {
            assert(full[i] == word[i]);
        } else if 6 <= i < 6 + o.len() {
            assert(full[i] == o[i - 6]);
        } else if i > 6 + o.len() {
            assert(full[i] == c[i - 7 - o.len()]);
        }
    }
    assert forall|i: int| 0 <= i < half.len() implies #[trigger] half[i] != 'D' && half[i] != 'd' by {
        if i < 5 {
            assert(half[i] == word[i]);
        } else if 6 <= i {
            assert(half[i] == o[i - 6]);
        }
    }
    no_descending(full);
    no_descending(half);
    no_descending(word);
}

} // verus!
