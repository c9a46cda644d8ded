//! The cache of the gateway: user keys beside a reserved namespace.

use crate::cache::base::with_options;
use crate::cache::in_memory::{
    counted, deadline, expiring, field_removed, grown, is_first_of, live_keys, live_value,
    member_removed, popped_left, popped_right, stored, EntryModel, InMemoryCacheManager,
};
use crate::cache::value::{
    fields_in, inclusive_range, list_in, members_in, text_in, ValueModel,
};
use crate::clock::{Moment, MonotonicClock};
use crate::sorted::{ascending, lists_in_order};
use crate::text::{
    joined, parse_signed, signed_decimal, strip, stripped, text_starts_with, texts, trim, trimmed,
};
use vstd::prelude::*;
use vstd::string::*;

verus! {

/// The namespace that holds where none is configured.
pub open spec fn default_namespace() -> Seq<char> {
    "basilisk:gateway:runtime"@
}

/// A namespace as it is used: without white space and colons at its ends, or the
/// default one where nothing is left.
pub open spec fn normalized(namespace: Seq<char>) -> Seq<char> {
    let core = stripped(trimmed(namespace), ':');
    if core.len() == 0 {
        default_namespace()
    } else {
        core
    }
}

/// The key under which the gateway keeps an entry of its own.
pub open spec fn reserved_key(namespace: Seq<char>, key: Seq<char>) -> Seq<char> {
    namespace + ":"@ + key
}

/// Whether a key belongs to the namespace of the gateway.
pub open spec fn is_reserved(namespace: Seq<char>, key: Seq<char>) -> bool {
    (namespace + ":"@).is_prefix_of(key)
}

/// Brings a namespace into the form in which it is used.
pub fn normalize_namespace(namespace: &str) -> (used: String)
    ensures
        used@ == normalized(namespace@),
{
    let core = strip(trim(namespace).as_str(), ':');
    if core.as_str().is_empty() {
        "basilisk:gateway:runtime".to_owned()
    } else {
        core
    }
}

/// Writes the key under which the gateway keeps an entry of its own.
pub fn namespaced_key(namespace: &str, key: &str) -> (reserved: String)
    ensures
        reserved@ == reserved_key(namespace@, key@),
{
    let prefix = joined(namespace, ":");
    joined(prefix.as_str(), key)
}

/// The keys of a listing that do not belong to the namespace, in their order.
pub fn visible_keys(keys: &Vec<String>, namespace: &str) -> (visible: Vec<String>)
    ensures
        texts(visible@) == texts(keys@).filter(|k: Seq<char>| !is_reserved(namespace@, k)),
{
    let prefix = joined(namespace, ":");
    let mut visible: Vec<String> = Vec::new();
    let ghost all = texts(keys@);
    let ghost shown = |k: Seq<char>| !is_reserved(namespace@, k);
    let mut i: usize = 0;
    proof {
        assert(all.take(0) =~= Seq::<Seq<char>>::empty());
        reveal(Seq::filter);
        assert(texts(visible@) =~= all.take(0).filter(shown));
    }
    while i < keys.len()
        invariant
            prefix@ == namespace@ + ":"@,
            all == texts(keys@),
            shown == (|k: Seq<char>| !is_reserved(namespace@, k)),
            i <= keys@.len(),
            texts(visible@) == all.take(i as int).filter(shown),
        decreases keys@.len() - i,
    {
        let ghost before = visible@;
        proof {
            reveal(Seq::filter);
            assert(all.take(i + 1).drop_last() =~= all.take(i as int));
            assert(all.take(i + 1).last() == keys@[i as int]@);
        }
        if !text_starts_with(keys[i].as_str(), prefix.as_str()) {
            visible.push(keys[i].clone());
            proof {
                assert(texts(visible@) =~= texts(before).push(keys@[i as int]@));
            }
        }
        i += 1;
    }
    proof {
        assert(all.take(all.len() as int) =~= all);
    }
    visible
}

/// What the cache of the gateway holds.
pub struct GatewayCacheModel {
    pub entries: Map<Seq<char>, EntryModel>,
    pub namespace: Seq<char>,
    /// The reading of the clock at which the last operation that could change
    /// something was made.
    pub latest: Moment,
}

/// Shared cache handle used by the gateway runtime and Lua cache primitive.
///
/// User-facing primitive operations use the raw keys provided by Lua code.
/// Internal gateway operations always store data under a reserved Basilisk
/// prefix, so proxy metadata never collides with operator-managed keys.
///
/// Every operation that depends on the time reads the clock of the cache once; its
/// contract says what holds for that reading. No operation is made at an earlier
/// time than the last one that could change something, so what had expired by then
/// stays expired.
pub struct GatewayCache {
    provider: InMemoryCacheManager,
    internal_namespace: String,
    clock: MonotonicClock,
    latest: Moment,
}

impl View for GatewayCache {
    type V = GatewayCacheModel;

    closed spec fn view(&self) -> GatewayCacheModel {
        GatewayCacheModel {
            entries: self.provider@,
            namespace: self.internal_namespace@,
            latest: self.latest,
        }
    }
}

impl GatewayCache {
    /// Creates an empty cache that keeps its data in-process.
    pub fn in_memory() -> (cache: Self)
        ensures
            cache@.entries == Map::<Seq<char>, EntryModel>::empty(),
            cache@.namespace == default_namespace(),
            cache@.latest == (Moment { seconds: 0, nanos: 0 }),
    {
        GatewayCache {
            provider: InMemoryCacheManager::new(),
            internal_namespace: "basilisk:gateway:runtime".to_owned(),
            clock: MonotonicClock::start(),
            latest: Moment { seconds: 0, nanos: 0 },
        }
    }

    /// The time at which an operation is made: what the clock reads, but not earlier
    /// than the last operation.
    fn now(&self) -> (now: Moment)
        ensures
            self@.latest.ns() <= now.ns(),
    {
        let now = self.clock.read();
        if now.total_nanos() < self.latest.total_nanos() {
            self.latest
        } else {
            now
        }
    }

    /// The time at which an operation is made, which no later one precedes.
    fn tick(&mut self) -> (now: Moment)
        ensures
            final(self)@ == (GatewayCacheModel { latest: now, ..old(self)@ }),
            old(self)@.latest.ns() <= now.ns(),
    {
        let now = self.now();
        self.latest = now;
        now
    }

    /// Sets the internal key namespace used for Basilisk-owned cache entries.
    pub fn set_internal_namespace(&mut self, namespace: &str)
        ensures
            final(self)@.entries == old(self)@.entries,
            final(self)@.namespace == normalized(namespace@),
            final(self)@.latest == old(self)@.latest,
    {
        self.internal_namespace = normalize_namespace(namespace);
    }

    /// Starts over with an empty provider.
    pub fn reset_provider(&mut self)
        ensures
            final(self)@.entries == Map::<Seq<char>, EntryModel>::empty(),
            final(self)@.namespace == old(self)@.namespace,
            final(self)@.latest == old(self)@.latest,
    {
        self.provider = InMemoryCacheManager::new();
    }

    /// The key under which the gateway keeps an entry of its own.
    pub fn internal_key(&self, key: &str) -> (reserved: String)
        ensures
            reserved@ == reserved_key(self@.namespace, key@),
    {
        namespaced_key(self.internal_namespace.as_str(), key)
    }

    /// Returns a string value for `key` when present and not expired.
    pub fn get(&self, key: &str) -> (value: Option<String>)
        ensures
            exists|now: Moment| {
                let held = #[trigger] live_value(self@.entries, key@, now);
                &&& self@.latest.ns() <= now.ns()
                &&& match value {
                    Some(s) => text_in(held) == Some(s@),
                    None => text_in(held) is None,
                }
            },
    {
        let now = self.now();
        let ghost held = live_value(self@.entries, key@, now);
        self.provider.get(key, now)
    }

    /// Returns the existing string value for `key`, or stores and returns `value`
    /// when the key has none.
    pub fn get_or_set(&mut self, key: &str, value: String) -> (kept: String)
        ensures
            final(self)@.namespace == old(self)@.namespace,
            old(self)@.latest.ns() <= final(self)@.latest.ns(),
            ({
                let now = final(self)@.latest;
                let held = live_value(old(self)@.entries, key@, now);
                match text_in(held) {
                    Some(s) => kept@ == s && final(self)@.entries == old(self)@.entries,
                    None => kept@ == value@ && final(self)@.entries == stored(
                        old(self)@.entries,
                        key@,
                        value@,
                        None,
                    ),
                }
            }),
    {
        let now = self.tick();
        self.provider.get_or_set(key, value, now)
    }

    /// Stores a string value with a time-to-live in seconds.
    pub fn set_with_ttl(&mut self, key: &str, value: String, ttl: u64)
        ensures
            final(self)@.namespace == old(self)@.namespace,
            old(self)@.latest.ns() <= final(self)@.latest.ns(),
            ({
                let now = final(self)@.latest;
                final(self)@.entries == stored(
                    old(self)@.entries,
                    key@,
                    value@,
                    deadline(now, ttl),
                )
            }),
    {
        let now = self.tick();
        self.provider.set_with_ttl(key, value, ttl, now)
    }

    /// Stores a string value only when the key does not already exist.
    pub fn set_if_not_exists(&mut self, key: &str, value: String) -> (stored_it: bool)
        ensures
            final(self)@.namespace == old(self)@.namespace,
            old(self)@.latest.ns() <= final(self)@.latest.ns(),
            ({
                let now = final(self)@.latest;
                let held = live_value(old(self)@.entries, key@, now);
                stored_it == (held is None) && final(self)@.entries == (if stored_it {
                    stored(old(self)@.entries, key@, value@, None)
                } else {
                    old(self)@.entries
                })
            }),
    {
        let now = self.tick();
        self.provider.set_if_not_exists(key, value, now)
    }

    /// Stores a string value without expiration.
    pub fn set(&mut self, key: &str, value: String)
        ensures
            final(self)@.namespace == old(self)@.namespace,
            final(self)@.latest == old(self)@.latest,
            final(self)@.entries == stored(old(self)@.entries, key@, value@, None),
    {
        self.provider.set(key, value)
    }

    /// Increments an integer-like string value by `delta` and returns the result.
    /// Where it would leave the range of `i64`, nothing changes and there is none.
    pub fn incr(&mut self, key: &str, delta: i64) -> (next: Option<i64>)
        ensures
            final(self)@.namespace == old(self)@.namespace,
            old(self)@.latest.ns() <= final(self)@.latest.ns(),
            ({
                let now = final(self)@.latest;
                let sum = counted(old(self)@.entries, key@, now) + delta;
                match next {
                    Some(n) => n == sum && final(self)@.entries == stored(
                        old(self)@.entries,
                        key@,
                        signed_decimal(sum),
                        None,
                    ),
                    None => !(i64::MIN <= sum <= i64::MAX) && final(self)@.entries == old(self)@.entries,
                }
            }),
    {
        let now = self.tick();
        let current: i64 = match self.provider.get(key, now) {
            Some(s) => match parse_signed(s.as_str()) {
                Some(n) => n,
                None => 0,
            },
            None => 0,
        };
        proof {
            assert(current == counted(self@.entries, key@, now));
        }
        let sum: i128 = current as i128 + delta as i128;
        if sum < i64::MIN as i128 || sum > i64::MAX as i128 {
            return None;
        }
        Some(self.provider.incr(key, delta, now))
    }

    /// Decrements an integer-like string value by `delta` and returns the result.
    /// Where it would leave the range of `i64`, nothing changes and there is none.
    pub fn decr(&mut self, key: &str, delta: i64) -> (next: Option<i64>)
        ensures
            final(self)@.namespace == old(self)@.namespace,
            old(self)@.latest.ns() <= final(self)@.latest.ns(),
            ({
                let now = final(self)@.latest;
                let sum = counted(old(self)@.entries, key@, now) - delta;
                match next {
                    Some(n) => n == sum && delta > i64::MIN && final(self)@.entries == stored(
                        old(self)@.entries,
                        key@,
                        signed_decimal(sum),
                        None,
                    ),
                    None => (delta == i64::MIN || !(i64::MIN <= sum <= i64::MAX)) && final(self)@.entries
                        == old(self)@.entries,
                }
            }),
    {
        if delta == i64::MIN {
            return None;
        }
        self.incr(key, -delta)
    }

    /// Appends a value to the tail of a cached list.
    pub fn list_append(&mut self, key: &str, value: String) -> (added: String)
        ensures
            final(self)@.namespace == old(self)@.namespace,
            old(self)@.latest.ns() <= final(self)@.latest.ns(),
            ({
                let now = final(self)@.latest;
                let held = live_value(old(self)@.entries, key@, now);
                added@ == value@ && final(self)@.entries == grown(
                    old(self)@.entries,
                    key@,
                    now,
                    ValueModel::List(list_in(held).push(value@)),
                )
            }),
    {
        let now = self.tick();
        self.provider.list_append(key, value, now)
    }

    /// Prepends a value to the head of a cached list.
    pub fn list_prepend(&mut self, key: &str, value: String) -> (added: String)
        ensures
            final(self)@.namespace == old(self)@.namespace,
            old(self)@.latest.ns() <= final(self)@.latest.ns(),
            ({
                let now = final(self)@.latest;
                let held = live_value(old(self)@.entries, key@, now);
                added@ == value@ && final(self)@.entries == grown(
                    old(self)@.entries,
                    key@,
                    now,
                    ValueModel::List(seq![value@] + list_in(held)),
                )
            }),
    {
        let now = self.tick();
        self.provider.list_prepend(key, value, now)
    }

    /// Removes and returns the first list item.
    pub fn list_pop_left(&mut self, key: &str) -> (item: Option<String>)
        ensures
            final(self)@.namespace == old(self)@.namespace,
            old(self)@.latest.ns() <= final(self)@.latest.ns(),
            ({
                let now = final(self)@.latest;
                let held = live_value(old(self)@.entries, key@, now);
                (match item {
                    Some(s) => list_in(held).len() > 0 && s@ == list_in(held)[0],
                    None => list_in(held).len() == 0,
                }) && final(self)@.entries == popped_left(old(self)@.entries, key@, now)
            }),
    {
        let now = self.tick();
        self.provider.list_pop_left(key, now)
    }

    /// Removes and returns the last list item.
    pub fn list_pop_right(&mut self, key: &str) -> (item: Option<String>)
        ensures
            final(self)@.namespace == old(self)@.namespace,
            old(self)@.latest.ns() <= final(self)@.latest.ns(),
            ({
                let now = final(self)@.latest;
                let held = live_value(old(self)@.entries, key@, now);
                (match item {
                    Some(s) => list_in(held).len() > 0 && s@ == list_in(held).last(),
                    None => list_in(held).len() == 0,
                }) && final(self)@.entries == popped_right(old(self)@.entries, key@, now)
            }),
    {
        let now = self.tick();
        self.provider.list_pop_right(key, now)
    }

    /// Returns the number of items in the cached list.
    pub fn list_length(&self, key: &str) -> (n: usize)
        ensures
            exists|now: Moment| {
                let held = #[trigger] live_value(self@.entries, key@, now);
                &&& self@.latest.ns() <= now.ns()
                &&& n == list_in(held).len()
            },
    {
        let now = self.now();
        let ghost held = live_value(self@.entries, key@, now);
        self.provider.list_length(key, now)
    }

    /// Returns the list item at `index` when present.
    pub fn list_index(&self, key: &str, index: usize) -> (item: Option<String>)
        ensures
            exists|now: Moment| {
                let held = #[trigger] live_value(self@.entries, key@, now);
                &&& self@.latest.ns() <= now.ns()
                &&& match item {
                    Some(s) => index < list_in(held).len() && s@ == list_in(held)[index as int],
                    None => index >= list_in(held).len(),
                }
            },
    {
        let now = self.now();
        let ghost held = live_value(self@.entries, key@, now);
        self.provider.list_index(key, index, now)
    }

    /// Returns the inclusive `[start, end]` range from the cached list.
    pub fn list_range(&self, key: &str, start: usize, end: usize) -> (range: Vec<String>)
        ensures
            exists|now: Moment| {
                let held = #[trigger] live_value(self@.entries, key@, now);
                &&& self@.latest.ns() <= now.ns()
                &&& texts(range@) == inclusive_range(list_in(held), start as nat, end as nat)
            },
    {
        let now = self.now();
        let ghost held = live_value(self@.entries, key@, now);
        self.provider.list_range(key, start, end, now)
    }

    /// Adds a member to a cached set. Returns whether it was not there before.
    pub fn set_add(&mut self, key: &str, value: String) -> (added: bool)
        ensures
            final(self)@.namespace == old(self)@.namespace,
            old(self)@.latest.ns() <= final(self)@.latest.ns(),
            ({
                let now = final(self)@.latest;
                let held = live_value(old(self)@.entries, key@, now);
                added == !members_in(held).contains(value@) && final(self)@.entries == grown(
                    old(self)@.entries,
                    key@,
                    now,
                    ValueModel::Members(members_in(held).insert(value@)),
                )
            }),
    {
        let now = self.tick();
        self.provider.set_add(key, value, now)
    }

    /// Removes a member from a cached set. Returns whether it was there.
    pub fn set_remove(&mut self, key: &str, value: String) -> (removed: bool)
        ensures
            final(self)@.namespace == old(self)@.namespace,
            old(self)@.latest.ns() <= final(self)@.latest.ns(),
            ({
                let now = final(self)@.latest;
                let held = live_value(old(self)@.entries, key@, now);
                removed == members_in(held).contains(value@) && final(self)@.entries
                    == member_removed(old(self)@.entries, key@, now, value@)
            }),
    {
        let now = self.tick();
        self.provider.set_remove(key, value, now)
    }

    /// Returns whether `value` belongs to the cached set.
    pub fn set_is_member(&self, key: &str, value: &str) -> (yes: bool)
        ensures
            exists|now: Moment| {
                let held = #[trigger] live_value(self@.entries, key@, now);
                &&& self@.latest.ns() <= now.ns()
                &&& yes == members_in(held).contains(value@)
            },
    {
        let now = self.now();
        let ghost held = live_value(self@.entries, key@, now);
        self.provider.set_is_member(key, value, now)
    }

    /// Returns all members of the cached set, sorted lexicographically.
    pub fn set_members(&self, key: &str) -> (members: Vec<String>)
        ensures
            exists|now: Moment| {
                let held = #[trigger] live_value(self@.entries, key@, now);
                &&& self@.latest.ns() <= now.ns()
                &&& lists_in_order(texts(members@), members_in(held))
            },
    {
        let now = self.now();
        let ghost held = live_value(self@.entries, key@, now);
        self.provider.set_members(key, now)
    }

    /// Returns one member from the cached set when available: the first one.
    pub fn set_random_member(&self, key: &str) -> (member: Option<String>)
        ensures
            exists|now: Moment| {
                let held = #[trigger] live_value(self@.entries, key@, now);
                &&& self@.latest.ns() <= now.ns()
                &&& is_first_of(member, members_in(held))
            },
    {
        let now = self.now();
        let ghost held = live_value(self@.entries, key@, now);
        self.provider.set_random_member(key, now)
    }

    /// Returns members sorted lexicographically.
    pub fn set_sort(&self, key: &str) -> (members: Vec<String>)
        ensures
            exists|now: Moment| {
                let held = #[trigger] live_value(self@.entries, key@, now);
                &&& self@.latest.ns() <= now.ns()
                &&& lists_in_order(texts(members@), members_in(held))
            },
    {
        let now = self.now();
        let ghost held = live_value(self@.entries, key@, now);
        self.provider.set_sort(key, now)
    }

    /// Returns members sorted with additional provider-agnostic options.
    pub fn set_sort_with_options(&self, key: &str, options: &str) -> (members: Vec<String>)
        ensures
            exists|now: Moment| {
                let held = #[trigger] live_value(self@.entries, key@, now);
                &&& self@.latest.ns() <= now.ns()
                &&& exists|all: Seq<String>|
                    lists_in_order(texts(all), members_in(held)) && members@
                        == #[trigger] with_options(all, options@)
            },
    {
        let now = self.now();
        let ghost held = live_value(self@.entries, key@, now);
        self.provider.set_sort_with_options(key, options, now)
    }

    /// Returns the set cardinality.
    pub fn set_card(&self, key: &str) -> (n: usize)
        ensures
            exists|now: Moment| {
                let held = #[trigger] live_value(self@.entries, key@, now);
                &&& self@.latest.ns() <= now.ns()
                &&& n == members_in(held).len()
            },
    {
        let now = self.now();
        let ghost held = live_value(self@.entries, key@, now);
        self.provider.set_card(key, now)
    }

    /// Returns the hash field value when present.
    pub fn hash_get(&self, key: &str, field: &str) -> (value: Option<String>)
        ensures
            exists|now: Moment| {
                let held = #[trigger] live_value(self@.entries, key@, now);
                &&& self@.latest.ns() <= now.ns()
                &&& match value {
                    Some(s) => fields_in(held).contains_key(field@) && s@ == fields_in(held)[field@],
                    None => !fields_in(held).contains_key(field@),
                }
            },
    {
        let now = self.now();
        let ghost held = live_value(self@.entries, key@, now);
        self.provider.hash_get(key, field, now)
    }

    /// Stores a hash field value.
    pub fn hash_set(&mut self, key: &str, field: &str, value: String)
        ensures
            final(self)@.namespace == old(self)@.namespace,
            old(self)@.latest.ns() <= final(self)@.latest.ns(),
            ({
                let now = final(self)@.latest;
                let held = live_value(old(self)@.entries, key@, now);
                final(self)@.entries == grown(
                    old(self)@.entries,
                    key@,
                    now,
                    ValueModel::Fields(fields_in(held).insert(field@, value@)),
                )
            }),
    {
        let now = self.tick();
        self.provider.hash_set(key, field, value, now)
    }

    /// Deletes a hash field when present. Returns whether it was there.
    pub fn hash_delete(&mut self, key: &str, field: &str) -> (removed: bool)
        ensures
            final(self)@.namespace == old(self)@.namespace,
            old(self)@.latest.ns() <= final(self)@.latest.ns(),
            ({
                let now = final(self)@.latest;
                let held = live_value(old(self)@.entries, key@, now);
                removed == fields_in(held).contains_key(field@) && final(self)@.entries
                    == field_removed(old(self)@.entries, key@, now, field@)
            }),
    {
        let now = self.tick();
        self.provider.hash_delete(key, field, now)
    }

    /// Returns whether a hash field exists.
    pub fn hash_exists(&self, key: &str, field: &str) -> (yes: bool)
        ensures
            exists|now: Moment| {
                let held = #[trigger] live_value(self@.entries, key@, now);
                &&& self@.latest.ns() <= now.ns()
                &&& yes == fields_in(held).contains_key(field@)
            },
    {
        let now = self.now();
        let ghost held = live_value(self@.entries, key@, now);
        self.provider.hash_exists(key, field, now)
    }

    /// Returns all hash field names, sorted lexicographically.
    pub fn hash_fields(&self, key: &str) -> (names: Vec<String>)
        ensures
            exists|now: Moment| {
                let held = #[trigger] live_value(self@.entries, key@, now);
                &&& self@.latest.ns() <= now.ns()
                &&& lists_in_order(texts(names@), fields_in(held).dom())
            },
    {
        let now = self.now();
        let ghost held = live_value(self@.entries, key@, now);
        self.provider.hash_fields(key, now)
    }

    /// Returns one hash field name when present: the first one.
    pub fn hash_random_field(&self, key: &str) -> (name: Option<String>)
        ensures
            exists|now: Moment| {
                let held = #[trigger] live_value(self@.entries, key@, now);
                &&& self@.latest.ns() <= now.ns()
                &&& is_first_of(name, fields_in(held).dom())
            },
    {
        let now = self.now();
        let ghost held = live_value(self@.entries, key@, now);
        self.provider.hash_random_field(key, now)
    }

    /// Returns the number of fields in the hash.
    pub fn hash_length(&self, key: &str) -> (n: usize)
        ensures
            exists|now: Moment| {
                let held = #[trigger] live_value(self@.entries, key@, now);
                &&& self@.latest.ns() <= now.ns()
                &&& n == fields_in(held).dom().len()
            },
    {
        let now = self.now();
        let ghost held = live_value(self@.entries, key@, now);
        self.provider.hash_length(key, now)
    }

    /// Returns whether `key` exists and is not expired.
    pub fn key_exists(&self, key: &str) -> (yes: bool)
        ensures
            exists|now: Moment| {
                let held = #[trigger] live_value(self@.entries, key@, now);
                &&& self@.latest.ns() <= now.ns()
                &&& yes == (held is Some)
            },
    {
        let now = self.now();
        let ghost held = live_value(self@.entries, key@, now);
        self.provider.key_exists(key, now)
    }

    /// Returns the visible keys, sorted lexicographically: those that have not
    /// expired and do not belong to the namespace of the gateway.
    pub fn keys(&self) -> (keys: Vec<String>)
        ensures
            exists|now: Moment| {
                let live = #[trigger] live_keys(self@.entries, now);
                &&& self@.latest.ns() <= now.ns()
                &&& lists_in_order(
                    texts(keys@),
                    live.filter(|k: Seq<char>| !is_reserved(self@.namespace, k)),
                )
            },
    {
        let now = self.now();
        let all = self.provider.keys(now);
        let keys = visible_keys(&all, self.internal_namespace.as_str());
        proof {
            let shown = |k: Seq<char>| !is_reserved(self@.namespace, k);
            filter_keeps_order(texts(all@), shown);
            assert(texts(keys@).to_set() =~= live_keys(self@.entries, now).filter(shown));
        }
        keys
    }

    /// Removes `key` and reports whether there was an entry of it.
    pub fn unlink(&mut self, key: &str) -> (removed: bool)
        ensures
            final(self)@.namespace == old(self)@.namespace,
            final(self)@.latest == old(self)@.latest,
            removed == old(self)@.entries.contains_key(key@),
            final(self)@.entries == old(self)@.entries.remove(key@),
    {
        self.provider.unlink(key)
    }

    /// Deletes `key` without returning a status.
    pub fn delete(&mut self, key: &str)
        ensures
            final(self)@.namespace == old(self)@.namespace,
            final(self)@.latest == old(self)@.latest,
            final(self)@.entries == old(self)@.entries.remove(key@),
    {
        self.provider.delete(key)
    }

    /// Updates the TTL of an existing key.
    pub fn expire(&mut self, key: &str, ttl: u64)
        ensures
            final(self)@.namespace == old(self)@.namespace,
            old(self)@.latest.ns() <= final(self)@.latest.ns(),
            ({
                let now = final(self)@.latest;
                final(self)@.entries == expiring(old(self)@.entries, key@, now, ttl)
            }),
    {
        let now = self.tick();
        self.provider.expire(key, ttl, now)
    }

    /// Reads a string of the gateway's own.
    pub fn internal_get(&self, key: &str) -> (value: Option<String>)
        ensures
            exists|now: Moment| {
                let held = #[trigger] live_value(
                    self@.entries,
                    reserved_key(self@.namespace, key@),
                    now,
                );
                &&& self@.latest.ns() <= now.ns()
                &&& match value {
                    Some(s) => text_in(held) == Some(s@),
                    None => text_in(held) is None,
                }
            },
    {
        self.get(self.internal_key(key).as_str())
    }

    /// Increments a counter of the gateway's own. Where it would leave the range
    /// of `i64`, nothing changes and there is none.
    pub fn internal_incr(&mut self, key: &str, delta: i64) -> (next: Option<i64>)
        ensures
            final(self)@.namespace == old(self)@.namespace,
            old(self)@.latest.ns() <= final(self)@.latest.ns(),
            ({
                let now = final(self)@.latest;
                let reserved = reserved_key(old(self)@.namespace, key@);
                let sum = counted(
                    old(self)@.entries,
                    reserved_key(old(self)@.namespace, key@),
                    now,
                ) + delta;
                match next {
                    Some(n) => n == sum && final(self)@.entries == stored(
                        old(self)@.entries,
                        reserved,
                        signed_decimal(sum),
                        None,
                    ),
                    None => !(i64::MIN <= sum <= i64::MAX) && final(self)@.entries == old(self)@.entries,
                }
            }),
    {
        let reserved = self.internal_key(key);
        self.incr(reserved.as_str(), delta)
    }

    /// Reads a hash field of the gateway's own.
    pub fn internal_hash_get(&self, key: &str, field: &str) -> (value: Option<String>)
        ensures
            exists|now: Moment| {
                let held = #[trigger] live_value(
                    self@.entries,
                    reserved_key(self@.namespace, key@),
                    now,
                );
                &&& self@.latest.ns() <= now.ns()
                &&& match value {
                    Some(s) => fields_in(held).contains_key(field@) && s@ == fields_in(held)[field@],
                    None => !fields_in(held).contains_key(field@),
                }
            },
    {
        self.hash_get(self.internal_key(key).as_str(), field)
    }

    /// Stores a hash field of the gateway's own and gives the hash a time to live.
    pub fn internal_hash_set_with_ttl(
        &mut self,
        key: &str,
        field: &str,
        value: String,
        ttl_seconds: u64,
    )
        ensures
            final(self)@.namespace == old(self)@.namespace,
            old(self)@.latest.ns() <= final(self)@.latest.ns(),
            ({
                let now = final(self)@.latest;
                let reserved = reserved_key(old(self)@.namespace, key@);
                let held = live_value(
                    old(self)@.entries,
                    reserved_key(old(self)@.namespace, key@),
                    now,
                );
                final(self)@.entries == old(self)@.entries.insert(
                    reserved,
                    EntryModel {
                        value: ValueModel::Fields(fields_in(held).insert(field@, value@)),
                        expires_at: deadline(now, ttl_seconds),
                    },
                )
            }),
    {
        let reserved = self.internal_key(key);
        let now = self.tick();
        let ghost before = self@.entries;
        let ghost held = live_value(before, reserved@, now);
        self.provider.hash_set(reserved.as_str(), field, value, now);
        let ghost between = self@.entries;
        self.provider.expire(reserved.as_str(), ttl_seconds, now);
        proof {
            assert(self@.entries =~= before.insert(
                reserved@,
                EntryModel {
                    value: ValueModel::Fields(fields_in(held).insert(field@, value@)),
                    expires_at: deadline(now, ttl_seconds),
                },
            ));
        }
    }
}

/// Leaving items out of an ordered listing keeps the order.
proof fn filter_keeps_order(list: Seq<Seq<char>>, shown: spec_fn(Seq<char>) -> bool)
    requires
        ascending(list),
    ensures
        ascending(list.filter(shown)),
        forall|s: Seq<char>| #[trigger]
            list.filter(shown).contains(s) <==> list.contains(s) && shown(s),
    decreases list.len(),
{
    reveal(Seq::filter);
    if list.len() > 0 {
        let rest = list.drop_last();
        let kept = rest.filter(shown);
        filter_keeps_order(rest, shown);
        let all = list.filter(shown);
        assert forall|s: Seq<char>| #[trigger] list.contains(s) == (rest.contains(s) || s
            == list.last()) by {
            if rest.contains(s) {
                let j = rest.index_of(s);
                assert(list[j] == s);
            }
            if list.contains(s) {
                let j = list.index_of(s);
                if j < rest.len() {
                    assert(rest[j] == s);
                }
            }
            assert(list[list.len() - 1] == list.last());
        }
        if shown(list.last()) {
            assert(all == kept.push(list.last()));
            assert forall|s: Seq<char>| #[trigger] all.contains(s) == (kept.contains(s) || s
                == list.last()) by {
                if kept.contains(s) {
                    let j = kept.index_of(s);
                    assert(all[j] == s);
                }
                assert(all[kept.len() as int] == list.last());
            }
            assert forall|i: int, j: int| 0 <= i < j < all.len() implies crate::sorted::precedes(
                #[trigger] all[i],
                #[trigger] all[j],
            ) by {
                assert(kept[i] == all[i]);
                if j < kept.len() {
                    assert(kept[j] == all[j]);
                } else {
                    assert(kept.contains(kept[i]));
                    assert(rest.contains(kept[i]));
                    let k = rest.index_of(kept[i]);
                    assert(list[k] == kept[i]);
                    assert(crate::sorted::precedes(list[k], list[list.len() - 1]));
                }
            }
        } else {
            assert(all == kept);
        }
    }
}

} // verus!
