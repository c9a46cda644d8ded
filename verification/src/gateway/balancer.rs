//! The choice of a healthy instance.

use crate::cache::in_memory::{counted, stored};
use crate::cache::runtime::{reserved_key, GatewayCache, GatewayCacheModel};
use crate::models::{InstanceModel, InstanceStatus, ServiceDefinition, ServiceInstance};
use crate::string_map::Duplicate;
use crate::table::Table;
use crate::text::{joined, same_text, signed_decimal, signed_decimal_reads_back};
use smallvec::SmallVec;
use std::collections::hash_map::DefaultHasher;
use std::hash::Hasher;
use vstd::prelude::*;
use vstd::std_specs::hash::DefaultHasherAdditionalSpecFns;
use vstd::string::*;
use vstd::utf8::*;

verus! {

/// A short list of places, kept in a `smallvec::SmallVec` without an allocation of
/// its own while it has few items.
#[verifier::external_body]
pub struct PlaceList {
    places: SmallVec<[usize; 8]>,
}

/// What a list of places holds.
pub uninterp spec fn places_in(list: PlaceList) -> Seq<usize>;

/// `SmallVec::new`: an empty list.
#[verifier::external_body]
fn new_places() -> (list: PlaceList)
    ensures
        places_in(list).len() == 0,
{
    PlaceList { places: SmallVec::new() }
}

/// `SmallVec::push`: appends an item at the end.
#[verifier::external_body]
fn push_place(list: &mut PlaceList, place: usize)
    ensures
        places_in(*final(list)) == places_in(*old(list)).push(place),
{
    list.places.push(place)
}

/// `SmallVec::len`: the number of items.
#[verifier::external_body]
fn count_places(list: &PlaceList) -> (n: usize)
    ensures
        n == places_in(*list).len(),
{
    list.places.len()
}

/// The indexing of a `SmallVec`: the item at an index that is in range.
#[verifier::external_body]
fn place_at(list: &PlaceList, i: usize) -> (place: usize)
    requires
        i < places_in(*list).len(),
    ensures
        place == places_in(*list)[i as int],
{
    list.places[i]
}

/// `rand::random`: a random number, of which nothing is claimed.
#[verifier::external_body]
fn random_number() -> (n: u32) {
    rand::random::<u32>()
}

/// How an instance is chosen.
#[derive(Clone, Copy, Debug, PartialEq, Eq, Structural)]
pub enum Strategy {
    RoundRobin,
    WeightedRoundRobin,
    WeightedRandom,
    IpHash,
}

/// The strategy of a name; any other name stands for round robin.
pub open spec fn strategy_named(name: Seq<char>) -> Strategy {
    if name == "WEIGHTED_ROUND_ROBIN"@ {
        Strategy::WeightedRoundRobin
    } else if name == "WEIGHTED_RANDOM"@ {
        Strategy::WeightedRandom
    } else if name == "IP_HASH"@ {
        Strategy::IpHash
    } else {
        Strategy::RoundRobin
    }
}

/// The strategy of a name.
pub fn parse_strategy(name: &str) -> (strategy: Strategy)
    ensures
        strategy == strategy_named(name@),
{
    if same_text(name, "WEIGHTED_ROUND_ROBIN") {
        Strategy::WeightedRoundRobin
    } else if same_text(name, "WEIGHTED_RANDOM") {
        Strategy::WeightedRandom
    } else if same_text(name, "IP_HASH") {
        Strategy::IpHash
    } else {
        Strategy::RoundRobin
    }
}

/// The ids of the instances that are up, in the order of the service.
pub open spec fn up_ids(order: Seq<Seq<char>>, instances: Map<Seq<char>, InstanceModel>) -> Seq<
    Seq<char>,
> {
    order.filter(|k: Seq<char>| instances[k].status == InstanceStatus::Up)
}

/// The ids of the instances of a service that are up.
pub open spec fn healthy_ids(service: ServiceDefinition) -> Seq<Seq<char>> {
    up_ids(service.instances.order(), service.instances@)
}

/// The sum of the weights of the first `n` of some instances.
pub open spec fn weight_of_first(
    ids: Seq<Seq<char>>,
    instances: Map<Seq<char>, InstanceModel>,
    n: int,
) -> int
    decreases n,
{
    if n <= 0 {
        0
    } else {
        weight_of_first(ids, instances, n - 1) + instances[ids[n - 1]].weight
    }
}

/// Whether a running sum of weights covers a drawn value. Where sums count as
/// unsigned, a negative one covers everything.
pub open spec fn covers(sum: int, value: int, unsigned: bool) -> bool {
    value < sum || (unsigned && sum < 0)
}

/// The first place from `from` on whose running sum of weights covers a value, or 0.
pub open spec fn first_covering(
    ids: Seq<Seq<char>>,
    instances: Map<Seq<char>, InstanceModel>,
    value: int,
    unsigned: bool,
    from: int,
) -> int
    decreases ids.len() - from,
{
    if from >= ids.len() {
        0
    } else if covers(weight_of_first(ids, instances, from + 1), value, unsigned) {
        from
    } else {
        first_covering(ids, instances, value, unsigned, from + 1)
    }
}

/// The hash of a client address.
pub open spec fn address_hash(address: Seq<char>) -> u64 {
    DefaultHasher::spec_finish(seq![encode_utf8(address), seq![0xffu8]])
}

/// What a counter of the handler stands at.
pub open spec fn counter_at(counters: Map<Seq<char>, usize>, service_id: Seq<char>) -> usize {
    if counters.contains_key(service_id) {
        counters[service_id]
    } else {
        0
    }
}

/// The counters after one more use of that of a service; the largest is followed by 0.
pub open spec fn counted_up(counters: Map<Seq<char>, usize>, service_id: Seq<char>) -> Map<
    Seq<char>,
    usize,
> {
    let at = counter_at(counters, service_id);
    counters.insert(
        service_id,
        if at == usize::MAX {
            0
        } else {
            (at + 1) as usize
        },
    )
}

/// Whether the count of the shared cache serves as a ticket.
pub open spec fn is_ticket(cache_counter: Option<i64>) -> bool {
    cache_counter matches Some(c) && c > 0
}

/// The number of turns taken before this one: that of the shared cache where it
/// counts, else that of the handler.
pub open spec fn turns_before(
    counters: Map<Seq<char>, usize>,
    service_id: Seq<char>,
    cache_counter: Option<i64>,
) -> int {
    if is_ticket(cache_counter) {
        cache_counter->0 - 1
    } else {
        counter_at(counters, service_id) as int
    }
}

/// Whether a choice takes turns: round robin always does, the weighted one where
/// there is weight.
pub open spec fn takes_turns(
    strategy: Strategy,
    ids: Seq<Seq<char>>,
    instances: Map<Seq<char>, InstanceModel>,
) -> bool {
    ids.len() > 0 && (strategy == Strategy::RoundRobin || (strategy == Strategy::WeightedRoundRobin
        && weight_of_first(ids, instances, ids.len() as int) > 0))
}

/// The place among the healthy instances of the one that is chosen.
pub open spec fn chosen_place(
    strategy: Strategy,
    ids: Seq<Seq<char>>,
    instances: Map<Seq<char>, InstanceModel>,
    address: Seq<char>,
    turns: int,
    random: u32,
) -> int {
    let total = weight_of_first(ids, instances, ids.len() as int);
    match strategy {
        Strategy::RoundRobin => turns % (ids.len() as int),
        Strategy::IpHash => address_hash(address) as int % (ids.len() as int),
        Strategy::WeightedRoundRobin => if total <= 0 {
            0
        } else {
            first_covering(ids, instances, turns % total, true, 0)
        },
        Strategy::WeightedRandom => if total <= 0 {
            0
        } else {
            first_covering(ids, instances, random as int % total, false, 0)
        },
    }
}

/// A covering place is a place.
proof fn first_covering_is_a_place(
    ids: Seq<Seq<char>>,
    instances: Map<Seq<char>, InstanceModel>,
    value: int,
    unsigned: bool,
    from: int,
)
    requires
        0 <= from,
        ids.len() > 0,
    ensures
        0 <= first_covering(ids, instances, value, unsigned, from) < ids.len(),
    decreases ids.len() - from,
{
    if from < ids.len() && !covers(weight_of_first(ids, instances, from + 1), value, unsigned) {
        first_covering_is_a_place(ids, instances, value, unsigned, from + 1);
    }
}

/// Where some instance is healthy, the choice is one of the healthy ones.
pub proof fn choice_is_healthy(
    strategy: Strategy,
    order: Seq<Seq<char>>,
    instances: Map<Seq<char>, InstanceModel>,
    address: Seq<char>,
    turns: int,
    random: u32,
)
    requires
        up_ids(order, instances).len() > 0,
        turns >= 0,
    ensures
        ({
            let ids = up_ids(order, instances);
            let place = chosen_place(strategy, ids, instances, address, turns, random);
            0 <= place < ids.len() && order.contains(ids[place]) && instances[ids[place]].status
                == InstanceStatus::Up
        }),
{
    let ids = up_ids(order, instances);
    let up = |k: Seq<char>| instances[k].status == InstanceStatus::Up;
    let total = weight_of_first(ids, instances, ids.len() as int);
    if total > 0 {
        first_covering_is_a_place(ids, instances, turns % total, true, 0);
        first_covering_is_a_place(ids, instances, random as int % total, false, 0);
    }
    let place = chosen_place(strategy, ids, instances, address, turns, random);
    assert(ids.contains(ids[place]));
    filter_is_from(order, up, ids[place]);
}

proof fn filter_is_from(list: Seq<Seq<char>>, keeps: spec_fn(Seq<char>) -> bool, item: Seq<char>)
    requires
        list.filter(keeps).contains(item),
    ensures
        list.contains(item),
        keeps(item),
    decreases list.len(),
{
    reveal(Seq::filter);
    if list.len() > 0 {
        let rest = list.drop_last();
        if item == list.last() && keeps(item) {
            assert(list[list.len() - 1] == item);
        } else {
            let i = list.filter(keeps).index_of(item);
            if keeps(list.last()) {
                assert(list.filter(keeps) == rest.filter(keeps).push(list.last()));
                assert(rest.filter(keeps)[i] == item);
            }
            assert(rest.filter(keeps).contains(item));
            filter_is_from(rest, keeps, item);
            let j = rest.index_of(item);
            assert(list[j] == item);
        }
    }
}

/// Round robin gives each of the healthy instances its turn: `n` turns in a row,
/// where `n` are healthy, go to `n` different places.
pub proof fn round_robin_is_fair(
    ids: Seq<Seq<char>>,
    instances: Map<Seq<char>, InstanceModel>,
    address: Seq<char>,
    random: u32,
    turns: int,
    i: int,
    j: int,
)
    requires
        turns >= 0,
        0 <= i < j < ids.len(),
    ensures
        chosen_place(Strategy::RoundRobin, ids, instances, address, turns + i, random)
            != chosen_place(Strategy::RoundRobin, ids, instances, address, turns + j, random),
{
    let n = ids.len() as int;
    if (turns + i) % n == (turns + j) % n {
        let p = (turns + i) / n;
        let q = (turns + j) / n;
        vstd::arithmetic::div_mod::lemma_fundamental_div_mod(turns + i, n);
        vstd::arithmetic::div_mod::lemma_fundamental_div_mod(turns + j, n);
        assert(j - i == n * q - n * p);
        assert(false) by (nonlinear_arith)
            requires
                j - i == n * q - n * p,
                0 < j - i < n,
        ;
    }
}

proof fn weight_sums_grow(
    ids: Seq<Seq<char>>,
    instances: Map<Seq<char>, InstanceModel>,
    m: int,
    n: int,
)
    requires
        0 <= m <= n <= ids.len(),
        forall|k: int| 0 <= k < ids.len() ==> instances[#[trigger] ids[k]].weight >= 0,
    ensures
        0 <= weight_of_first(ids, instances, m) <= weight_of_first(ids, instances, n),
    decreases n,
{
    if n > 0 {
        if m == n {
            weight_sums_grow(ids, instances, m - 1, m - 1);
            assert(instances[ids[m - 1]].weight >= 0);
        } else {
            weight_sums_grow(ids, instances, m, n - 1);
            assert(instances[ids[n - 1]].weight >= 0);
        }
    }
}

proof fn covering_place_of(
    ids: Seq<Seq<char>>,
    instances: Map<Seq<char>, InstanceModel>,
    value: int,
    unsigned: bool,
    from: int,
    at: int,
)
    requires
        0 <= from <= at < ids.len(),
        forall|k: int| 0 <= k < ids.len() ==> instances[#[trigger] ids[k]].weight >= 0,
        weight_of_first(ids, instances, at) <= value < weight_of_first(ids, instances, at + 1),
    ensures
        first_covering(ids, instances, value, unsigned, from) == at,
    decreases at - from,
{
    weight_sums_grow(ids, instances, from + 1, ids.len() as int);
    if from < at {
        weight_sums_grow(ids, instances, from + 1, at);
        covering_place_of(ids, instances, value, unsigned, from + 1, at);
    }
}

/// Weighted choices follow the weights: where no weight is negative, the instance
/// at a place is chosen for exactly as many drawn values as it weighs, namely
/// those from the sum of the weights before it on.
pub proof fn weighted_choice_follows_weights(
    ids: Seq<Seq<char>>,
    instances: Map<Seq<char>, InstanceModel>,
    value: int,
    unsigned: bool,
    at: int,
)
    requires
        0 <= at < ids.len(),
        forall|k: int| 0 <= k < ids.len() ==> instances[#[trigger] ids[k]].weight >= 0,
        weight_of_first(ids, instances, at) <= value < weight_of_first(ids, instances, at)
            + instances[ids[at]].weight,
    ensures
        first_covering(ids, instances, value, unsigned, 0) == at,
{
    covering_place_of(ids, instances, value, unsigned, 0, at);
}

/// How many of `n` turns in a row, `turns` having been taken before them, go to the
/// instance at a place by weighted round robin.
pub open spec fn turns_given(
    ids: Seq<Seq<char>>,
    instances: Map<Seq<char>, InstanceModel>,
    address: Seq<char>,
    random: u32,
    turns: int,
    n: nat,
    at: int,
) -> nat
    decreases n,
{
    if n == 0 {
        0
    } else {
        let before = turns_given(ids, instances, address, random, turns, (n - 1) as nat, at);
        let last = chosen_place(
            Strategy::WeightedRoundRobin,
            ids,
            instances,
            address,
            turns + n - 1,
            random,
        );
        if last == at {
            before + 1
        } else {
            before
        }
    }
}

/// Where no weight is negative, a value below the total is covered by the place
/// between whose sums of weights it lies.
proof fn covered_value_lies_between(
    ids: Seq<Seq<char>>,
    instances: Map<Seq<char>, InstanceModel>,
    value: int,
    unsigned: bool,
    from: int,
)
    requires
        0 <= from < ids.len(),
        forall|k: int| 0 <= k < ids.len() ==> instances[#[trigger] ids[k]].weight >= 0,
        weight_of_first(ids, instances, from) <= value < weight_of_first(
            ids,
            instances,
            ids.len() as int,
        ),
    ensures
        ({
            let at = first_covering(ids, instances, value, unsigned, from);
            from <= at < ids.len() && weight_of_first(ids, instances, at) <= value
                < weight_of_first(ids, instances, at + 1)
        }),
    decreases ids.len() - from,
{
    weight_sums_grow(ids, instances, from + 1, ids.len() as int);
    if !covers(weight_of_first(ids, instances, from + 1), value, unsigned) {
        assert(from + 1 < ids.len());
        covered_value_lies_between(ids, instances, value, unsigned, from + 1);
    }
}

/// How many of the numbers below `m` leave, divided by `total`, a rest from `low` up
/// to `low + weight`.
spec fn rests_below(m: int, total: int, low: int, weight: int) -> int {
    let rest = m % total;
    (m / total) * weight + (if rest <= low {
        0
    } else if rest >= low + weight {
        weight
    } else {
        rest - low
    })
}

proof fn one_more_rest(m: int, total: int, low: int, weight: int)
    requires
        m >= 0,
        total > 0,
        0 <= low,
        0 <= weight,
        low + weight <= total,
    ensures
        rests_below(m + 1, total, low, weight) == rests_below(m, total, low, weight) + (if low <= m
            % total < low + weight {
            1int
        } else {
            0
        }),
{
    let q = m / total;
    let r = m % total;
    vstd::arithmetic::div_mod::lemma_fundamental_div_mod(m, total);
    assert(0 <= r < total);
    if r + 1 < total {
        assert(m + 1 == q * total + (r + 1)) by (nonlinear_arith)
            requires
                m == total * q + r,
        ;
        vstd::arithmetic::div_mod::lemma_fundamental_div_mod_converse(m + 1, total, q, r + 1);
    } else {
        assert(m + 1 == (q + 1) * total) by (nonlinear_arith)
            requires
                m == total * q + r,
                r + 1 == total,
        ;
        vstd::arithmetic::div_mod::lemma_fundamental_div_mod_converse(m + 1, total, q + 1, 0);
        assert((q + 1) * weight == q * weight + weight) by (nonlinear_arith);
    }
}

proof fn turns_are_rests(
    ids: Seq<Seq<char>>,
    instances: Map<Seq<char>, InstanceModel>,
    address: Seq<char>,
    random: u32,
    turns: int,
    n: nat,
    at: int,
)
    requires
        turns >= 0,
        0 <= at < ids.len(),
        forall|k: int| 0 <= k < ids.len() ==> instances[#[trigger] ids[k]].weight >= 0,
        weight_of_first(ids, instances, ids.len() as int) > 0,
    ensures
        ({
            let total = weight_of_first(ids, instances, ids.len() as int);
            let low = weight_of_first(ids, instances, at);
            let weight = instances[ids[at]].weight as int;
            turns_given(ids, instances, address, random, turns, n, at) == rests_below(
                turns + n,
                total,
                low,
                weight,
            ) - rests_below(turns, total, low, weight)
        }),
    decreases n,
{
    if n > 0 {
        let total = weight_of_first(ids, instances, ids.len() as int);
        let low = weight_of_first(ids, instances, at);
        let weight = instances[ids[at]].weight as int;
        let m = turns + n - 1;
        turns_are_rests(ids, instances, address, random, turns, (n - 1) as nat, at);
        weight_sums_grow(ids, instances, at + 1, ids.len() as int);
        weight_sums_grow(ids, instances, at, at);
        assert(weight_of_first(ids, instances, at + 1) == low + weight);
        one_more_rest(m, total, low, weight);
        let value = m % total;
        assert(0 <= value < total) by {
            vstd::arithmetic::div_mod::lemma_fundamental_div_mod(m, total);
        }
        assert(weight_of_first(ids, instances, 0) == 0);
        covered_value_lies_between(ids, instances, value, true, 0);
        if low <= value < low + weight {
            covering_place_of(ids, instances, value, true, 0, at);
        }
    }
}

/// Weighted round robin is fair: where no weight is negative, of as many turns in a
/// row as the healthy instances weigh together, each gets as many as it weighs, so
/// that one without weight gets none.
pub proof fn weighted_round_robin_is_fair(
    ids: Seq<Seq<char>>,
    instances: Map<Seq<char>, InstanceModel>,
    address: Seq<char>,
    random: u32,
    turns: int,
    at: int,
)
    requires
        turns >= 0,
        0 <= at < ids.len(),
        forall|k: int| 0 <= k < ids.len() ==> instances[#[trigger] ids[k]].weight >= 0,
        weight_of_first(ids, instances, ids.len() as int) > 0,
    ensures
        turns_given(
            ids,
            instances,
            address,
            random,
            turns,
            weight_of_first(ids, instances, ids.len() as int) as nat,
            at,
        ) == instances[ids[at]].weight,
{
    let total = weight_of_first(ids, instances, ids.len() as int);
    let low = weight_of_first(ids, instances, at);
    let weight = instances[ids[at]].weight as int;
    turns_are_rests(ids, instances, address, random, turns, total as nat, at);
    let q = turns / total;
    let r = turns % total;
    vstd::arithmetic::div_mod::lemma_fundamental_div_mod(turns, total);
    assert(turns + total == (q + 1) * total + r) by (nonlinear_arith)
        requires
            turns == total * q + r,
    ;
    vstd::arithmetic::div_mod::lemma_fundamental_div_mod_converse(turns + total, total, q + 1, r);
    assert((q + 1) * weight == q * weight + weight) by (nonlinear_arith);
}

/// How many of `n` random numbers in a row, from `first` on, make weighted random
/// choices fall on the instance at a place.
pub open spec fn draws_given(
    ids: Seq<Seq<char>>,
    instances: Map<Seq<char>, InstanceModel>,
    address: Seq<char>,
    turns: int,
    first: int,
    n: nat,
    at: int,
) -> nat
    decreases n,
{
    if n == 0 {
        0
    } else {
        let before = draws_given(ids, instances, address, turns, first, (n - 1) as nat, at);
        let last = chosen_place(
            Strategy::WeightedRandom,
            ids,
            instances,
            address,
            turns,
            (first + n - 1) as u32,
        );
        if last == at {
            before + 1
        } else {
            before
        }
    }
}

proof fn draws_are_rests(
    ids: Seq<Seq<char>>,
    instances: Map<Seq<char>, InstanceModel>,
    address: Seq<char>,
    turns: int,
    first: int,
    n: nat,
    at: int,
)
    requires
        0 <= first,
        first + n <= 0x1_0000_0000,
        0 <= at < ids.len(),
        forall|k: int| 0 <= k < ids.len() ==> instances[#[trigger] ids[k]].weight >= 0,
        weight_of_first(ids, instances, ids.len() as int) > 0,
    ensures
        ({
            let total = weight_of_first(ids, instances, ids.len() as int);
            let low = weight_of_first(ids, instances, at);
            let weight = instances[ids[at]].weight as int;
            draws_given(ids, instances, address, turns, first, n, at) == rests_below(
                first + n,
                total,
                low,
                weight,
            ) - rests_below(first, total, low, weight)
        }),
    decreases n,
{
    if n > 0 {
        let total = weight_of_first(ids, instances, ids.len() as int);
        let low = weight_of_first(ids, instances, at);
        let weight = instances[ids[at]].weight as int;
        let m = first + n - 1;
        draws_are_rests(ids, instances, address, turns, first, (n - 1) as nat, at);
        weight_sums_grow(ids, instances, at + 1, ids.len() as int);
        weight_sums_grow(ids, instances, at, at);
        assert(weight_of_first(ids, instances, at + 1) == low + weight);
        one_more_rest(m, total, low, weight);
        let value = m % total;
        assert(0 <= value < total) by {
            vstd::arithmetic::div_mod::lemma_fundamental_div_mod(m, total);
        }
        assert(weight_of_first(ids, instances, 0) == 0);
        covered_value_lies_between(ids, instances, value, false, 0);
        if low <= value < low + weight {
            covering_place_of(ids, instances, value, false, 0, at);
        }
    }
}

/// Weighted random choices are fair: where no weight is negative, of as many random
/// numbers in a row as the healthy instances weigh together, as many choose each as
/// it weighs, so that none chooses one without weight.
pub proof fn weighted_random_is_fair(
    ids: Seq<Seq<char>>,
    instances: Map<Seq<char>, InstanceModel>,
    address: Seq<char>,
    turns: int,
    first: int,
    at: int,
)
    requires
        0 <= first,
        first + weight_of_first(ids, instances, ids.len() as int) <= 0x1_0000_0000,
        0 <= at < ids.len(),
        forall|k: int| 0 <= k < ids.len() ==> instances[#[trigger] ids[k]].weight >= 0,
        weight_of_first(ids, instances, ids.len() as int) > 0,
    ensures
        draws_given(
            ids,
            instances,
            address,
            turns,
            first,
            weight_of_first(ids, instances, ids.len() as int) as nat,
            at,
        ) == instances[ids[at]].weight,
{
    let total = weight_of_first(ids, instances, ids.len() as int);
    let low = weight_of_first(ids, instances, at);
    let weight = instances[ids[at]].weight as int;
    draws_are_rests(ids, instances, address, turns, first, total as nat, at);
    let q = first / total;
    let r = first % total;
    vstd::arithmetic::div_mod::lemma_fundamental_div_mod(first, total);
    assert(first + total == (q + 1) * total + r) by (nonlinear_arith)
        requires
            first == total * q + r,
    ;
    vstd::arithmetic::div_mod::lemma_fundamental_div_mod_converse(first + total, total, q + 1, r);
    assert((q + 1) * weight == q * weight + weight) by (nonlinear_arith);
}

/// A weighted choice falls on the place between whose sums of weights the turn or the
/// random number lies, after any number of whole rounds: the first instance has the
/// first numbers of a round, the last one the last.
pub proof fn weighted_choices_go_round_in_order(
    ids: Seq<Seq<char>>,
    instances: Map<Seq<char>, InstanceModel>,
    address: Seq<char>,
    rounds: int,
    value: int,
    at: int,
    turns: int,
    random: u32,
)
    requires
        rounds >= 0,
        0 <= at < ids.len(),
        forall|k: int| 0 <= k < ids.len() ==> instances[#[trigger] ids[k]].weight >= 0,
        0 <= value < instances[ids[at]].weight,
        turns == rounds * weight_of_first(ids, instances, ids.len() as int) + weight_of_first(
            ids,
            instances,
            at,
        ) + value,
    ensures
        chosen_place(Strategy::WeightedRoundRobin, ids, instances, address, turns, random) == at,
        turns <= u32::MAX ==> chosen_place(
            Strategy::WeightedRandom,
            ids,
            instances,
            address,
            0,
            turns as u32,
        ) == at,
{
    let total = weight_of_first(ids, instances, ids.len() as int);
    let low = weight_of_first(ids, instances, at);
    weight_sums_grow(ids, instances, at + 1, ids.len() as int);
    weight_sums_grow(ids, instances, at, at);
    assert(weight_of_first(ids, instances, at + 1) == low + instances[ids[at]].weight);
    assert(turns == rounds * total + (low + value));
    assert(turns >= 0) by (nonlinear_arith)
        requires
            turns == rounds * total + (low + value),
            rounds >= 0,
            total >= 0,
            low >= 0,
            value >= 0,
    ;
    vstd::arithmetic::div_mod::lemma_fundamental_div_mod_converse(turns, total, rounds, low + value);
    covering_place_of(ids, instances, low + value, true, 0, at);
    covering_place_of(ids, instances, low + value, false, 0, at);
}

proof fn covering_place_is_not_before(
    ids: Seq<Seq<char>>,
    instances: Map<Seq<char>, InstanceModel>,
    value: int,
    unsigned: bool,
    from: int,
)
    requires
        0 <= from < ids.len(),
        value < weight_of_first(ids, instances, ids.len() as int),
    ensures
        from <= first_covering(ids, instances, value, unsigned, from) < ids.len(),
    decreases ids.len() - from,
{
    if !covers(weight_of_first(ids, instances, from + 1), value, unsigned) {
        covering_place_is_not_before(ids, instances, value, unsigned, from + 1);
    }
}

/// Where the first of the healthy instances has a negative weight, but all together have
/// weight, weighted round robin always chooses it, as a negative sum counts as larger
/// than every turn; a weighted random choice never does.
pub proof fn negative_sums_count_as_large_in_turns(
    ids: Seq<Seq<char>>,
    instances: Map<Seq<char>, InstanceModel>,
    address: Seq<char>,
    turns: int,
    random: u32,
)
    requires
        ids.len() > 0,
        turns >= 0,
        instances[ids[0]].weight < 0,
        weight_of_first(ids, instances, ids.len() as int) > 0,
    ensures
        chosen_place(Strategy::WeightedRoundRobin, ids, instances, address, turns, random) == 0,
        chosen_place(Strategy::WeightedRandom, ids, instances, address, turns, random) > 0,
{
    let total = weight_of_first(ids, instances, ids.len() as int);
    assert(weight_of_first(ids, instances, 0) == 0);
    assert(weight_of_first(ids, instances, 1) == instances[ids[0]].weight);
    let value = random as int % total;
    assert(0 <= value < total) by {
        vstd::arithmetic::div_mod::lemma_fundamental_div_mod(random as int, total);
    }
    assert(ids.len() > 1);
    covering_place_is_not_before(ids, instances, value, false, 1);
}

/// Round robin starts with the first of the healthy instances and goes on to the next
/// one each time, from the last to the first.
pub proof fn round_robin_goes_round_in_order(
    ids: Seq<Seq<char>>,
    instances: Map<Seq<char>, InstanceModel>,
    address: Seq<char>,
    random: u32,
    turns: int,
)
    requires
        ids.len() > 0,
        turns >= 0,
    ensures
        chosen_place(Strategy::RoundRobin, ids, instances, address, 0, random) == 0,
        ({
            let place = chosen_place(Strategy::RoundRobin, ids, instances, address, turns, random);
            let next = chosen_place(Strategy::RoundRobin, ids, instances, address, turns + 1, random);
            next == (if place == ids.len() - 1 {
                0
            } else {
                place + 1
            })
        }),
{
    let n = ids.len() as int;
    let q = turns / n;
    let r = turns % n;
    vstd::arithmetic::div_mod::lemma_fundamental_div_mod(turns, n);
    if r + 1 < n {
        assert(turns + 1 == q * n + (r + 1)) by (nonlinear_arith)
            requires
                turns == n * q + r,
        ;
        vstd::arithmetic::div_mod::lemma_fundamental_div_mod_converse(turns + 1, n, q, r + 1);
    } else {
        assert(turns + 1 == (q + 1) * n) by (nonlinear_arith)
            requires
                turns == n * q + r,
                r + 1 == n,
        ;
        vstd::arithmetic::div_mod::lemma_fundamental_div_mod_converse(turns + 1, n, q + 1, 0);
    }
    vstd::arithmetic::div_mod::lemma_small_mod(0, n as nat);
}

/// The address decides alone where it is hashed: turns, random numbers and weights do
/// not matter, and the choice is the rest of the hash of the address, taken as text
/// with its end mark.
pub proof fn hashed_choice_sticks_to_the_address(
    ids: Seq<Seq<char>>,
    instances: Map<Seq<char>, InstanceModel>,
    other_instances: Map<Seq<char>, InstanceModel>,
    address: Seq<char>,
    turns: int,
    other_turns: int,
    random: u32,
    other_random: u32,
)
    requires
        ids.len() > 0,
    ensures
        ({
            let place = chosen_place(Strategy::IpHash, ids, instances, address, turns, random);
            let hash = DefaultHasher::spec_finish(seq![encode_utf8(address), seq![0xffu8]]) as int;
            &&& place == chosen_place(
                Strategy::IpHash,
                ids,
                other_instances,
                address,
                other_turns,
                other_random,
            )
            &&& 0 <= place < ids.len()
            &&& exists|rounds: int| hash == #[trigger] (rounds * ids.len()) + place
        }),
{
    let n = ids.len() as int;
    let hash = DefaultHasher::spec_finish(seq![encode_utf8(address), seq![0xffu8]]) as int;
    vstd::arithmetic::div_mod::lemma_fundamental_div_mod(hash, n);
    let rounds = hash / n;
    assert(n * rounds == rounds * n) by (nonlinear_arith);
    assert(hash == rounds * ids.len() + hash % n);
}

/// Three names stand for the other strategies, letter for letter; every other name
/// stands for round robin.
pub proof fn strategies_have_one_name_each(name: Seq<char>)
    ensures
        strategy_named(name) == Strategy::WeightedRoundRobin <==> name == "WEIGHTED_ROUND_ROBIN"@,
        strategy_named(name) == Strategy::WeightedRandom <==> name == "WEIGHTED_RANDOM"@,
        strategy_named(name) == Strategy::IpHash <==> name == "IP_HASH"@,
{
    reveal_strlit("WEIGHTED_ROUND_ROBIN");
    reveal_strlit("WEIGHTED_RANDOM");
    reveal_strlit("IP_HASH");
    assert("WEIGHTED_ROUND_ROBIN"@.len() == 20);
    assert("WEIGHTED_RANDOM"@.len() == 15);
    assert("IP_HASH"@.len() == 7);
}

/// An instance is among the healthy ones exactly when the service has it and it is up,
/// and they come in the order of the service.
pub proof fn healthy_are_those_that_are_up(
    order: Seq<Seq<char>>,
    instances: Map<Seq<char>, InstanceModel>,
    id: Seq<char>,
)
    ensures
        up_ids(order, instances).contains(id) <==> order.contains(id) && instances[id].status
            == InstanceStatus::Up,
        (forall|k: int|
            0 <= k < order.len() ==> instances[#[trigger] order[k]].status == InstanceStatus::Up)
            ==> up_ids(order, instances) == order,
        up_ids(order.push(id), instances) == (if instances[id].status == InstanceStatus::Up {
            up_ids(order, instances).push(id)
        } else {
            up_ids(order, instances)
        }),
{
    let up = |k: Seq<char>| instances[k].status == InstanceStatus::Up;
    if up_ids(order, instances).contains(id) {
        filter_is_from(order, up, id);
    }
    if order.contains(id) && instances[id].status == InstanceStatus::Up {
        filter_takes_all(order, up, id);
    }
    if forall|k: int|
        0 <= k < order.len() ==> instances[#[trigger] order[k]].status == InstanceStatus::Up {
        filter_keeps_all(order, up);
    }
    reveal(Seq::filter);
    assert(order.push(id).drop_last() =~= order);
}

proof fn filter_takes_all(list: Seq<Seq<char>>, keeps: spec_fn(Seq<char>) -> bool, item: Seq<char>)
    requires
        list.contains(item),
        keeps(item),
    ensures
        list.filter(keeps).contains(item),
    decreases list.len(),
{
    reveal(Seq::filter);
    let rest = list.drop_last();
    if item == list.last() {
        assert(list.filter(keeps) == rest.filter(keeps).push(item));
        assert(list.filter(keeps)[rest.filter(keeps).len() as int] == item);
    } else {
        let i = list.index_of(item);
        assert(rest[i] == item);
        filter_takes_all(rest, keeps, item);
        let j = rest.filter(keeps).index_of(item);
        assert(list.filter(keeps)[j] == item);
    }
}

proof fn filter_keeps_all(list: Seq<Seq<char>>, keeps: spec_fn(Seq<char>) -> bool)
    requires
        forall|k: int| 0 <= k < list.len() ==> keeps(#[trigger] list[k]),
    ensures
        list.filter(keeps) == list,
    decreases list.len(),
{
    reveal(Seq::filter);
    if list.len() > 0 {
        let rest = list.drop_last();
        assert forall|k: int| 0 <= k < rest.len() implies keeps(#[trigger] rest[k]) by {
            assert(rest[k] == list[k]);
        }
        assert(keeps(list[list.len() - 1]));
        filter_keeps_all(rest, keeps);
        assert(list =~= rest.push(list.last()));
    } else {
        assert(list.filter(keeps) =~= list);
    }
}

/// What is picked is an instance of the service that is up; where none is, the answer
/// is 503, and no turn is taken.
pub proof fn pick_is_an_instance_that_is_up(
    counters: Map<Seq<char>, usize>,
    counters_after: Map<Seq<char>, usize>,
    service: ServiceDefinition,
    strategy: Seq<char>,
    address: Seq<char>,
    service_id: Seq<char>,
    cache_counter: Option<i64>,
    random: u32,
    picked: Result<ServiceInstance, (u16, String)>,
)
    requires
        picked_with(
            counters,
            counters_after,
            service,
            strategy,
            address,
            service_id,
            cache_counter,
            random,
            picked,
        ),
    ensures
        ({
            let order = service.instances.order();
            let instances = service.instances@;
            match picked {
                Ok(instance) => exists|k: int|
                    0 <= k < order.len() && instance@ == instances[#[trigger] order[k]] && instance@.status
                        == InstanceStatus::Up,
                Err((status, message)) => status == 503 && message@
                    == "No healthy instances available"@ && counters_after == counters && forall|k: int|
                    0 <= k < order.len() ==> instances[#[trigger] order[k]].status
                        != InstanceStatus::Up,
            }
        }),
{
    let order = service.instances.order();
    let instances = service.instances@;
    let ids = healthy_ids(service);
    match picked {
        Ok(instance) => {
            let place = chosen_place(
                strategy_named(strategy),
                ids,
                instances,
                address,
                turns_before(counters, service_id, cache_counter),
                random,
            );
            assert(ids.contains(ids[place]));
            healthy_are_those_that_are_up(order, instances, ids[place]);
            let k = order.index_of(ids[place]);
            assert(order[k] == ids[place]);
        },
        Err(_) => {
            assert forall|k: int| 0 <= k < order.len() implies instances[#[trigger] order[k]].status
                != InstanceStatus::Up by {
                assert(order.contains(order[k]));
                healthy_are_those_that_are_up(order, instances, order[k]);
            }
        },
    }
}

/// The handler counts the turns of each service for itself, from none on, one at a
/// time, where the shared cache gives no ticket; a ticket counts from one.
pub proof fn turns_are_counted_per_service(
    counters: Map<Seq<char>, usize>,
    service_id: Seq<char>,
    other: Seq<char>,
    ticket: i64,
)
    requires
        ticket > 0,
    ensures
        turns_before(Map::empty(), service_id, None) == 0,
        turns_before(counters, service_id, None) < usize::MAX ==> turns_before(
            counted_up(counters, service_id),
            service_id,
            None,
        ) == turns_before(counters, service_id, None) + 1,
        turns_before(counters, service_id, None) == usize::MAX ==> turns_before(
            counted_up(counters, service_id),
            service_id,
            None,
        ) == 0,
        other != service_id ==> turns_before(counted_up(counters, service_id), other, None)
            == turns_before(counters, other, None),
        turns_before(counters, service_id, Some(ticket)) == ticket - 1,
        turns_before(counters, service_id, Some(0)) == turns_before(counters, service_id, None),
        turns_before(counters, service_id, Some((-ticket) as i64)) == turns_before(
            counters,
            service_id,
            None,
        ),
{
}

/// Whatever the strategy, what is picked is the instance at the chosen place among those
/// that are up, the turns being those that the shared cache or else the handler counts.
pub proof fn pick_is_the_chosen_instance(
    counters: Map<Seq<char>, usize>,
    counters_after: Map<Seq<char>, usize>,
    service: ServiceDefinition,
    strategy: Seq<char>,
    address: Seq<char>,
    service_id: Seq<char>,
    cache_counter: Option<i64>,
    random: u32,
    instance: ServiceInstance,
)
    requires
        picked_with(
            counters,
            counters_after,
            service,
            strategy,
            address,
            service_id,
            cache_counter,
            random,
            Ok(instance),
        ),
    ensures
        ({
            let instances = service.instances@;
            let ids = up_ids(service.instances.order(), instances);
            let turns: int = if cache_counter is Some && cache_counter->0 > 0 {
                cache_counter->0 - 1
            } else if counters.contains_key(service_id) {
                counters[service_id] as int
            } else {
                0
            };
            let used = if strategy == "WEIGHTED_ROUND_ROBIN"@ {
                Strategy::WeightedRoundRobin
            } else if strategy == "WEIGHTED_RANDOM"@ {
                Strategy::WeightedRandom
            } else if strategy == "IP_HASH"@ {
                Strategy::IpHash
            } else {
                Strategy::RoundRobin
            };
            let place = chosen_place(used, ids, instances, address, turns, random);
            0 <= place < ids.len() && instance@ == instances[ids[place]]
        }),
{
}

/// The handler's own counts stay as they were where the shared cache gives a ticket, and
/// where the address or a random number decides; and a pick never touches the count of
/// another service.
pub proof fn picks_count_only_turns_without_ticket(
    counters: Map<Seq<char>, usize>,
    counters_after: Map<Seq<char>, usize>,
    service: ServiceDefinition,
    strategy: Seq<char>,
    address: Seq<char>,
    service_id: Seq<char>,
    cache_counter: Option<i64>,
    random: u32,
    picked: Result<ServiceInstance, (u16, String)>,
    other: Seq<char>,
)
    requires
        picked_with(
            counters,
            counters_after,
            service,
            strategy,
            address,
            service_id,
            cache_counter,
            random,
            picked,
        ),
    ensures
        cache_counter is Some && cache_counter->0 > 0 ==> counters_after == counters,
        strategy == "IP_HASH"@ ==> counters_after == counters,
        strategy == "WEIGHTED_RANDOM"@ ==> counters_after == counters,
        other != service_id ==> counters_after.contains_key(other) == counters.contains_key(other),
        other != service_id && counters.contains_key(other) ==> counters_after[other]
            == counters[other],
{
    strategies_have_one_name_each(strategy);
}

/// Two picks by round robin one after the other, where the shared cache gives no
/// ticket: the second takes the next of the healthy instances, and from the last goes
/// to the first.
pub proof fn picks_take_turns(
    first: Map<Seq<char>, usize>,
    second: Map<Seq<char>, usize>,
    third: Map<Seq<char>, usize>,
    service: ServiceDefinition,
    strategy: Seq<char>,
    address: Seq<char>,
    service_id: Seq<char>,
    random: u32,
    earlier: ServiceInstance,
    later: ServiceInstance,
)
    requires
        strategy != "WEIGHTED_ROUND_ROBIN"@,
        strategy != "WEIGHTED_RANDOM"@,
        strategy != "IP_HASH"@,
        !first.contains_key(service_id),
        picked_with(
            first,
            second,
            service,
            strategy,
            address,
            service_id,
            None,
            random,
            Ok(earlier),
        ),
        picked_with(second, third, service, strategy, address, service_id, None, random, Ok(later)),
    ensures
        ({
            let ids = up_ids(service.instances.order(), service.instances@);
            &&& ids.len() > 0
            &&& earlier@ == service.instances@[ids[0]]
            &&& later@ == service.instances@[ids[if ids.len() == 1 {
                0
            } else {
                1
            }]]
        }),
{
    let ids = healthy_ids(service);
    round_robin_goes_round_in_order(ids, service.instances@, address, random, 0);
    turns_are_counted_per_service(first, service_id, service_id, 1);
}

/// Turns are taken by round robin wherever an instance is up, by weighted round robin
/// where those that are up have weight, and else by nobody; the two count apart, and
/// each service apart.
pub proof fn shared_turns_are_kept_apart(
    service_id: Seq<char>,
    other: Seq<char>,
    ids: Seq<Seq<char>>,
    instances: Map<Seq<char>, InstanceModel>,
    strategy: Strategy,
)
    requires
        ids.len() > 0,
    ensures
        turn_key(Strategy::RoundRobin, service_id) != turn_key(Strategy::WeightedRoundRobin, other),
        service_id != other ==> turn_key(strategy, service_id) != turn_key(strategy, other),
        takes_turns(Strategy::RoundRobin, ids, instances),
        !takes_turns(Strategy::WeightedRandom, ids, instances),
        !takes_turns(Strategy::IpHash, ids, instances),
        (forall|k: int| 0 <= k < ids.len() ==> instances[#[trigger] ids[k]].weight > 0)
            ==> takes_turns(Strategy::WeightedRoundRobin, ids, instances),
        (forall|k: int| 0 <= k < ids.len() ==> instances[#[trigger] ids[k]].weight <= 0)
            ==> !takes_turns(Strategy::WeightedRoundRobin, ids, instances),
{
    reveal_strlit("balancer:rr:");
    reveal_strlit("balancer:wrr:");
    let rr = turn_key(Strategy::RoundRobin, service_id);
    let wrr = turn_key(Strategy::WeightedRoundRobin, other);
    assert(rr[9] == 'r' && wrr[9] == 'w');
    let prefix = if strategy == Strategy::WeightedRoundRobin {
        "balancer:wrr:"@
    } else {
        "balancer:rr:"@
    };
    if turn_key(strategy, service_id) == turn_key(strategy, other) {
        assert((prefix + service_id).skip(prefix.len() as int) =~= service_id);
        assert((prefix + other).skip(prefix.len() as int) =~= other);
    }
    if forall|k: int| 0 <= k < ids.len() ==> instances[#[trigger] ids[k]].weight > 0 {
        weight_sums_grow(ids, instances, ids.len() - 1, ids.len() - 1);
        assert(instances[ids[ids.len() - 1]].weight > 0);
    }
    if forall|k: int| 0 <= k < ids.len() ==> instances[#[trigger] ids[k]].weight <= 0 {
        light_sums_do_not_grow(ids, instances, ids.len() as int);
    }
}

proof fn light_sums_do_not_grow(
    ids: Seq<Seq<char>>,
    instances: Map<Seq<char>, InstanceModel>,
    n: int,
)
    requires
        0 <= n <= ids.len(),
        forall|k: int| 0 <= k < ids.len() ==> instances[#[trigger] ids[k]].weight <= 0,
    ensures
        weight_of_first(ids, instances, n) <= 0,
    decreases n,
{
    if n > 0 {
        light_sums_do_not_grow(ids, instances, n - 1);
        assert(instances[ids[n - 1]].weight <= 0);
    }
}

/// Where the healthy instances weigh nothing together, weighted choices always fall
/// on the first.
pub proof fn weightless_choice_is_the_first(
    ids: Seq<Seq<char>>,
    instances: Map<Seq<char>, InstanceModel>,
    address: Seq<char>,
    turns: int,
    random: u32,
)
    requires
        weight_of_first(ids, instances, ids.len() as int) <= 0,
    ensures
        chosen_place(Strategy::WeightedRoundRobin, ids, instances, address, turns, random) == 0,
        chosen_place(Strategy::WeightedRandom, ids, instances, address, turns, random) == 0,
{
}

/// Turns that are counted one after the other in the shared cache follow each other:
/// the first one of a fresh cache is the first turn, and each later one is the next.
pub proof fn turns_follow_each_other(
    first: GatewayCacheModel,
    second: GatewayCacheModel,
    third: GatewayCacheModel,
    counters: Map<Seq<char>, usize>,
    service_id: Seq<char>,
    key: Seq<char>,
    earlier: i64,
    later: i64,
)
    requires
        turn_counted(first, second, true, key, Some(earlier)),
        turn_counted(second, third, true, key, Some(later)),
        earlier > 0,
    ensures
        turns_before(counters, service_id, Some(later)) == turns_before(
            counters,
            service_id,
            Some(earlier),
        ) + 1,
        !first.entries.contains_key(reserved_key(first.namespace, key)) ==> turns_before(
            counters,
            service_id,
            Some(earlier),
        ) == 0,
{
    signed_decimal_reads_back(earlier);
}

/// The healthy instances of a service, as places in its order.
fn healthy_places(service: &ServiceDefinition) -> (list: PlaceList)
    ensures
        places_in(list).len() == healthy_ids(*service).len(),
        healthy_ids(*service).len() <= usize::MAX,
        forall|j: int|
            0 <= j < places_in(list).len() ==> (#[trigger] places_in(list)[j])
                < service.instances.order().len() && service.instances.order()[places_in(list)[j] as int]
                == healthy_ids(*service)[j],
{
    let mut list = new_places();
    let n = service.instances.len();
    let ghost order = service.instances.order();
    let ghost instances = service.instances@;
    let ghost up = |k: Seq<char>| instances[k].status == InstanceStatus::Up;
    let mut i: usize = 0;
    proof {
        reveal(Seq::filter);
        assert(order.take(0) =~= Seq::<Seq<char>>::empty());
    }
    while i < n
        invariant
            order == service.instances.order(),
            instances == service.instances@,
            up == (|k: Seq<char>| instances[k].status == InstanceStatus::Up),
            i <= n == order.len(),
            places_in(list).len() == order.take(i as int).filter(up).len(),
            places_in(list).len() <= i,
            forall|j: int|
                0 <= j < places_in(list).len() ==> (#[trigger] places_in(list)[j]) < i
                    && order[places_in(list)[j] as int] == order.take(i as int).filter(up)[j],
        decreases n - i,
    {
        proof {
            reveal(Seq::filter);
            assert(order.take(i + 1).drop_last() =~= order.take(i as int));
            assert(order.take(i + 1).last() == order[i as int]);
        }
        if service.instances.value_at(i).status == InstanceStatus::Up {
            push_place(&mut list, i);
        }
        i += 1;
    }
    proof {
        assert(order.take(n as int) =~= order);
    }
    list
}

/// The sum of the weights of the healthy instances.
fn total_weight(service: &ServiceDefinition, list: &PlaceList) -> (total: i128)
    requires
        places_in(*list).len() == healthy_ids(*service).len() <= usize::MAX,
        forall|j: int|
            0 <= j < places_in(*list).len() ==> (#[trigger] places_in(*list)[j])
                < service.instances.order().len() && service.instances.order()[places_in(*list)[j] as int]
                == healthy_ids(*service)[j],
    ensures
        total == weight_of_first(
            healthy_ids(*service),
            service.instances@,
            healthy_ids(*service).len() as int,
        ),
        total <= healthy_ids(*service).len() * 0x8000_0000,
{
    let ghost ids = healthy_ids(*service);
    let n = count_places(list);
    let mut total: i128 = 0;
    let mut i: usize = 0;
    while i < n
        invariant
            ids == healthy_ids(*service),
            places_in(*list).len() == ids.len() == n,
            forall|j: int|
                0 <= j < places_in(*list).len() ==> (#[trigger] places_in(*list)[j])
                    < service.instances.order().len()
                    && service.instances.order()[places_in(*list)[j] as int] == ids[j],
            i <= n,
            total == weight_of_first(ids, service.instances@, i as int),
            -(i * 0x8000_0000) <= total <= i * 0x8000_0000,
        decreases n - i,
    {
        let place: usize = place_at(list, i);
        total = total + service.instances.value_at(place).weight as i128;
        i += 1;
    }
    total
}

/// The place among the healthy instances whose running sum of weights covers a value.
fn covering_place(service: &ServiceDefinition, list: &PlaceList, value: i128, unsigned: bool) -> (place:
    usize)
    requires
        places_in(*list).len() == healthy_ids(*service).len() <= usize::MAX,
        healthy_ids(*service).len() > 0,
        forall|j: int|
            0 <= j < places_in(*list).len() ==> (#[trigger] places_in(*list)[j])
                < service.instances.order().len() && service.instances.order()[places_in(*list)[j] as int]
                == healthy_ids(*service)[j],
    ensures
        place < healthy_ids(*service).len(),
        place == first_covering(
            healthy_ids(*service),
            service.instances@,
            value as int,
            unsigned,
            0,
        ),
{
    let ghost ids = healthy_ids(*service);
    let n = count_places(list);
    let mut running: i128 = 0;
    let mut i: usize = 0;
    while i < n
        invariant
            ids == healthy_ids(*service),
            places_in(*list).len() == ids.len() == n,
            forall|j: int|
                0 <= j < places_in(*list).len() ==> (#[trigger] places_in(*list)[j])
                    < service.instances.order().len()
                    && service.instances.order()[places_in(*list)[j] as int] == ids[j],
            i <= n,
            running == weight_of_first(ids, service.instances@, i as int),
            -(i * 0x8000_0000) <= running <= i * 0x8000_0000,
            first_covering(ids, service.instances@, value as int, unsigned, 0) == first_covering(
                ids,
                service.instances@,
                value as int,
                unsigned,
                i as int,
            ),
        decreases n - i,
    {
        let place: usize = place_at(list, i);
        running = running + service.instances.value_at(place).weight as i128;
        if value < running || (unsigned && running < 0) {
            return i;
        }
        i += 1;
    }
    0
}

/// The place of a client address among some instances.
fn hashed_place(address: &str, n: usize) -> (place: usize)
    requires
        n > 0,
    ensures
        place == address_hash(address@) as int % n as int,
{
    let mut hasher = DefaultHasher::new();
    hasher.write(address.as_bytes());
    let end: [u8; 1] = [0xff];
    hasher.write(&end);
    proof {
        assert(end@ =~= seq![0xffu8]);
        assert(hasher@ =~= seq![encode_utf8(address@), seq![0xffu8]]);
    }
    let hash: u64 = hasher.finish();
    (hash as u128 % n as u128) as usize
}

/// The handler's own counters of turns, one per service.
pub struct ProxyHandler {
    counters: Table<usize>,
}

impl View for ProxyHandler {
    type V = Map<Seq<char>, usize>;

    closed spec fn view(&self) -> Map<Seq<char>, usize> {
        self.counters@
    }
}

impl Default for ProxyHandler {
    fn default() -> (handler: Self)
        ensures
            handler.wf(),
            handler@ == Map::<Seq<char>, usize>::empty(),
    {
        Self::new()
    }
}

impl ProxyHandler {
    /// The table of counters is in order.
    pub closed spec fn wf(&self) -> bool {
        self.counters.wf()
    }

    /// Creates a new proxy handler instance with per-service load-balancing counters.
    pub fn new() -> (handler: Self)
        ensures
            handler.wf(),
            handler@ == Map::<Seq<char>, usize>::empty(),
    {
        ProxyHandler { counters: Table::new() }
    }

    /// Takes a turn: the number of turns that were taken before it.
    fn take_turn(&mut self, service_id: &str, cache_counter: Option<i64>) -> (turns: u64)
        requires
            old(self).wf(),
        ensures
            final(self).wf(),
            turns == turns_before(old(self)@, service_id@, cache_counter),
            final(self)@ == (if is_ticket(cache_counter) {
                old(self)@
            } else {
                counted_up(old(self)@, service_id@)
            }),
    {
        if let Some(counter) = cache_counter {
            if counter > 0 {
                return (counter - 1) as u64;
            }
        }
        let at: usize = match self.counters.get(service_id) {
            Some(counter) => *counter,
            None => 0,
        };
        let next: usize = if at == usize::MAX {
            0
        } else {
            at + 1
        };
        self.counters.insert(service_id.to_owned(), next);
        at as u64
    }

    /// Chooses a healthy instance of a service, given the count of the shared
    /// cache, where there is one, and a random number.
    ///
    /// Where no instance is healthy, the answer is status 503 and a message.
    pub fn pick_with(
        &mut self,
        strategy: &str,
        address: &str,
        service_id: &str,
        service: &ServiceDefinition,
        cache_counter: Option<i64>,
        random: u32,
    ) -> (picked: Result<ServiceInstance, (u16, String)>)
        requires
            old(self).wf(),
        ensures
            final(self).wf(),
            picked_with(
                old(self)@,
                final(self)@,
                *service,
                strategy@,
                address@,
                service_id@,
                cache_counter,
                random,
                picked,
            ),
    {
        let list = healthy_places(service);
        let n = count_places(&list);
        if n == 0 {
            return Err((503, "No healthy instances available".to_owned()));
        }
        let ghost ids = healthy_ids(*service);
        let ghost instances = service.instances@;
        let place: usize = match parse_strategy(strategy) {
            Strategy::RoundRobin => {
                let turns: u64 = self.take_turn(service_id, cache_counter);
                (turns as u128 % n as u128) as usize
            },
            Strategy::IpHash => hashed_place(address, n),
            Strategy::WeightedRoundRobin => {
                let total: i128 = total_weight(service, &list);
                if total <= 0 {
                    0
                } else {
                    let turns: u64 = self.take_turn(service_id, cache_counter);
                    covering_place(service, &list, turns as i128 % total, true)
                }
            },
            Strategy::WeightedRandom => {
                let total: i128 = total_weight(service, &list);
                if total <= 0 {
                    0
                } else {
                    covering_place(service, &list, random as i128 % total, false)
                }
            },
        };
        let instance = service.instances.value_at(place_at(&list, place)).duplicate();
        Ok(instance)
    }

    /// The key of the shared counter that a choice uses, where it takes turns.
    pub fn counter_key(strategy: &str, service_id: &str, service: &ServiceDefinition) -> (key: Option<
        String,
    >)
        ensures
            key is Some == takes_turns(
                strategy_named(strategy@),
                healthy_ids(*service),
                service.instances@,
            ),
            key matches Some(k) ==> k@ == turn_key(strategy_named(strategy@), service_id@),
    {
        let list = healthy_places(service);
        if count_places(&list) == 0 {
            return None;
        }
        match parse_strategy(strategy) {
            Strategy::RoundRobin => Some(joined("balancer:rr:", service_id)),
            Strategy::WeightedRoundRobin => {
                if total_weight(service, &list) > 0 {
                    Some(joined("balancer:wrr:", service_id))
                } else {
                    None
                }
            },
            _ => None,
        }
    }

    /// Chooses a healthy instance of a service with the configured strategy. Turns
    /// are counted in the shared cache.
    pub fn pick_instance(
        &mut self,
        cache: &mut GatewayCache,
        strategy: &str,
        address: &str,
        service_id: &str,
        service: &ServiceDefinition,
    ) -> (picked: Result<ServiceInstance, (u16, String)>)
        requires
            old(self).wf(),
        ensures
            final(self).wf(),
            exists|cache_counter: Option<i64>, random: u32|
                #[trigger] picked_with(
                    old(self)@,
                    final(self)@,
                    *service,
                    strategy@,
                    address@,
                    service_id@,
                    cache_counter,
                    random,
                    picked,
                ) && turn_counted(
                    old(cache)@,
                    final(cache)@,
                    takes_turns(
                        strategy_named(strategy@),
                        healthy_ids(*service),
                        service.instances@,
                    ),
                    turn_key(strategy_named(strategy@), service_id@),
                    cache_counter,
                ),
    {
        let cache_counter: Option<i64> = match Self::counter_key(strategy, service_id, service) {
            Some(key) => cache.internal_incr(key.as_str(), 1),
            None => None,
        };
        let random: u32 = random_number();
        let picked = self.pick_with(strategy, address, service_id, service, cache_counter, random);
        proof {
            assert(picked_with(
                old(self)@,
                self@,
                *service,
                strategy@,
                address@,
                service_id@,
                cache_counter,
                random,
                picked,
            ));
        }
        picked
    }
}

/// The key of the shared counter of turns of a service.
pub open spec fn turn_key(strategy: Strategy, service_id: Seq<char>) -> Seq<char> {
    match strategy {
        Strategy::WeightedRoundRobin => "balancer:wrr:"@ + service_id,
        _ => "balancer:rr:"@ + service_id,
    }
}

/// Whether a choice is the one that a count and a random number lead to, and the
/// handler's own counters are what they then are.
pub open spec fn picked_with(
    counters: Map<Seq<char>, usize>,
    counters_after: Map<Seq<char>, usize>,
    service: ServiceDefinition,
    strategy: Seq<char>,
    address: Seq<char>,
    service_id: Seq<char>,
    cache_counter: Option<i64>,
    random: u32,
    picked: Result<ServiceInstance, (u16, String)>,
) -> bool {
    let ids = healthy_ids(service);
    let turns = turns_before(counters, service_id, cache_counter);
    let place = chosen_place(
        strategy_named(strategy),
        ids,
        service.instances@,
        address,
        turns,
        random,
    );
    &&& counters_after == (if takes_turns(
        strategy_named(strategy),
        ids,
        service.instances@,
    ) && !is_ticket(cache_counter) {
        counted_up(counters, service_id)
    } else {
        counters
    })
    &&& match picked {
        Ok(instance) => ids.len() > 0 && 0 <= place < ids.len() && instance@
            == service.instances@[ids[place]],
        Err((status, message)) => ids.len() == 0 && status == 503 && message@
            == "No healthy instances available"@,
    }
}

/// Whether a turn has been counted in the shared cache, where turns are taken,
/// and what it then counted.
pub open spec fn turn_counted(
    before: GatewayCacheModel,
    after: GatewayCacheModel,
    turning: bool,
    key: Seq<char>,
    cache_counter: Option<i64>,
) -> bool {
    if turning {
        let now = after.latest;
        let sum = counted(before.entries, reserved_key(before.namespace, key), now) + 1;
        &&& before.latest.ns() <= now.ns()
        &&& after.namespace == before.namespace
        &&& match cache_counter {
            Some(n) => n == sum && after.entries == stored(
                before.entries,
                reserved_key(before.namespace, key),
                signed_decimal(sum),
                None,
            ),
            None => sum > i64::MAX && after.entries == before.entries,
        }
    } else {
        cache_counter is None && after == before
    }
}

} // verus!
