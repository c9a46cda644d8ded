//! What holds across the operations of the gateway.

use crate::gateway::proxy::{
    first_value, hop_count, number_in, passes, upstream_header_map, with_added, with_forwarding,
    with_passed,
};
use crate::headers::{header_name_in, is_header_value, values_in, visible_text};
use crate::net::{
    canonical, is_gateway, is_localhost, is_this_machine, own_address, points_back,
    self_routing_by_text, IpAddress,
};
use crate::text::{decimal, decimal_reads_back, is_digits, trimmed, trimmed_end, trimmed_start};
use vstd::prelude::*;
use vstd::utf8::*;

verus! {

proof fn digits_are_visible(s: Seq<char>)
    requires
        is_digits(s),
    ensures
        is_header_value(encode_utf8(s)),
        visible_text(encode_utf8(s)) == Some(s),
        trimmed(s) == s,
{
    assert(is_ascii_chars(s));
    is_ascii_chars_encode_utf8(s);
    let bytes = encode_utf8(s);
    assert forall|i: int| 0 <= i < bytes.len() implies 48 <= #[trigger] bytes[i] <= 57 by {
        assert('0' <= s[i] <= '9');
    }
    assert forall|i: int| 0 <= i < bytes.len() implies bytes.map_values(|b: u8| b as char)[i]
        == s[i] by {
        assert(s[i] as u8 == bytes[i]);
        assert('0' <= s[i] <= '9');
    }
    assert(bytes.map_values(|b: u8| b as char) =~= s);
    assert('0' <= s[0] <= '9');
    assert('0' <= s[s.len() - 1] <= '9');
    assert(trimmed_start(s) == s);
    assert(trimmed_end(s) == s);
}

proof fn written_number_reads_back(n: nat, max: nat)
    requires
        n <= max,
    ensures
        number_in(Some(encode_utf8(decimal(n))), max) == Some(n),
{
    decimal_reads_back(n);
    digits_are_visible(decimal(n));
}

proof fn added_headers_leave_others(
    headers: Map<Seq<char>, Seq<Seq<u8>>>,
    order: Seq<Seq<char>>,
    added: Map<Seq<char>, Seq<char>>,
    name: Seq<char>,
)
    requires
        forall|i: int|
            0 <= i < order.len() ==> header_name_in(#[trigger] order[i]) != Some(name),
    ensures
        first_value(with_added(headers, order, added), name) == first_value(headers, name),
    decreases order.len(),
{
    if order.len() > 0 {
        let rest = order.drop_last();
        assert forall|i: int| 0 <= i < rest.len() implies header_name_in(#[trigger] rest[i]) != Some(
            name,
        ) by {
            assert(rest[i] == order[i]);
        }
        added_headers_leave_others(headers, rest, added, name);
        assert(header_name_in(order[order.len() - 1]) != Some(name));
    }
}

/// Hops are counted: the gateway that receives a forwarded request next reads the
/// hop count that was written into it, unless middleware writes another. So a
/// request that goes in circles is refused after three hops.
pub proof fn hops_are_counted(
    source: Map<Seq<char>, Seq<Seq<u8>>>,
    chain: Seq<char>,
    remote_port: u16,
    hops: u8,
    order: Seq<Seq<char>>,
    added: Map<Seq<char>, Seq<char>>,
)
    requires
        forall|i: int|
            0 <= i < order.len() ==> header_name_in(#[trigger] order[i]) != Some(
                "x-basilisk-proxy-hop"@,
            ),
    ensures
        hop_count(upstream_header_map(source, chain, remote_port, hops, order, added)) == hops,
{
    let name = "x-basilisk-proxy-hop"@;
    let start = with_forwarding(Map::empty(), chain, remote_port, hops);
    let passed = with_passed(start, source);
    decimal_reads_back(hops as nat);
    digits_are_visible(decimal(hops as nat));
    assert(start.contains_key(name));
    assert(start[name] == seq![encode_utf8(decimal(hops as nat))]);
    assert(!passes(name));
    assert(passed.contains_key(name));
    assert(passed[name] == values_in(start, name));
    assert(first_value(passed, name) == Some(encode_utf8(decimal(hops as nat))));
    added_headers_leave_others(passed, order, added, name);
    written_number_reads_back(hops as nat, 255);
}

/// A header of a request that concerns one connection only, or tells about its way,
/// reaches the upstream only as the gateway or middleware writes it.
pub proof fn private_headers_are_not_passed_on(
    source: Map<Seq<char>, Seq<Seq<u8>>>,
    other: Map<Seq<char>, Seq<Seq<u8>>>,
    target: Map<Seq<char>, Seq<Seq<u8>>>,
    name: Seq<char>,
)
    requires
        !passes(name),
    ensures
        first_value(with_passed(target, source), name) == first_value(
            with_passed(target, other),
            name,
        ),
{
}

/// A header that is passed on reaches the upstream with all its values, in order,
/// where nothing else writes it.
pub proof fn other_headers_are_passed_on(
    source: Map<Seq<char>, Seq<Seq<u8>>>,
    target: Map<Seq<char>, Seq<Seq<u8>>>,
    name: Seq<char>,
)
    requires
        passes(name),
        !target.contains_key(name),
        source.contains_key(name),
        source[name].len() > 0,
    ensures
        with_passed(target, source).contains_key(name),
        with_passed(target, source)[name] == source[name],
{
    assert(values_in(target, name) + values_in(source, name) =~= source[name]);
}

/// A gateway whose address stands for the machine itself takes its own port at
/// `localhost`, `127.0.0.1`, `::1` and `0.0.0.0` for itself.
pub proof fn localhost_on_own_port_is_the_gateway(
    uri: Seq<char>,
    gateway_ip: IpAddress,
    gateway_port: u16,
    resolved: Option<Seq<IpAddress>>,
)
    requires
        self_routing_by_text(uri, gateway_port) matches Some(host) && (is_localhost(host)
            || own_address(host) is Some),
        is_this_machine(canonical(gateway_ip)),
    ensures
        points_back(uri, gateway_ip, gateway_port, resolved),
{
}

/// Where the host of a target has to be looked up, one address of the machine itself
/// among those that were found makes it the gateway, whose own address stands for the
/// machine.
pub proof fn own_addresses_are_alike(
    uri: Seq<char>,
    gateway_ip: IpAddress,
    gateway_port: u16,
    resolved: Seq<IpAddress>,
    at: int,
)
    requires
        self_routing_by_text(uri, gateway_port) is Some,
        is_this_machine(canonical(gateway_ip)),
        0 <= at < resolved.len(),
        is_this_machine(canonical(resolved[at])),
    ensures
        points_back(uri, gateway_ip, gateway_port, Some(resolved)),
{
    assert(is_gateway(canonical(gateway_ip), resolved[at]));
}

/// No target on another port is taken for the gateway.
pub proof fn other_ports_are_not_the_gateway(
    uri: Seq<char>,
    gateway_ip: IpAddress,
    gateway_port: u16,
    resolved: Option<Seq<IpAddress>>,
)
    requires
        crate::net::target_of(uri) matches Some(target) ==> target.1 != gateway_port,
    ensures
        !points_back(uri, gateway_ip, gateway_port, resolved),
{
}

} // verus!
