//! What holds of addresses, subnets and the hosts and ports of URIs.

use crate::models::{base_uri, uri_host};
use crate::net::{
    after_scheme, canonical, host_and_port, in_subnet, is_local, is_localhost, is_loopback,
    is_gateway, is_this_machine, is_unspecified, own_address, points_back, port_or, same_family,
    subnet_of, target_of, IpAddress,
};
use crate::text::{
    after_prefix, ascii_lowered, decimal, decimal_reads_back, is_space, position_from,
    position_from_is_first, trimmed,
};
use crate::text_laws::{
    last_place_is_the_last, parts_are_found, splitting_takes_the_first, trimming_keeps_the_rest,
    unsigned_numbers_are_read,
};
use vstd::arithmetic::power2::pow2;
use vstd::prelude::*;

verus! {

/// The IPv4 address of four bytes.
pub open spec fn ipv4(a: u8, b: u8, c: u8, d: u8) -> IpAddress {
    IpAddress::V4((a * 0x100_0000 + b * 0x1_0000 + c * 0x100 + d) as u32)
}

/// Which IPv4 addresses are local, by their bytes: 10/8, 172.16/12, 192.168/16, 127/8,
/// 169.254/16 and 255.255.255.255.
pub proof fn local_ipv4_addresses(a: u8, b: u8, c: u8, d: u8)
    ensures
        is_local(ipv4(a, b, c, d)) <==> a == 10 || (a == 172 && b / 16 == 1) || (a == 192 && b
            == 168) || a == 127 || (a == 169 && b == 254) || (a == 255 && b == 255 && c == 255 && d
            == 255),
        is_loopback(ipv4(a, b, c, d)) <==> a == 127,
        is_unspecified(ipv4(a, b, c, d)) <==> a == 0 && b == 0 && c == 0 && d == 0,
        is_this_machine(ipv4(a, b, c, d)) <==> a == 127 || (a == 0 && b == 0 && c == 0 && d == 0),
{
}

/// Which IPv6 addresses are local, by their first sixteen bits and the rest: fe80::/10,
/// fc00::/7 and ::1.
pub proof fn local_ipv6_addresses(first: u16, rest: u128)
    requires
        rest < 0x1_0000_0000_0000_0000_0000_0000_0000,
    ensures
        ({
            let ip = IpAddress::V6(
                (first * 0x1_0000_0000_0000_0000_0000_0000_0000 + rest) as u128,
            );
            &&& is_local(ip) <==> first / 64 == 0x3fa || first / 512 == 0x7e || (first
                == 0 && rest == 1)
            &&& is_loopback(ip) <==> first == 0 && rest == 1
            &&& is_unspecified(ip) <==> first == 0 && rest == 0
        }),
{
}

/// An IPv4 address inside IPv6 counts as the IPv4 address; every other address stays as
/// it is.
pub proof fn mapped_addresses_count_as_ipv4(n: u32, m: u128)
    ensures
        canonical(IpAddress::V6((0xffff_0000_0000 + n) as u128)) == IpAddress::V4(n),
        canonical(IpAddress::V4(n)) == IpAddress::V4(n),
        m / 0x1_0000_0000 != 0xffff ==> canonical(IpAddress::V6(m)) == IpAddress::V6(m),
        canonical(canonical(IpAddress::V6(m))) == canonical(IpAddress::V6(m)),
{
}

/// An address lies in a subnet exactly when both are of one family and the network
/// parts, the first bits of the prefix length, are the same number.
pub proof fn subnets_share_their_first_bits(a: u32, b: u32, c: u128, d: u128, prefix_len: u8)
    ensures
        prefix_len <= 32 ==> (in_subnet(IpAddress::V4(a), IpAddress::V4(b), prefix_len) <==> a as int
            / pow2((32 - prefix_len) as nat) as int == b as int / pow2((32 - prefix_len) as nat) as int),
        prefix_len <= 128 ==> (in_subnet(IpAddress::V6(c), IpAddress::V6(d), prefix_len) <==> c as int
            / pow2((128 - prefix_len) as nat) as int == d as int / pow2(
            (128 - prefix_len) as nat,
        ) as int),
        !in_subnet(IpAddress::V4(a), IpAddress::V6(d), prefix_len),
        !in_subnet(IpAddress::V6(c), IpAddress::V4(b), prefix_len),
{
    if prefix_len == 0 {
        vstd::arithmetic::power2::lemma2_to64();
        vstd::arithmetic::power2::lemma2_to64_rest();
        assert(pow2(32) == 0x1_0000_0000);
        vstd::arithmetic::power2::lemma_pow2_adds(64, 64);
        assert(pow2(128) == 0x1_0000_0000_0000_0000_0000_0000_0000_0000);
        vstd::arithmetic::div_mod::lemma_basic_div(a as int, pow2(32) as int);
        vstd::arithmetic::div_mod::lemma_basic_div(b as int, pow2(32) as int);
        vstd::arithmetic::div_mod::lemma_basic_div(c as int, pow2(128) as int);
        vstd::arithmetic::div_mod::lemma_basic_div(d as int, pow2(128) as int);
    } else {
        if prefix_len <= 32 {
            let shift = (32 - prefix_len) as u32;
            vstd::bits::lemma_u32_shr_is_div(a, shift);
            vstd::bits::lemma_u32_shr_is_div(b, shift);
        }
        if prefix_len <= 128 {
            let shift = (128 - prefix_len) as u128;
            vstd::bits::lemma_u128_shr_is_div(c, shift);
            vstd::bits::lemma_u128_shr_is_div(d, shift);
        }
    }
}

/// A subnet is read from the address before the first slash and the number after it,
/// which must not be larger than the address has bits.
pub proof fn subnets_are_read(before: Seq<char>, n: nat, ip: IpAddress)
    requires
        !before.contains('/'),
    ensures
        ({
            let cidr = before.push('/') + decimal(n);
            let bits: nat = match ip {
                IpAddress::V4(_) => 32,
                IpAddress::V6(_) => 128,
            };
            &&& n <= bits ==> subnet_of(cidr, Some(ip)) == Ok::<(IpAddress, u8), Seq<char>>(
                (ip, n as u8),
            )
            &&& n > bits ==> subnet_of(cidr, Some(ip)) is Err
            &&& bits < n <= 255 ==> subnet_of(cidr, Some(ip)) == Err::<(IpAddress, u8), Seq<char>>(
                match ip {
                    IpAddress::V4(_) => "IPv4 CIDR prefix must be <= 32"@,
                    IpAddress::V6(_) => "IPv6 CIDR prefix must be <= 128"@,
                },
            )
            &&& n > 255 ==> subnet_of(cidr, Some(ip)) == Err::<(IpAddress, u8), Seq<char>>(
                "Invalid CIDR prefix"@,
            )
            &&& subnet_of(cidr, None) == Err::<(IpAddress, u8), Seq<char>>(
                "Invalid CIDR network IP"@,
            )
            &&& subnet_of(before, Some(ip)) == Err::<(IpAddress, u8), Seq<char>>(
                "CIDR must look like '<ip>/<prefix>'"@,
            )
        }),
{
    splitting_takes_the_first(before, '/', decimal(n));
    digits_are_trimmed(n);
    unsigned_numbers_are_read(n, 255, before, 0);
}

proof fn digits_are_trimmed(n: nat)
    ensures
        trimmed(decimal(n)) == decimal(n),
{
    decimal_reads_back(n);
    let s = decimal(n);
    assert('0' <= s[0] <= '9');
    assert('0' <= s[s.len() - 1] <= '9');
    trimming_keeps_the_rest(s);
}

proof fn digits_hold_no(n: nat, c: char)
    requires
        !('0' <= c <= '9'),
    ensures
        !decimal(n).contains(c),
{
    decimal_reads_back(n);
    if decimal(n).contains(c) {
        let i = decimal(n).index_of(c);
        assert('0' <= decimal(n)[i] <= '9');
    }
}

/// The host and the port of an authority are those that it was written with. The
/// default port counts where none is written; an IPv6 host stands in brackets.
pub proof fn authorities_are_read(host: Seq<char>, port: u16, default_port: u16)
    ensures
        !host.contains(':') && !"["@.is_prefix_of(host) ==> host_and_port(host, default_port) == (
            host,
            default_port,
        ),
        host.len() > 0 && !"["@.is_prefix_of(host) ==> host_and_port(
            host + ":"@ + decimal(port as nat),
            default_port,
        ) == (host, port),
        !host.contains(']') ==> host_and_port("["@ + host + "]"@, default_port) == (
            host,
            default_port,
        ),
        !host.contains(']') ==> host_and_port(
            "["@ + host + "]"@ + ":"@ + decimal(port as nat),
            default_port,
        ) == (host, port),
{
    reveal_strlit("[");
    reveal_strlit("]");
    reveal_strlit(":");
    let digits = decimal(port as nat);
    unsigned_numbers_are_read(port as nat, 65535, host, 0);
    if !"["@.is_prefix_of(host) {
        if host.len() > 0 && host[0] == '[' {
            assert("["@ =~= host.take(1));
            assert("["@.is_prefix_of(host));
        }
        if !host.contains(':') {
            last_place_is_the_last(host, ':', host);
        }
        if host.len() > 0 {
            let authority = host + ":"@ + digits;
            digits_hold_no(port as nat, ':');
            last_place_is_the_last(host, ':', digits);
            assert(authority =~= host.push(':') + digits);
            assert(authority[0] == host[0]);
            assert(authority.take(host.len() as int) =~= host);
            assert(authority.skip(host.len() as int + 1) =~= digits);
        }
    }
    if !host.contains(']') {
        let bare = "["@ + host + "]"@;
        let inside = bare.skip(1);
        assert(inside =~= host.push(']'));
        assert(host.push(']') + Seq::<char>::empty() =~= host.push(']'));
        bracket_ends(host, Seq::empty());
        let tail = inside.skip(host.len() as int + 1);
        assert(tail =~= Seq::<char>::empty());
        assert(!":"@.is_prefix_of(tail));
        assert(inside.take(host.len() as int) =~= host);
        let full = bare + ":"@ + digits;
        let within = full.skip(1);
        assert(within =~= host.push(']') + (":"@ + digits));
        bracket_ends(host, ":"@ + digits);
        assert(within.skip(host.len() as int + 1) =~= ":"@ + digits);
        assert(within.take(host.len() as int) =~= host);
        parts_are_found(host, ":"@, digits);
        assert(full[0] == '[');
        assert(bare[0] == '[');
    }
}

proof fn bracket_ends(host: Seq<char>, tail: Seq<char>)
    requires
        !host.contains(']'),
    ensures
        position_from(host.push(']') + tail, ']', 0) == host.len(),
{
    let s = host.push(']') + tail;
    position_from_is_first(s, ']', 0);
    assert(s[host.len() as int] == ']');
    let at = position_from(s, ']', 0);
    if at < host.len() {
        assert(host[at] == ']');
    }
}

/// What follows the scheme in a base URI.
pub open spec fn authority_of(host: Seq<char>, port: u16) -> Seq<char> {
    if port == 0 {
        uri_host(host)
    } else {
        uri_host(host) + ":"@ + decimal(port as nat)
    }
}

/// An authority holds no slash where its host holds none.
pub proof fn authorities_hold_no_slash(host: Seq<char>, port: u16)
    requires
        !host.contains('/'),
    ensures
        !authority_of(host, port).contains('/'),
{
    reveal_strlit("[");
    reveal_strlit("]");
    reveal_strlit(":");
    let inner = uri_host(host);
    assert forall|i: int| 0 <= i < inner.len() implies #[trigger] inner[i] != '/' by {
        if inner != host {
            assert(inner =~= seq!['['] + host + seq![']']);
            if 1 <= i <= host.len() {
                assert(inner[i] == host[i - 1]);
            }
        }
    }
    digits_hold_no(port as nat, '/');
    let digits = decimal(port as nat);
    let authority = authority_of(host, port);
    assert forall|i: int| 0 <= i < authority.len() implies #[trigger] authority[i] != '/' by {
        if i < inner.len() {
            assert(authority[i] == inner[i]);
        } else if i > inner.len() {
            assert(authority[i] == digits[i - inner.len() - 1]);
        }
    }
}

/// An authority is read back as the host and the port that it was made of.
pub proof fn authority_is_read(host: Seq<char>, port: u16, default_port: u16)
    requires
        host.len() > 0,
        !host.contains(']'),
        host[0] != '[',
    ensures
        host_and_port(authority_of(host, port), default_port) == (
            host,
            if port == 0 {
                default_port
            } else {
                port
            },
        ),
{
    reveal_strlit("[");
    assert(!"["@.is_prefix_of(host)) by {
        if "["@.is_prefix_of(host) {
            assert(host.take(1)[0] == '[');
        }
    }
    authorities_are_read(host, port, default_port);
}

proof fn scheme_is_taken_off(uri: Seq<char>, scheme: Seq<char>, rest: Seq<char>)
    requires
        scheme == "http"@ || scheme == "https"@,
        uri == scheme + "://"@ + rest,
    ensures
        after_scheme(uri) == Some(
            (
                rest,
                if scheme == "http"@ {
                    80u16
                } else {
                    443u16
                },
            ),
        ),
{
    assert("http"@ + "://"@ == "http://"@ && "https"@ + "://"@ == "https://"@ && "http"@ != "https"@)
        by {
        reveal_strlit("http");
        reveal_strlit("https");
        reveal_strlit("://");
        reveal_strlit("http://");
        reveal_strlit("https://");
        assert("http"@ + "://"@ =~= "http://"@);
        assert("https"@ + "://"@ =~= "https://"@);
        assert("http"@.len() == 4 && "https"@.len() == 5);
    }
    if scheme == "http"@ {
        prefix_is_taken_off("http://"@, rest);
    } else {
        prefix_is_taken_off("https://"@, rest);
        assert(uri[4] == 's') by {
            reveal_strlit("https://");
        }
        assert("http://"@.len() == 7 && "http://"@[4] == ':') by {
            reveal_strlit("http://");
        }
        assert(!"http://"@.is_prefix_of(uri));
    }
}

proof fn prefix_is_taken_off(prefix: Seq<char>, rest: Seq<char>)
    ensures
        after_prefix(prefix + rest, prefix) == Some(rest),
{
    assert((prefix + rest).skip(prefix.len() as int) =~= rest);
}

/// A URI points at the host and the port that it was made of, whatever path follows:
/// without a port at the default one of its scheme.
pub proof fn uris_point_where_they_were_made_for(
    scheme: Seq<char>,
    host: Seq<char>,
    port: u16,
    path: Seq<char>,
)
    requires
        scheme == "http"@ || scheme == "https"@,
        host.len() > 0,
        !host.contains('/'),
        !host.contains(']'),
        host[0] != '[',
    ensures
        target_of(base_uri(scheme, host, port) + "/"@ + path) == Some(
            (
                host,
                if port != 0 {
                    port
                } else if scheme == "http"@ {
                    80u16
                } else {
                    443u16
                },
            ),
        ),
        target_of(base_uri(scheme, host, port)) == target_of(
            base_uri(scheme, host, port) + "/"@ + path,
        ),
{
    reveal_strlit("/");
    let authority = authority_of(host, port);
    let rest = authority.push('/') + path;
    let uri = base_uri(scheme, host, port) + "/"@ + path;
    assert(uri =~= scheme + "://"@ + rest);
    scheme_is_taken_off(uri, scheme, rest);
    let bare = base_uri(scheme, host, port);
    assert(bare =~= scheme + "://"@ + authority);
    scheme_is_taken_off(bare, scheme, authority);
    authorities_hold_no_slash(host, port);
    splitting_takes_the_first(authority, '/', path);
    authority_is_read(host, port, 80);
    authority_is_read(host, port, 443);
}

/// A URI of another scheme points nowhere.
pub proof fn other_schemes_point_nowhere(uri: Seq<char>)
    requires
        !"http://"@.is_prefix_of(uri),
        !"https://"@.is_prefix_of(uri),
    ensures
        target_of(uri) is None,
{
}

/// The name of the machine itself may be written in small and capital letters.
pub proof fn localhost_in_any_letters(host: Seq<char>)
    ensures
        is_localhost("localhost"@),
        is_localhost("LOCALHOST"@),
        is_localhost(host) <==> ascii_lowered(host) == "localhost"@,
        is_localhost(host) ==> host.len() == 9,
        is_localhost(ascii_lowered(host)) == is_localhost(host),
{
    reveal_strlit("localhost");
    reveal_strlit("LOCALHOST");
    assert(ascii_lowered("localhost"@) =~= ascii_lowered("LOCALHOST"@));
    assert(ascii_lowered("localhost"@) =~= "localhost"@);
    assert(ascii_lowered(host).len() == host.len());
    assert(ascii_lowered(ascii_lowered(host)) =~= ascii_lowered(host));
}

/// A port that is not written as a number from 0 to 65535 gives way to the default one.
pub proof fn other_ports_give_way(host: Seq<char>, port: Seq<char>, n: nat, default_port: u16)
    requires
        host.len() > 0,
        host[0] != '[',
        !port.contains(':'),
        port.len() == 0 || exists|i: int|
            0 < i < port.len() && !('0' <= #[trigger] port[i] <= '9'),
    ensures
        host_and_port(host.push(':') + port, default_port) == (host, default_port),
        n > 65535 ==> port_or(decimal(n), default_port) == default_port,
        n <= 65535 ==> port_or(decimal(n), default_port) == n,
{
    let authority = host.push(':') + port;
    last_place_is_the_last(host, ':', port);
    assert(authority[0] == host[0]);
    assert(authority.take(host.len() as int) =~= host);
    assert(authority.skip(host.len() as int + 1) =~= port);
    if port.len() > 0 {
        let i = choose|i: int| 0 < i < port.len() && !('0' <= #[trigger] port[i] <= '9');
        unsigned_numbers_are_read(n, 65535, port, i);
    } else {
        assert(port =~= Seq::<char>::empty());
    }
    unsigned_numbers_are_read(n, 65535, port, 0);
}

/// Three addresses stand for the machine itself when they are written as the host of a
/// target, all others have to be looked up.
pub proof fn own_addresses_are_three(host: Seq<char>)
    ensures
        own_address(host) is Some <==> host == "127.0.0.1"@ || host == "0.0.0.0"@ || host == "::1"@,
        own_address(host) matches Some(ip) ==> is_this_machine(ip),
        own_address("127.0.0.1"@) == Some(ipv4(127, 0, 0, 1)),
{
}

/// A target on the port of the gateway points back at it where its host is looked up and
/// found to be the address of the gateway; where no address that was found is that of
/// the gateway, and none is one of the machine itself, it does not.
pub proof fn looked_up_targets_point_back_when_found(
    uri: Seq<char>,
    host: Seq<char>,
    gateway_ip: IpAddress,
    gateway_port: u16,
    resolved: Seq<IpAddress>,
    at: int,
)
    requires
        target_of(uri) == Some((host, gateway_port)),
        !is_localhost(host),
        host != "127.0.0.1"@,
        host != "0.0.0.0"@,
        host != "::1"@,
    ensures
        0 <= at < resolved.len() && resolved[at] == gateway_ip ==> points_back(
            uri,
            gateway_ip,
            gateway_port,
            Some(resolved),
        ),
        (forall|i: int|
            0 <= i < resolved.len() ==> canonical(#[trigger] resolved[i]) != canonical(gateway_ip)
                && !is_this_machine(canonical(resolved[i]))) ==> !points_back(
            uri,
            gateway_ip,
            gateway_port,
            Some(resolved),
        ),
        !points_back(uri, gateway_ip, gateway_port, None),
{
    if 0 <= at < resolved.len() && resolved[at] == gateway_ip {
        assert(is_gateway(canonical(gateway_ip), resolved[at]));
    }
}

/// A gateway that listens on an address of its own is not the machine's usual ones.
pub proof fn own_addresses_do_not_reach_a_bound_gateway(
    uri: Seq<char>,
    host: Seq<char>,
    gateway_ip: IpAddress,
    gateway_port: u16,
    resolved: Option<Seq<IpAddress>>,
)
    requires
        target_of(uri) == Some((host, gateway_port)),
        is_localhost(host) || host == "127.0.0.1"@ || host == "0.0.0.0"@ || host == "::1"@,
    ensures
        points_back(uri, gateway_ip, gateway_port, resolved) <==> is_this_machine(
            canonical(gateway_ip),
        ),
{
    mapped_addresses_count_as_ipv4(0x7f00_0001, 1);
}

/// IPv4 and IPv6 are the two families.
pub proof fn families_are_two(a: u32, b: u32, c: u128, d: u128)
    ensures
        same_family(IpAddress::V4(a), IpAddress::V4(b)),
        same_family(IpAddress::V6(c), IpAddress::V6(d)),
        !same_family(IpAddress::V4(a), IpAddress::V6(c)),
        !same_family(IpAddress::V6(c), IpAddress::V4(a)),
{
}

/// What follows a bracketed host, but is no port after a colon, does not count.
pub proof fn rests_behind_brackets_do_not_count(
    host: Seq<char>,
    rest: Seq<char>,
    default_port: u16,
)
    requires
        !host.contains(']'),
        rest.len() > 0 ==> rest[0] != ':',
    ensures
        host_and_port(seq!['['] + host + seq![']'] + rest, default_port) == (host, default_port),
{
    reveal_strlit(":");
    let authority = seq!['['] + host + seq![']'] + rest;
    let inside = authority.skip(1);
    assert(inside =~= host.push(']') + rest);
    bracket_ends(host, rest);
    assert(inside.skip(host.len() as int + 1) =~= rest);
    assert(inside.take(host.len() as int) =~= host);
    if ":"@.is_prefix_of(rest) {
        assert(rest.subrange(0, 1)[0] == ':');
    }
    assert(authority[0] == '[');
}

/// A prefix length that is no number is refused.
pub proof fn prefix_lengths_are_numbers(before: Seq<char>, after: Seq<char>, ip: IpAddress, at: int)
    requires
        !before.contains('/'),
        0 < at < after.len(),
        !('0' <= after[at] <= '9'),
        !is_space(after[0]),
        !is_space(after.last()),
    ensures
        subnet_of(before.push('/') + after, Some(ip)) == Err::<(IpAddress, u8), Seq<char>>(
            "Invalid CIDR prefix"@,
        ),
{
    splitting_takes_the_first(before, '/', after);
    trimming_keeps_the_rest(after);
    unsigned_numbers_are_read(0, 255, after, at);
}

} // verus!
