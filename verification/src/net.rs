//! Network addresses, subnets, and the authority part of URIs.

use crate::text::{
    after_prefix, chars_of, find_from, find_last, last_position, last_position_is_last,
    parse_unsigned, position_from, position_from_is_first, same_ignoring_case, same_text, split_first,
    split_once, string_of, strip_prefix, text_up_to, trim, trimmed, unsigned_in, up_to,
};
use vstd::arithmetic::div_mod::lemma_div_denominator;
use vstd::arithmetic::power2::{lemma_pow2_adds, lemma_pow2_pos, pow2};
use vstd::bits::lemma_u128_shr_is_div;
use vstd::prelude::*;
use vstd::string::*;

verus! {

/// An IP address, as the number that its bytes write.
#[derive(Clone, Copy, Debug, PartialEq, Eq, Structural)]
pub enum IpAddress {
    V4(u32),
    V6(u128),
}

/// An address with IPv4 inside IPv6 written as IPv4.
pub open spec fn canonical(ip: IpAddress) -> IpAddress {
    match ip {
        IpAddress::V4(n) => IpAddress::V4(n),
        IpAddress::V6(n) => if 0xffff_0000_0000 <= n <= 0xffff_ffff_ffff {
            IpAddress::V4((n - 0xffff_0000_0000) as u32)
        } else {
            IpAddress::V6(n)
        },
    }
}

/// Whether an address is that of the machine itself: 127.0.0.0/8 or ::1.
pub open spec fn is_loopback(ip: IpAddress) -> bool {
    match ip {
        IpAddress::V4(n) => 0x7f00_0000 <= n <= 0x7fff_ffff,
        IpAddress::V6(n) => n == 1,
    }
}

/// Whether an address stands for every interface of the machine.
pub open spec fn is_unspecified(ip: IpAddress) -> bool {
    ip == IpAddress::V4(0) || ip == IpAddress::V6(0)
}

impl IpAddress {
    /// The address with IPv4 inside IPv6 written as IPv4.
    pub fn to_canonical(self) -> (ip: IpAddress)
        ensures
            ip == canonical(self),
    {
        match self {
            IpAddress::V4(n) => IpAddress::V4(n),
            IpAddress::V6(n) => {
                if 0xffff_0000_0000 <= n && n <= 0xffff_ffff_ffff {
                    IpAddress::V4((n - 0xffff_0000_0000) as u32)
                } else {
                    IpAddress::V6(n)
                }
            },
        }
    }

    /// Whether the address is that of the machine itself.
    pub fn is_loopback(self) -> (yes: bool)
        ensures
            yes == is_loopback(self),
    {
        match self {
            IpAddress::V4(n) => 0x7f00_0000 <= n && n <= 0x7fff_ffff,
            IpAddress::V6(n) => n == 1,
        }
    }

    /// Whether the address stands for the machine itself: a loopback address, or that
    /// of every interface.
    pub fn is_this_machine(self) -> (yes: bool)
        ensures
            yes == is_this_machine(self),
    {
        self == IpAddress::V4(0) || self == IpAddress::V6(0) || self.is_loopback()
    }
}

/// Whether an address stands for the machine itself: a loopback address, or that of
/// every interface.
pub open spec fn is_this_machine(ip: IpAddress) -> bool {
    is_unspecified(ip) || is_loopback(ip)
}

/// Whether a target address is the gateway: its own address, or one that stands for
/// the machine itself where the address of the gateway does, too.
pub open spec fn is_gateway(gateway: IpAddress, target: IpAddress) -> bool {
    canonical(target) == gateway || (is_this_machine(gateway) && is_this_machine(canonical(target)))
}

/// Whether one of some target addresses is the gateway.
pub open spec fn any_is_gateway(gateway: IpAddress, targets: Seq<IpAddress>) -> bool {
    exists|i: int| 0 <= i < targets.len() && is_gateway(gateway, #[trigger] targets[i])
}

/// Whether a target address is the gateway.
fn matches_gateway(gateway_ip: IpAddress, target_ip: IpAddress) -> (yes: bool)
    ensures
        yes == is_gateway(gateway_ip, target_ip),
{
    let ip = target_ip.to_canonical();
    ip == gateway_ip || (gateway_ip.is_this_machine() && ip.is_this_machine())
}

/// Whether one of the target addresses is the gateway.
pub fn matches_gateway_address(gateway_ip: IpAddress, target_ips: &Vec<IpAddress>) -> (yes: bool)
    ensures
        yes == any_is_gateway(gateway_ip, target_ips@),
{
    let mut i: usize = 0;
    while i < target_ips.len()
        invariant
            i <= target_ips@.len(),
            forall|j: int| 0 <= j < i ==> !is_gateway(gateway_ip, #[trigger] target_ips@[j]),
        decreases target_ips@.len() - i,
    {
        if matches_gateway(gateway_ip, target_ips[i]) {
            return true;
        }
        i += 1;
    }
    false
}

/// Whether two addresses of one family agree in their first `prefix_len` bits.
pub open spec fn in_subnet(ip: IpAddress, network: IpAddress, prefix_len: u8) -> bool {
    match (ip, network) {
        (IpAddress::V4(a), IpAddress::V4(b)) => prefix_len == 0 || a >> ((32 - prefix_len) as u32)
            == b >> ((32 - prefix_len) as u32),
        (IpAddress::V6(a), IpAddress::V6(b)) => prefix_len == 0 || a >> ((128 - prefix_len) as u128)
            == b >> ((128 - prefix_len) as u128),
        _ => false,
    }
}

/// Whether a prefix length fits the family of an address.
pub open spec fn prefix_fits(network: IpAddress, prefix_len: u8) -> bool {
    match network {
        IpAddress::V4(_) => prefix_len <= 32,
        IpAddress::V6(_) => prefix_len <= 128,
    }
}

/// Whether two addresses are of one family.
pub open spec fn same_family(a: IpAddress, b: IpAddress) -> bool {
    a is V4 == b is V4
}

/// Whether an address lies in a subnet.
pub fn ip_in_subnet(ip: IpAddress, network: IpAddress, prefix_len: u8) -> (yes: bool)
    requires
        same_family(ip, network) ==> prefix_fits(network, prefix_len),
    ensures
        yes == in_subnet(ip, network, prefix_len),
{
    match (ip, network) {
        (IpAddress::V4(a), IpAddress::V4(b)) => {
            if prefix_len == 0 {
                return true;
            }
            let k: u32 = 32 - prefix_len as u32;
            a >> k == b >> k
        },
        (IpAddress::V6(a), IpAddress::V6(b)) => {
            if prefix_len == 0 {
                return true;
            }
            let k: u128 = 128 - prefix_len as u128;
            a >> k == b >> k
        },
        _ => false,
    }
}

/// Every address lies in its own subnet, whatever its prefix length, and in the
/// subnets of shorter prefixes that contain a longer one it lies in.
pub proof fn subnets_nest(ip: IpAddress, network: IpAddress, longer: u8, shorter: u8)
    requires
        prefix_fits(network, longer),
        shorter <= longer,
    ensures
        in_subnet(network, network, longer),
        in_subnet(ip, network, longer) ==> in_subnet(ip, network, shorter),
{
    match (ip, network) {
        (IpAddress::V4(a), IpAddress::V4(b)) => {
            if shorter > 0 {
                let k = (32 - longer) as u32;
                let m = (32 - shorter) as u32;
                assert(k <= m && m < 32 && a >> k == b >> k ==> a >> m == b >> m) by (bit_vector);
            }
        },
        (IpAddress::V6(a), IpAddress::V6(b)) => {
            if shorter > 0 {
                let k = (128 - longer) as u128;
                let m = (128 - shorter) as u128;
                if a >> k == b >> k {
                    lemma_u128_shr_is_div(a, k);
                    lemma_u128_shr_is_div(b, k);
                    lemma_u128_shr_is_div(a, m);
                    lemma_u128_shr_is_div(b, m);
                    lemma_pow2_pos(k as nat);
                    lemma_pow2_pos((m - k) as nat);
                    lemma_pow2_adds(k as nat, (m - k) as nat);
                    lemma_div_denominator(a as int, pow2(k as nat) as int, pow2((m - k) as nat) as int);
                    lemma_div_denominator(b as int, pow2(k as nat) as int, pow2((m - k) as nat) as int);
                }
            }
        },
        _ => {},
    }
}

/// Whether an address is private, loopback, link-local or the broadcast one.
pub open spec fn is_local(ip: IpAddress) -> bool {
    match ip {
        IpAddress::V4(n) => {
            ||| 0x0a00_0000 <= n <= 0x0aff_ffff
            ||| 0xac10_0000 <= n <= 0xac1f_ffff
            ||| 0xc0a8_0000 <= n <= 0xc0a8_ffff
            ||| 0x7f00_0000 <= n <= 0x7fff_ffff
            ||| 0xa9fe_0000 <= n <= 0xa9fe_ffff
            ||| n == 0xffff_ffff
        },
        IpAddress::V6(n) => {
            ||| n == 1
            ||| 0xfe80 <= n / 0x1_0000_0000_0000_0000_0000_0000_0000 <= 0xfebf
            ||| 0xfc00 <= n / 0x1_0000_0000_0000_0000_0000_0000_0000 <= 0xfdff
        },
    }
}

/// Whether an address is private, loopback, link-local or the broadcast one.
pub fn is_private_or_loopback(ip: IpAddress) -> (yes: bool)
    ensures
        yes == is_local(ip),
{
    match ip {
        IpAddress::V4(n) => (0x0a00_0000 <= n && n <= 0x0aff_ffff) || (0xac10_0000 <= n && n
            <= 0xac1f_ffff) || (0xc0a8_0000 <= n && n <= 0xc0a8_ffff) || (0x7f00_0000 <= n && n
            <= 0x7fff_ffff) || (0xa9fe_0000 <= n && n <= 0xa9fe_ffff) || n == 0xffff_ffff,
        IpAddress::V6(n) => {
            let first: u128 = n / 0x1_0000_0000_0000_0000_0000_0000_0000;
            n == 1 || (0xfe80 <= first && first <= 0xfebf) || (0xfc00 <= first && first <= 0xfdff)
        },
    }
}

/// The text before the slash of a CIDR, in which the network address stands.
pub fn cidr_network(cidr: &str) -> (network: Option<String>)
    ensures
        match network {
            Some(n) => split_first(cidr@, '/') is Some && n@ == trimmed(
                (split_first(cidr@, '/')->0).0,
            ),
            None => split_first(cidr@, '/') is None,
        },
{
    match split_once(cidr, '/') {
        Some((network, _prefix)) => Some(trim(network.as_str())),
        None => None,
    }
}

/// What a CIDR stands for, given the address that its first half writes, or why
/// it stands for nothing.
pub open spec fn subnet_of(cidr: Seq<char>, network: Option<IpAddress>) -> Result<
    (IpAddress, u8),
    Seq<char>,
> {
    match split_first(cidr, '/') {
        None => Err("CIDR must look like '<ip>/<prefix>'"@),
        Some(halves) => match network {
            None => Err("Invalid CIDR network IP"@),
            Some(ip) => match unsigned_in(trimmed(halves.1), 255) {
                None => Err("Invalid CIDR prefix"@),
                Some(n) => if prefix_fits(ip, n as u8) {
                    Ok((ip, n as u8))
                } else {
                    match ip {
                        IpAddress::V4(_) => Err("IPv4 CIDR prefix must be <= 32"@),
                        IpAddress::V6(_) => Err("IPv6 CIDR prefix must be <= 128"@),
                    }
                },
            },
        },
    }
}

/// Reads a CIDR, given the address that its first half writes.
pub fn parse_cidr(cidr: &str, network: Option<IpAddress>) -> (subnet: Result<
    (IpAddress, u8),
    String,
>)
    ensures
        match (subnet, subnet_of(cidr@, network)) {
            (Ok(s), Ok(expected)) => s == expected && prefix_fits(s.0, s.1),
            (Err(message), Err(expected)) => message@ == expected,
            _ => false,
        },
{
    let (_network, prefix) = match split_once(cidr, '/') {
        Some(halves) => halves,
        None => {
            return Err("CIDR must look like '<ip>/<prefix>'".to_owned());
        },
    };
    let ip = match network {
        Some(ip) => ip,
        None => {
            return Err("Invalid CIDR network IP".to_owned());
        },
    };
    let prefix_len: u8 = match parse_unsigned(trim(prefix.as_str()).as_str(), 255) {
        Some(n) => n as u8,
        None => {
            return Err("Invalid CIDR prefix".to_owned());
        },
    };
    match ip {
        IpAddress::V4(_) => if prefix_len <= 32 {
            Ok((ip, prefix_len))
        } else {
            Err("IPv4 CIDR prefix must be <= 32".to_owned())
        },
        IpAddress::V6(_) => if prefix_len <= 128 {
            Ok((ip, prefix_len))
        } else {
            Err("IPv6 CIDR prefix must be <= 128".to_owned())
        },
    }
}

/// A port that a text writes, or a default.
pub open spec fn port_or(text: Seq<char>, default_port: u16) -> u16 {
    match unsigned_in(text, 65535) {
        Some(n) => n as u16,
        None => default_port,
    }
}

fn parse_port_or(text: &str, default_port: u16) -> (port: u16)
    ensures
        port == port_or(text@, default_port),
{
    match parse_unsigned(text, 65535) {
        Some(n) => n as u16,
        None => default_port,
    }
}

/// The host and the port of an authority. An IPv6 host stands in brackets; a port
/// that is missing or not a port gives way to the default one.
pub open spec fn host_and_port(authority: Seq<char>, default_port: u16) -> (Seq<char>, u16) {
    let inside = authority.skip(1);
    let end = position_from(inside, ']', 0);
    let colon = last_position(authority, ':');
    if authority.len() > 0 && authority[0] == '[' && end < inside.len() {
        let tail = inside.skip(end + 1);
        (
            inside.take(end),
            match after_prefix(tail, ":"@) {
                Some(raw) => port_or(raw, default_port),
                None => default_port,
            },
        )
    } else if colon >= 0 {
        (authority.take(colon), port_or(authority.skip(colon + 1), default_port))
    } else {
        (authority, default_port)
    }
}

/// Splits an authority into its host and its port.
pub fn split_authority_host_and_port(authority: &str, default_port: u16) -> (parts: (String, u16))
    ensures
        (parts.0@, parts.1) == host_and_port(authority@, default_port),
{
    let chars = chars_of(authority);
    if chars.len() > 0 && chars[0] == '[' {
        let inside = chars_of(string_of(&chars, 1, chars.len()).as_str());
        proof {
            assert(inside@ =~= authority@.skip(1));
            position_from_is_first(inside@, ']', 0);
        }
        if let Some(end) = find_from(&inside, ']', 0) {
            let host = string_of(&inside, 0, end);
            let tail = string_of(&inside, end + 1, inside.len());
            proof {
                assert(host@ =~= inside@.take(end as int));
                assert(tail@ =~= inside@.skip(end + 1));
            }
            let port: u16 = match strip_prefix(tail.as_str(), ":") {
                Some(raw) => parse_port_or(raw.as_str(), default_port),
                None => default_port,
            };
            return (host, port);
        }
    }
    proof {
        last_position_is_last(authority@, ':');
    }
    match find_last(&chars, ':') {
        Some(colon) => {
            let host = string_of(&chars, 0, colon);
            let raw = string_of(&chars, colon + 1, chars.len());
            proof {
                assert(host@ =~= authority@.take(colon as int));
                assert(raw@ =~= authority@.skip(colon + 1));
            }
            (host, parse_port_or(raw.as_str(), default_port))
        },
        None => (authority.to_owned(), default_port),
    }
}

/// What follows the scheme of a URI, and the default port of the scheme.
pub open spec fn after_scheme(uri: Seq<char>) -> Option<(Seq<char>, u16)> {
    match after_prefix(uri, "http://"@) {
        Some(rest) => Some((rest, 80)),
        None => match after_prefix(uri, "https://"@) {
            Some(rest) => Some((rest, 443)),
            None => None,
        },
    }
}

/// What follows the scheme of a URI, and the default port of the scheme.
pub fn parse_uri_authority_input(target_uri: &str) -> (input: Option<(String, u16)>)
    ensures
        match input {
            Some((rest, port)) => after_scheme(target_uri@) == Some((rest@, port)),
            None => after_scheme(target_uri@) is None,
        },
{
    if let Some(rest) = strip_prefix(target_uri, "http://") {
        return Some((rest, 80));
    }
    if let Some(rest) = strip_prefix(target_uri, "https://") {
        return Some((rest, 443));
    }
    None
}

/// The host and the port that a URI points at.
pub open spec fn target_of(uri: Seq<char>) -> Option<(Seq<char>, u16)> {
    match after_scheme(uri) {
        Some((rest, default_port)) => Some(host_and_port(up_to(rest, '/'), default_port)),
        None => None,
    }
}

/// The host and the port that a URI points at.
pub fn parse_target_host_and_port(target_uri: &str) -> (target: Option<(String, u16)>)
    ensures
        match target {
            Some((host, port)) => target_of(target_uri@) == Some((host@, port)),
            None => target_of(target_uri@) is None,
        },
{
    match parse_uri_authority_input(target_uri) {
        Some((rest, default_port)) => {
            let authority = text_up_to(rest.as_str(), '/');
            Some(split_authority_host_and_port(authority.as_str(), default_port))
        },
        None => None,
    }
}

/// What there is to find out about a target before it can be told whether it is
/// the gateway itself.
pub enum SelfRouting {
    /// It is not the gateway: not an HTTP URI, or another port.
    No,
    /// The host is this machine, whatever addresses it has.
    Localhost,
    /// The host is written as an address that stands for this machine.
    Known(IpAddress),
    /// The addresses of this host have to be looked up.
    Resolve(String),
}

/// How far the text of a URI tells whether it points at the gateway.
pub open spec fn self_routing_by_text(uri: Seq<char>, gateway_port: u16) -> Option<Seq<char>> {
    match target_of(uri) {
        Some((host, port)) => if port == gateway_port {
            Some(host)
        } else {
            None
        },
        None => None,
    }
}

/// Looks at the text of a target URI: what else has to be looked up, if anything.
pub fn classify_target(target_uri: &str, gateway_port: u16) -> (verdict: SelfRouting)
    ensures
        match verdict {
            SelfRouting::No => self_routing_by_text(target_uri@, gateway_port) is None,
            SelfRouting::Localhost => self_routing_by_text(target_uri@, gateway_port) is Some
                && is_localhost(self_routing_by_text(target_uri@, gateway_port)->0),
            SelfRouting::Known(ip) => self_routing_by_text(target_uri@, gateway_port) matches Some(
                host,
            ) && !is_localhost(host) && own_address(host) == Some(ip),
            SelfRouting::Resolve(host) => self_routing_by_text(target_uri@, gateway_port) == Some(
                host@,
            ) && !is_localhost(host@) && own_address(host@) is None,
        },
{
    match parse_target_host_and_port(target_uri) {
        Some((host, port)) => {
            if port != gateway_port {
                SelfRouting::No
            } else if same_ignoring_case(host.as_str(), "localhost") {
                SelfRouting::Localhost
            } else {
                match parse_own_address(host.as_str()) {
                    Some(ip) => SelfRouting::Known(ip),
                    None => SelfRouting::Resolve(host),
                }
            }
        },
        None => SelfRouting::No,
    }
}

/// Whether a host name is that of the machine itself.
pub open spec fn is_localhost(host: Seq<char>) -> bool {
    crate::text::ascii_lowered(host) == crate::text::ascii_lowered("localhost"@)
}

/// The address that a host writes, where it is one of the usual ones of the machine
/// itself.
pub open spec fn own_address(host: Seq<char>) -> Option<IpAddress> {
    if host == "127.0.0.1"@ {
        Some(IpAddress::V4(0x7f00_0001))
    } else if host == "0.0.0.0"@ {
        Some(IpAddress::V4(0))
    } else if host == "::1"@ {
        Some(IpAddress::V6(1))
    } else {
        None
    }
}

/// Reads one of the usual addresses of the machine itself.
fn parse_own_address(host: &str) -> (ip: Option<IpAddress>)
    ensures
        ip == own_address(host@),
{
    if same_text(host, "127.0.0.1") {
        Some(IpAddress::V4(0x7f00_0001))
    } else if same_text(host, "0.0.0.0") {
        Some(IpAddress::V4(0))
    } else if same_text(host, "::1") {
        Some(IpAddress::V6(1))
    } else {
        None
    }
}

/// Whether a target points back at the gateway, given the addresses that its host
/// name was found to have, where they had to be looked up. `localhost`, `127.0.0.1`,
/// `::1` and `0.0.0.0` all stand for the machine itself.
pub open spec fn points_back(
    uri: Seq<char>,
    gateway_ip: IpAddress,
    gateway_port: u16,
    resolved: Option<Seq<IpAddress>>,
) -> bool {
    match self_routing_by_text(uri, gateway_port) {
        None => false,
        Some(host) => if is_localhost(host) {
            is_gateway(canonical(gateway_ip), IpAddress::V4(0x7f00_0001)) || is_gateway(
                canonical(gateway_ip),
                IpAddress::V6(1),
            )
        } else {
            match (own_address(host), resolved) {
                (Some(ip), _) => is_gateway(canonical(gateway_ip), ip),
                (None, None) => false,
                (None, Some(ips)) => any_is_gateway(canonical(gateway_ip), ips),
            }
        },
    }
}

/// The view of an optional list of addresses.
pub open spec fn addresses(list: Option<Vec<IpAddress>>) -> Option<Seq<IpAddress>> {
    match list {
        Some(ips) => Some(ips@),
        None => None,
    }
}

/// Returns `true` if the resolved upstream `target_uri` points back at the gateway's
/// own listening address. `localhost`, `127.0.0.1`, `::1` and `0.0.0.0` are all
/// treated as equivalent to the loopback or any interface. `resolved` holds the
/// addresses of any other host name, where they could be found.
pub fn is_self_routing(
    target_uri: &str,
    gateway_ip: IpAddress,
    gateway_port: u16,
    resolved: &Option<Vec<IpAddress>>,
) -> (yes: bool)
    ensures
        yes == points_back(
            target_uri@,
            gateway_ip,
            gateway_port,
            addresses(*resolved),
        ),
{
    let gateway = gateway_ip.to_canonical();
    match classify_target(target_uri, gateway_port) {
        SelfRouting::No => false,
        SelfRouting::Localhost => matches_gateway(gateway, IpAddress::V4(0x7f00_0001))
            || matches_gateway(gateway, IpAddress::V6(1)),
        SelfRouting::Known(ip) => matches_gateway(gateway, ip),
        SelfRouting::Resolve(_) => match resolved {
            Some(ips) => matches_gateway_address(gateway, ips),
            None => false,
        },
    }
}

} // verus!
