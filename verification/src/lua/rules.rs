//! The rules by which scripts pick out requests, and what they see of a request.

use crate::headers::{header_text_in, headers_in, is_header_name, read_header, visible_headers, last_visible, values_in};
use crate::net::{in_subnet, ip_in_subnet, is_local, is_private_or_loopback, prefix_fits, IpAddress};
use crate::string_map::StringMap;
use crate::text::{
    has_suffix, list_holds, lowercase, lowercase_of, occurs, parse_unsigned, same_text, split_first,
    split_once, text_ends_with, text_has_part, text_starts_with, text_up_to, texts, trim, trimmed,
    unsigned_in, up_to,
};
use axum::http::{HeaderMap, HeaderValue};
use vstd::prelude::*;
use vstd::string::*;

verus! {

// ---------------------------------------------------------------------------
// Hosts
// ---------------------------------------------------------------------------

/// The host of a `host` header, before it is brought into small letters: without
/// a port and without white space around it.
pub open spec fn bare_host(host: Seq<char>) -> Seq<char> {
    trimmed(up_to(host, ':'))
}

/// A host as hosts are compared.
pub open spec fn normalized_host(host: Seq<char>) -> Seq<char> {
    lowercase_of(bare_host(host))
}

/// The host of a `host` header, before it is brought into small letters.
pub fn strip_port(host: &str) -> (bare: String)
    ensures
        bare@ == bare_host(host@),
{
    trim(text_up_to(host, ':').as_str())
}

/// Brings a host into the form in which hosts are compared.
pub fn normalize_host_value(host: &str) -> (normalized: String)
    ensures
        normalized@ == normalized_host(host@),
{
    lowercase(strip_port(host).as_str())
}

/// The first value of a header, without white space around it.
pub fn header_value(headers: &HeaderMap<HeaderValue>, name: &str) -> (value: Option<String>)
    requires
        is_header_name(name@),
    ensures
        match value {
            Some(v) => header_text_in(headers_in(*headers), name@) is Some && v@ == trimmed(
                header_text_in(headers_in(*headers), name@)->0,
            ),
            None => header_text_in(headers_in(*headers), name@) is None,
        },
{
    match read_header(headers, name) {
        Some(text) => Some(trim(text.as_str())),
        None => None,
    }
}

/// The host that a request asks for; empty where it does not say.
pub open spec fn requested_host(host_header: Option<Seq<char>>) -> Seq<char> {
    match host_header {
        Some(h) => normalized_host(trimmed(h)),
        None => Seq::empty(),
    }
}

/// The host that a request asks for.
pub fn extract_host(headers: &HeaderMap<HeaderValue>) -> (host: String)
    ensures
        host@ == requested_host(header_text_in(headers_in(*headers), "host"@)),
{
    proof {
        constant_names_are_header_names();
    }
    match header_value(headers, "host") {
        Some(value) => normalize_host_value(value.as_str()),
        None => String::new(),
    }
}

proof fn constant_names_are_header_names()
    ensures
        is_header_name("host"@),
        is_header_name("x-forwarded-for"@),
        is_header_name("x-forwarded-port"@),
{
    reveal_strlit("host");
    reveal_strlit("x-forwarded-for");
    reveal_strlit("x-forwarded-port");
}

// ---------------------------------------------------------------------------
// Rules on paths and hosts
// ---------------------------------------------------------------------------

/// Whether a path matches a pattern: what stands before and after the first star
/// begins and ends it; without a star, the pattern occurs in it.
pub open spec fn matches_pattern(path: Seq<char>, pattern: Seq<char>) -> bool {
    match split_first(pattern, '*') {
        Some((start, end)) => start.is_prefix_of(path) && has_suffix(path, end),
        None => occurs(path, pattern),
    }
}

/// Whether a path matches a pattern.
pub fn path_matches_pattern(path: &str, pattern: &str) -> (yes: bool)
    ensures
        yes == matches_pattern(path@, pattern@),
{
    match split_once(pattern, '*') {
        Some((start, end)) => text_starts_with(path, start.as_str()) && text_ends_with(
            path,
            end.as_str(),
        ),
        None => text_has_part(path, pattern),
    }
}

/// A rule on the path or the host of a request.
#[derive(Clone, Debug)]
pub enum PathRule {
    /// The path is this one.
    Exact(String),
    /// The path matches this pattern.
    Matches(String),
    /// The path begins with one of these prefixes.
    HasPrefixIn(Vec<String>),
    /// The host is this one; the host of the rule is in its compared form.
    FromHost(String),
}

/// Whether a path begins with one of some prefixes.
pub open spec fn begins_with_one(path: Seq<char>, prefixes: Seq<Seq<char>>) -> bool {
    exists|i: int| 0 <= i < prefixes.len() && (#[trigger] prefixes[i]).is_prefix_of(path)
}

/// Whether a rule holds for a path and a host, the latter in its compared form.
pub open spec fn path_rule_holds(rule: PathRule, path: Seq<char>, host: Seq<char>) -> bool {
    match rule {
        PathRule::Exact(expected) => path == expected@,
        PathRule::Matches(pattern) => matches_pattern(path, pattern@),
        PathRule::HasPrefixIn(prefixes) => begins_with_one(path, texts(prefixes@)),
        PathRule::FromHost(expected) => host == expected@,
    }
}

/// Tells whether a rule holds, given the host in its compared form.
pub fn eval_path_rule_on(rule: &PathRule, path: &str, host: &str) -> (holds: bool)
    ensures
        holds == path_rule_holds(*rule, path@, host@),
{
    match rule {
        PathRule::Exact(expected) => same_text(path, expected.as_str()),
        PathRule::Matches(pattern) => path_matches_pattern(path, pattern.as_str()),
        PathRule::HasPrefixIn(prefixes) => {
            let mut i: usize = 0;
            while i < prefixes.len()
                invariant
                    *rule == PathRule::HasPrefixIn(*prefixes),
                    i <= prefixes@.len(),
                    forall|j: int|
                        0 <= j < i ==> !(#[trigger] texts(prefixes@)[j]).is_prefix_of(path@),
                decreases prefixes@.len() - i,
            {
                proof {
                    assert(texts(prefixes@)[i as int] == prefixes@[i as int]@);
                }
                if text_starts_with(path, prefixes[i].as_str()) {
                    return true;
                }
                i += 1;
            }
            false
        },
        PathRule::FromHost(expected) => same_text(host, expected.as_str()),
    }
}

/// Tells whether a rule holds for the path and the host of a request.
pub fn eval_path_rule(rule: &PathRule, path: &str, host: &str) -> (holds: bool)
    ensures
        holds == path_rule_holds(*rule, path@, normalized_host(host@)),
{
    let compared = normalize_host_value(host);
    eval_path_rule_on(rule, path, compared.as_str())
}

/// The rule that asks for a host.
pub fn host_rule(expected_host: &str) -> (rule: PathRule)
    ensures
        rule matches PathRule::FromHost(h) && h@ == normalized_host(expected_host@),
{
    PathRule::FromHost(normalize_host_value(expected_host))
}

// ---------------------------------------------------------------------------
// Rules on addresses
// ---------------------------------------------------------------------------

/// The text by which addresses are compared: the usual notation where the text is
/// an address, else the text without white space around it.
pub open spec fn compared_ip(ip: Seq<char>, usual: Option<Seq<char>>) -> Seq<char> {
    match usual {
        Some(text) => text,
        None => trimmed(ip),
    }
}

/// The text by which addresses are compared, given the usual notation where the
/// text is an address.
pub fn normalize_ip_string(ip: &str, usual: &Option<String>) -> (compared: String)
    ensures
        compared@ == compared_ip(ip@, crate::text::optional_text(*usual)),
{
    match usual {
        Some(text) => text.clone(),
        None => trim(ip),
    }
}

/// A rule on the address of a client.
#[derive(Clone, Debug)]
pub enum NetRule {
    /// The address is one of these, by the texts by which they are compared.
    IsIpIn(Vec<String>),
    /// The address lies in this subnet.
    FromSubnet(IpAddress, u8),
    /// The address is a private or local one.
    FromMySubnet,
}

/// Whether the prefix length of a rule fits its network.
pub open spec fn net_rule_fits(rule: NetRule) -> bool {
    rule matches NetRule::FromSubnet(network, prefix_len) ==> prefix_fits(network, prefix_len)
}

/// Whether a rule holds for an address, given by the text by which it is compared
/// and, where that is one, as an address.
pub open spec fn net_rule_holds(rule: NetRule, compared: Seq<char>, remote: Option<IpAddress>) -> bool {
    match rule {
        NetRule::IsIpIn(list) => texts(list@).contains(compared),
        NetRule::FromSubnet(network, prefix_len) => remote matches Some(ip) && in_subnet(
            ip,
            network,
            prefix_len,
        ),
        NetRule::FromMySubnet => remote matches Some(ip) && is_local(ip),
    }
}

/// Tells whether a rule holds for the address of a client.
pub fn eval_net_rule(rule: &NetRule, compared: &str, remote: Option<IpAddress>) -> (holds: bool)
    requires
        net_rule_fits(*rule),
    ensures
        holds == net_rule_holds(*rule, compared@, remote),
{
    match rule {
        NetRule::IsIpIn(list) => list_holds(list, compared),
        NetRule::FromSubnet(network, prefix_len) => match remote {
            Some(ip) => ip_in_subnet(ip, *network, *prefix_len),
            None => false,
        },
        NetRule::FromMySubnet => match remote {
            Some(ip) => is_private_or_loopback(ip),
            None => false,
        },
    }
}

// ---------------------------------------------------------------------------
// What a script sees of a request
// ---------------------------------------------------------------------------

/// The first address of a chain of client addresses, where there is one.
pub open spec fn first_forwarded(value: Seq<char>) -> Option<Seq<char>> {
    let first = trimmed(up_to(value, ','));
    if first.len() == 0 {
        None
    } else {
        Some(first)
    }
}

/// The first address of a chain of client addresses, where there is one.
pub fn parse_first_forwarded_for_ip(value: &str) -> (first: Option<String>)
    ensures
        match first {
            Some(f) => first_forwarded(value@) == Some(f@),
            None => first_forwarded(value@) is None,
        },
{
    let first = trim(text_up_to(value, ',').as_str());
    if first.as_str().is_empty() {
        None
    } else {
        Some(first)
    }
}

/// The address that a request claims to come from, as its headers write it.
pub fn claimed_ip_text(headers: &HeaderMap<HeaderValue>) -> (claimed: Option<String>)
    ensures
        ({
            let text = header_text_in(headers_in(*headers), "x-forwarded-for"@);
            match claimed {
                Some(c) => text is Some && first_forwarded(trimmed(text->0)) == Some(c@),
                None => text is None || first_forwarded(trimmed(text->0)) is None,
            }
        }),
{
    proof {
        constant_names_are_header_names();
    }
    match header_value(headers, "x-forwarded-for") {
        Some(value) => parse_first_forwarded_for_ip(value.as_str()),
        None => None,
    }
}

/// The port that a request claims to come from; 0 where it claims none.
pub open spec fn claimed_port_in(header: Option<Seq<char>>) -> u16 {
    match header {
        Some(text) => match unsigned_in(trimmed(text), 65535) {
            Some(n) => n as u16,
            None => 0,
        },
        None => 0,
    }
}

/// The port that a request claims to come from.
pub fn claimed_port(headers: &HeaderMap<HeaderValue>) -> (port: u16)
    ensures
        port == claimed_port_in(header_text_in(headers_in(*headers), "x-forwarded-port"@)),
{
    proof {
        constant_names_are_header_names();
    }
    match header_value(headers, "x-forwarded-port") {
        Some(value) => match parse_unsigned(value.as_str(), 65535) {
            Some(n) => n as u16,
            None => 0,
        },
        None => 0,
    }
}

/// Where a request comes from, and where it claims to come from.
#[derive(Clone, Debug)]
pub struct RemoteInfo {
    pub remote_ip: String,
    pub remote_port: u16,
    /// Empty where nothing is claimed.
    pub claimed_ip: String,
    /// 0 where nothing is claimed.
    pub claimed_port: u16,
    pub has_claimed_ip_mismatch: bool,
    pub has_claimed_port_mismatch: bool,
    pub is_spoofed_source: bool,
}

/// Compares where a request comes from with where it claims to come from. A claim
/// that is not made is no mismatch.
pub fn compare_claims(remote_ip: String, remote_port: u16, claimed_ip: String, claimed_port: u16) -> (info:
    RemoteInfo)
    ensures
        info.remote_ip@ == remote_ip@,
        info.remote_port == remote_port,
        info.claimed_ip@ == claimed_ip@,
        info.claimed_port == claimed_port,
        info.has_claimed_ip_mismatch == (claimed_ip@.len() > 0 && claimed_ip@ != remote_ip@),
        info.has_claimed_port_mismatch == (claimed_port != 0 && claimed_port != remote_port),
        info.is_spoofed_source == (info.has_claimed_ip_mismatch || info.has_claimed_port_mismatch),
{
    let ip_mismatch = !claimed_ip.as_str().is_empty() && !same_text(
        claimed_ip.as_str(),
        remote_ip.as_str(),
    );
    let port_mismatch = claimed_port != 0 && claimed_port != remote_port;
    RemoteInfo {
        remote_ip,
        remote_port,
        claimed_ip,
        claimed_port,
        has_claimed_ip_mismatch: ip_mismatch,
        has_claimed_port_mismatch: port_mismatch,
        is_spoofed_source: ip_mismatch || port_mismatch,
    }
}

/// What a script sees of a request.
pub struct RequestFacts {
    pub path: String,
    pub method: String,
    pub host: String,
    pub headers: StringMap<String>,
    pub remote: RemoteInfo,
}

/// Gathers what a script sees of a request. `claimed_ip` is the address that the
/// request claims to come from, by the text by which addresses are compared.
pub fn request_facts(
    path: &str,
    method: &str,
    headers: &HeaderMap<HeaderValue>,
    remote_ip: String,
    remote_port: u16,
    claimed_ip: String,
) -> (facts: RequestFacts)
    ensures
        facts.path@ == path@,
        facts.method@ == method@,
        facts.host@ == requested_host(header_text_in(headers_in(*headers), "host"@)),
        forall|name: Seq<char>| #[trigger]
            facts.headers@.contains_key(name) <==> last_visible(values_in(headers_in(*headers), name))
                is Some,
        forall|name: Seq<char>| #[trigger]
            facts.headers@.contains_key(name) ==> last_visible(values_in(headers_in(*headers), name))
                == Some(facts.headers@[name]),
        facts.remote.remote_ip@ == remote_ip@,
        facts.remote.remote_port == remote_port,
        facts.remote.claimed_ip@ == claimed_ip@,
        facts.remote.claimed_port == claimed_port_in(
            header_text_in(headers_in(*headers), "x-forwarded-port"@),
        ),
        facts.remote.has_claimed_ip_mismatch == (claimed_ip@.len() > 0 && claimed_ip@ != remote_ip@),
        facts.remote.has_claimed_port_mismatch == (facts.remote.claimed_port != 0
            && facts.remote.claimed_port != remote_port),
        facts.remote.is_spoofed_source == (facts.remote.has_claimed_ip_mismatch
            || facts.remote.has_claimed_port_mismatch),
{
    RequestFacts {
        path: path.to_owned(),
        method: method.to_owned(),
        host: extract_host(headers),
        headers: visible_headers(headers),
        remote: compare_claims(remote_ip, remote_port, claimed_ip, claimed_port(headers)),
    }
}

} // verus!
