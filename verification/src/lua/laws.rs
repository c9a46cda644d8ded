//! What holds of what scripts configure.

use crate::config::GatewayConfig;
use crate::json::JsonModel;
use crate::lua::args::{
    applies, default_port, forward_in, lists_texts, matchers_in, mount_in, rule_matchers_in,
    rules_given, upstream_given, upstream_in, upstream_scheme, upstreams_given, MatcherModel,
    MiddlewareMatcher, StaticForwardUpstream, UpstreamArg, UpstreamModel,
};
use crate::lua::middleware::{
    base64url, fresh_state, response_of, sextet_char, MiddlewareResponse, StateModel,
};
use crate::lua::rules::{
    bare_host, claimed_port_in, compared_ip, first_forwarded, matches_pattern, net_rule_fits,
    net_rule_holds, path_rule_holds, requested_host, NetRule, PathRule,
};
use crate::lua::scripts::{extension_in, lies_below};
use crate::lua::settings::{configured, refusal_of, Setting};
use crate::lua::static_forward::reachable_uris;
use crate::lua::value::{
    array_item, array_len, array_len_from, entry_of, field_place, is_array_key, json_fields,
    json_items, json_of, key_text, with_field, LuaKey, LuaValue,
};
use crate::models::base_uri;
use crate::net::{in_subnet, is_local, IpAddress};
use crate::net_laws::{authorities_hold_no_slash, authority_is_read, authority_of};
use crate::text::{
    ascii_lowered, decimal, decimal_reads_back, is_space, lowercase_of, texts, trimmed,
    trimmed_end, trimmed_start, up_to,
};
use crate::text_laws::{
    blank_is_white_space, last_place_is_the_last, occurring_parts_stand_inside, parts_are_found,
    splitting_takes_the_first, trimming_keeps_the_rest, unsigned_numbers_are_read,
};
use vstd::prelude::*;

verus! {

/// A middleware that is mounted on a prefix applies to every path that begins with it,
/// whatever follows, and to no other path.
pub proof fn prefix_mounts_take_every_path_below(
    prefix: Seq<char>,
    rest: Seq<char>,
    path: Seq<char>,
    more: Seq<char>,
    rule_holds: bool,
)
    ensures
        applies(MatcherModel::Prefix(prefix), prefix + rest, rule_holds),
        applies(MatcherModel::Prefix(prefix), path, rule_holds) ==> path == prefix + path.skip(
            prefix.len() as int,
        ) && prefix.len() <= path.len(),
        applies(MatcherModel::Prefix(prefix), path, rule_holds) ==> applies(
            MatcherModel::Prefix(prefix),
            path + more,
            rule_holds,
        ),
{
    assert((prefix + rest).take(prefix.len() as int) =~= prefix);
    if prefix.is_prefix_of(path) {
        assert(path =~= prefix + path.skip(prefix.len() as int));
        assert(prefix.is_prefix_of(path + more));
    }
}

/// How a middleware is mounted decides on which requests it runs: without a matcher on
/// all, with a path prefix on the paths that begin with it, with a rule where that
/// holds.
pub proof fn mounts_decide_where_middleware_runs(
    prefix: String,
    rule: usize,
    handler: usize,
    path: Seq<char>,
    rule_holds: bool,
)
    ensures
        ({
            let everywhere = mount_in(seq![LuaValue::Function(handler)]);
            let below = mount_in(seq![LuaValue::Text(prefix), LuaValue::Function(handler)]);
            let ruled = mount_in(seq![LuaValue::Function(rule), LuaValue::Function(handler)]);
            &&& everywhere is Ok && (everywhere->Ok_0).0.len() == 1 && (everywhere->Ok_0).1 == handler
            &&& applies((everywhere->Ok_0).0[0], path, rule_holds)
            &&& below is Ok && (below->Ok_0).0.len() == 1 && (below->Ok_0).1 == handler
            &&& applies((below->Ok_0).0[0], path, rule_holds) <==> prefix@.len() <= path.len()
                && path.subrange(0, prefix@.len() as int) == prefix@
            &&& ruled is Ok && (ruled->Ok_0).0.len() == 1 && (ruled->Ok_0).1 == handler
            &&& applies((ruled->Ok_0).0[0], path, rule_holds) <==> rule_holds
            &&& (ruled->Ok_0).0[0] == MatcherModel::Rule(rule)
        }),
{
}

proof fn entry_is_first(entries: Seq<(LuaKey, LuaValue)>, k: int, from: int)
    requires
        0 <= from <= entries.len(),
    ensures
        from <= entry_of(entries, k, from) <= entries.len(),
        ({
            let at = entry_of(entries, k, from);
            at < entries.len() ==> entries[at].0 is Integer && entries[at].0->Integer_0 == k
        }),
        forall|j: int|
            from <= j < entry_of(entries, k, from) ==> !((#[trigger] entries[j]).0 is Integer
                && entries[j].0->Integer_0 == k),
    decreases entries.len() - from,
{
    if from < entries.len() {
        entry_is_first(entries, k, from + 1);
    }
}

proof fn array_has_no_gap(entries: Seq<(LuaKey, LuaValue)>, done: int)
    requires
        0 <= done,
    ensures
        done <= array_len_from(entries, done),
        forall|k: int|
            done < k <= array_len_from(entries, done) ==> #[trigger] entry_of(entries, k, 0)
                < entries.len(),
        array_len_from(entries, done) < entries.len() ==> entry_of(
            entries,
            array_len_from(entries, done) + 1,
            0,
        ) >= entries.len(),
    decreases entries.len() - done,
{
    if !(done >= entries.len() || entry_of(entries, done + 1, 0) >= entries.len()) {
        array_has_no_gap(entries, done + 1);
    }
}

/// The array of a table: its items are the values under 1, 2, 3 and so on, up to the
/// first number that is missing.
pub proof fn array_is_the_run_from_one(entries: Seq<(LuaKey, LuaValue)>, i: int)
    ensures
        0 <= i < array_len(entries) ==> exists|j: int|
            0 <= j < entries.len() && (#[trigger] entries[j]).0 is Integer
                && entries[j].0->Integer_0 == i + 1 && entries[j].1 == array_item(entries, i),
        array_len(entries) < entries.len() ==> forall|j: int|
            0 <= j < entries.len() ==> !((#[trigger] entries[j]).0 is Integer
                && entries[j].0->Integer_0 == array_len(entries) + 1),
{
    array_has_no_gap(entries, 0);
    if 0 <= i < array_len(entries) {
        entry_is_first(entries, i + 1, 0);
        assert(entry_of(entries, i + 1, 0) < entries.len());
        assert(entries[entry_of(entries, i + 1, 0)].1 == array_item(entries, i));
    }
    entry_is_first(entries, array_len(entries) + 1, 0);
}

/// A mount on an array of matchers has one for each item, in order: a rule for a
/// function, a prefix for a string. Anything else in it is refused, and so is an empty
/// one.
pub proof fn matcher_arrays_are_taken_whole(entries: Seq<(LuaKey, LuaValue)>, i: int)
    requires
        0 <= i < array_len(entries),
    ensures
        matchers_in(entries) is Ok <==> (forall|j: int|
            0 <= j < array_len(entries) ==> (#[trigger] array_item(entries, j)) is Function
                || array_item(entries, j) is Text),
        matchers_in(entries) is Ok ==> (matchers_in(entries)->Ok_0).len() == array_len(entries),
        matchers_in(entries) is Ok && array_item(entries, i) is Function ==> (matchers_in(
            entries,
        )->Ok_0)[i] == MatcherModel::Rule(array_item(entries, i)->Function_0),
        matchers_in(entries) is Ok && array_item(entries, i) is Text ==> (matchers_in(
            entries,
        )->Ok_0)[i] == MatcherModel::Prefix(array_item(entries, i)->Text_0@),
        rule_matchers_in(entries) is Ok <==> (forall|j: int|
            0 <= j < array_len(entries) ==> (#[trigger] array_item(entries, j)) is Function),
        rule_matchers_in(entries) is Ok ==> (rule_matchers_in(entries)->Ok_0).len() == array_len(
            entries,
        ) && (rule_matchers_in(entries)->Ok_0)[i] == MatcherModel::Rule(
            array_item(entries, i)->Function_0,
        ),
{
}

/// An empty array of matchers is refused.
pub proof fn empty_matcher_arrays_are_refused(entries: Seq<(LuaKey, LuaValue)>)
    requires
        array_len(entries) == 0,
    ensures
        matchers_in(entries) is Err,
        rule_matchers_in(entries) is Err,
{
}

/// A pattern with a star matches what begins with the part before it and ends with the
/// part after it; one without a star matches what holds it anywhere.
pub proof fn patterns_match_around_the_star(
    start: Seq<char>,
    end: Seq<char>,
    between: Seq<char>,
    path: Seq<char>,
)
    requires
        !start.contains('*'),
    ensures
        matches_pattern(start + between + end, start.push('*') + end),
        matches_pattern(path, start.push('*') + end) <==> start.is_prefix_of(path) && path.len()
            >= end.len() && path.skip(path.len() - end.len()) == end,
        matches_pattern(between + start + end, start),
        matches_pattern(path, start) ==> exists|a: Seq<char>, b: Seq<char>| path == #[trigger] (a
            + start + b),
{
    splitting_takes_the_first(start, '*', end);
    let whole = start + between + end;
    assert(start.is_prefix_of(whole));
    parts_are_found(start + between, end, end);
    parts_are_found(between, start, end);
    if matches_pattern(path, start.push('*') + end) {
        parts_are_found(path, end, path);
        assert(path.skip(path.len() - end.len()) =~= end);
    }
    if matches_pattern(path, start) {
        occurring_parts_stand_inside(path, start);
    }
}

/// When each kind of rule on paths holds.
pub proof fn path_rules_hold(expected: String, prefixes: Vec<String>, path: Seq<char>, host: Seq<char>)
    ensures
        path_rule_holds(PathRule::Exact(expected), path, host) <==> path == expected@,
        path_rule_holds(PathRule::FromHost(expected), path, host) <==> host == expected@,
        path_rule_holds(PathRule::HasPrefixIn(prefixes), path, host) <==> exists|j: int|
            0 <= j < prefixes@.len() && (#[trigger] prefixes@[j])@.len() <= path.len() && path.take(
                prefixes@[j]@.len() as int,
            ) == prefixes@[j]@,
{
    let list = texts(prefixes@);
    if path_rule_holds(PathRule::HasPrefixIn(prefixes), path, host) {
        let i = choose|i: int| 0 <= i < list.len() && (#[trigger] list[i]).is_prefix_of(path);
        assert(list[i] == prefixes@[i]@);
        assert(path.take(prefixes@[i]@.len() as int) =~= prefixes@[i]@);
    }
    if exists|j: int|
        0 <= j < prefixes@.len() && (#[trigger] prefixes@[j])@.len() <= path.len() && path.take(
            prefixes@[j]@.len() as int,
        ) == prefixes@[j]@ {
        let j = choose|j: int|
            0 <= j < prefixes@.len() && (#[trigger] prefixes@[j])@.len() <= path.len() && path.take(
                prefixes@[j]@.len() as int,
            ) == prefixes@[j]@;
        assert(list[j] == prefixes@[j]@);
        assert(list[j].is_prefix_of(path));
    }
}

/// A host is compared without its port and without white space around it.
pub proof fn hosts_are_compared_without_port(host: Seq<char>, port: Seq<char>)
    requires
        host.len() > 0,
        !host.contains(':'),
        !is_space(host[0]),
        !is_space(host.last()),
    ensures
        bare_host(host) == host,
        bare_host(host.push(':') + port) == host,
        bare_host(seq![' '] + host + seq![' ']) == host,
{
    splitting_takes_the_first(host, ':', port);
    trimming_keeps_the_rest(host);
    let padded = seq![' '] + host + seq![' '];
    if padded.contains(':') {
        let i = padded.index_of(':');
        assert(host[i - 1] == ':');
    }
    splitting_takes_the_first(padded, ':', port);
    padding_is_trimmed(host);
}

proof fn padding_is_trimmed(s: Seq<char>)
    requires
        s.len() > 0,
        !is_space(s[0]),
        !is_space(s.last()),
    ensures
        trimmed(seq![' '] + s + seq![' ']) == s,
{
    let padded = seq![' '] + s + seq![' '];
    assert(padded.drop_first() =~= s + seq![' ']);
    let rest = s + seq![' '];
    assert(rest[0] == s[0]);
    assert(trimmed_start(rest) == rest);
    assert(trimmed_start(padded) == rest);
    assert(rest.drop_last() =~= s);
    assert(trimmed_end(s) == s);
    assert(trimmed_end(rest) == s);
}

/// Of a chain of client addresses the first counts, without white space around it, where
/// it is not blank.
pub proof fn first_of_the_chain_counts(first: Seq<char>, others: Seq<char>)
    requires
        !first.contains(','),
    ensures
        first_forwarded(first.push(',') + others) == first_forwarded(first),
        first.len() > 0 && !is_space(first[0]) && !is_space(first.last()) ==> first_forwarded(first)
            == Some(first),
        first_forwarded(first) is None <==> forall|i: int|
            0 <= i < first.len() ==> is_space(#[trigger] first[i]),
{
    splitting_takes_the_first(first, ',', others);
    if first.len() > 0 && !is_space(first[0]) && !is_space(first.last()) {
        trimming_keeps_the_rest(first);
    }
    blank_is_white_space(first);
}

/// A claimed port is the number that the header writes, up to 65535, and else 0.
pub proof fn claimed_ports_are_read(n: nat)
    ensures
        claimed_port_in(Some(decimal(n))) == (if n <= 65535 {
            n as u16
        } else {
            0
        }),
        claimed_port_in(Some(seq![' '] + decimal(n) + seq![' '])) == claimed_port_in(
            Some(decimal(n)),
        ),
        claimed_port_in(None) == 0,
{
    decimal_reads_back(n);
    let s = decimal(n);
    assert('0' <= s[0] <= '9');
    assert('0' <= s[s.len() - 1] <= '9');
    trimming_keeps_the_rest(s);
    padding_is_trimmed(s);
    unsigned_numbers_are_read(n, 65535, s, 0);
}

/// The extension of a file name is what follows its last dot; a name that has no dot, or
/// none but at its start, has no extension.
pub proof fn extensions_follow_the_last_dot(stem: Seq<char>, extension: Seq<char>)
    requires
        !extension.contains('.'),
    ensures
        stem.len() > 0 && (extension.len() > 0 || stem.len() > 1) ==> extension_in(
            stem.push('.') + extension,
        ) == Some(extension),
        extension_in(seq!['.'] + extension) is None,
        extension_in(extension) is None,
{
    reveal_strlit("..");
    last_place_is_the_last(stem, '.', extension);
    last_place_is_the_last(Seq::empty(), '.', extension);
    let named = stem.push('.') + extension;
    assert(named.skip(stem.len() as int + 1) =~= extension);
    assert(Seq::<char>::empty().push('.') + extension =~= seq!['.'] + extension);
    if extension.len() > 0 {
        assert(named[named.len() - 1] == extension[extension.len() - 1]);
        assert(extension[extension.len() - 1] != '.');
        if named == ".."@ {
            assert(named[named.len() - 1] == '.');
        }
    }
}

/// A file lies below a root exactly when its path is that of the root with something, or
/// nothing, after it.
pub proof fn files_below_a_root(root: Seq<Seq<char>>, rest: Seq<Seq<char>>, path: Seq<Seq<char>>)
    ensures
        lies_below(root + rest, root),
        lies_below(path, root) ==> path == root + path.skip(root.len() as int),
{
    assert(root.is_prefix_of(root + rest));
    if root.is_prefix_of(path) {
        assert(path =~= root + path.skip(root.len() as int));
    }
}

/// What each part of the configuration is after a setting: what was set, where the
/// setting is its own, and else what it was.
pub proof fn settings_change_their_own_part_only(config: GatewayConfig, setting: Setting)
    ensures
        configured(config, setting).server.host == (match setting {
            Setting::ServerHost(v) => v,
            _ => config.server.host,
        }),
        configured(config, setting).server.port == (match setting {
            Setting::ServerPort(v) => v,
            _ => config.server.port,
        }),
        configured(config, setting).server.tls.enabled == (match setting {
            Setting::TlsEnabled(v) => v,
            _ => config.server.tls.enabled,
        }),
        configured(config, setting).server.tls.cert_file == (match setting {
            Setting::TlsCertFile(v) => v,
            _ => config.server.tls.cert_file,
        }),
        configured(config, setting).server.tls.key_file == (match setting {
            Setting::TlsKeyFile(v) => v,
            _ => config.server.tls.key_file,
        }),
        configured(config, setting).routing.default_load_balancing_strategy == (match setting {
            Setting::LoadBalancingStrategy(v) => v,
            _ => config.routing.default_load_balancing_strategy,
        }),
        configured(config, setting).routing.strip_prefix == (match setting {
            Setting::StripPrefix(v) => v,
            _ => config.routing.strip_prefix,
        }),
        configured(config, setting).cache.enabled == (match setting {
            Setting::CacheEnabled(v) => v,
            _ => config.cache.enabled,
        }),
        configured(config, setting).cache.provider == (match setting {
            Setting::CacheProvider(v) => v,
            _ => config.cache.provider,
        }),
        configured(config, setting).cache.key_prefix == (match setting {
            Setting::CacheKeyPrefix(v) => v,
            _ => config.cache.key_prefix,
        }),
        configured(config, setting).cache.service_resolution_ttl_seconds == (match setting {
            Setting::CacheTtlSeconds(v) => v,
            _ => config.cache.service_resolution_ttl_seconds,
        }),
        configured(config, setting).cache.ttl_seconds == (match setting {
            Setting::CacheTtlSeconds(v) => v,
            _ => config.cache.ttl_seconds,
        }),
        configured(config, setting).cache.strategy == (match setting {
            Setting::CacheStrategy(v) => v,
            _ => config.cache.strategy,
        }),
        configured(config, setting).security.service_registration_auth == (match setting {
            Setting::ServiceRegistrationAuth(v) => v,
            _ => config.security.service_registration_auth,
        }),
        configured(config, setting).security.registration_token == (match setting {
            Setting::RegistrationToken(v) => v,
            _ => config.security.registration_token,
        }),
        configured(config, setting).observability.metrics_enabled == (match setting {
            Setting::MetricsEnabled(v) => v,
            _ => config.observability.metrics_enabled,
        }),
        configured(config, setting).observability.tracing_enabled == (match setting {
            Setting::TracingEnabled(v) => v,
            _ => config.observability.tracing_enabled,
        }),
        configured(config, setting).observability.log_level == (match setting {
            Setting::LogLevel(v) => v,
            _ => config.observability.log_level,
        }),
        configured(config, setting).service_bus.enabled == (match setting {
            Setting::BusEnabled(v) => v,
            _ => config.service_bus.enabled,
        }),
        configured(config, setting).service_bus.host == (match setting {
            Setting::BusHost(v) => v,
            _ => config.service_bus.host,
        }),
        configured(config, setting).service_bus.port == (match setting {
            Setting::BusPort(v) => v,
            _ => config.service_bus.port,
        }),
        configured(config, setting).service_bus.max_message_chars == (match setting {
            Setting::BusMaxMessageChars(v) => v,
            _ => config.service_bus.max_message_chars,
        }),
        configured(config, setting).service_bus.connection_health_enabled == (match setting {
            Setting::ConnectionHealthEnabled(v) => v,
            _ => config.service_bus.connection_health_enabled,
        }),
        configured(config, setting).service_bus.monitoring_enabled == (match setting {
            Setting::MonitoringEnabled(v) => v,
            _ => config.service_bus.monitoring_enabled,
        }),
        configured(config, setting).service_bus.proxy_failure_threshold == (match setting {
            Setting::ProxyFailureThreshold(_, v) => v,
            _ => config.service_bus.proxy_failure_threshold,
        }),
        configured(config, setting).registry == config.registry,
{
}

/// A setting is refused exactly when it is a failure threshold of zero or a cache
/// provider other than the three.
pub proof fn only_impossible_settings_are_refused(setting: Setting)
    ensures
        refusal_of(setting) is Some <==> match setting {
            Setting::ProxyFailureThreshold(_, threshold) => threshold < 1,
            Setting::CacheProvider(name) => name@ != "memory"@ && name@ != "redis"@ && name@
                != "memcached"@,
            _ => false,
        },
{
}

/// The alphabet of the notation of auth payloads: capital letters, small letters, digits,
/// the hyphen and the underscore.
pub proof fn sextets_have_one_character_each(n: int)
    requires
        0 <= n < 64,
    ensures
        sextet_char(n)
            == "ABCDEFGHIJKLMNOPQRSTUVWXYZabcdefghijklmnopqrstuvwxyz0123456789-_"@[n],
{
    reveal_strlit("ABCDEFGHIJKLMNOPQRSTUVWXYZabcdefghijklmnopqrstuvwxyz0123456789-_");
}

/// Three bytes make four characters, and the number that the bytes write in base 256 is
/// the one that the characters write in base 64. One or two bytes at the end count as if
/// zero bits followed.
pub proof fn base64_keeps_the_number(a: u8, b: u8, c: u8, rest: Seq<u8>)
    ensures
        exists|w: int, x: int, y: int, z: int|
            0 <= w < 64 && 0 <= x < 64 && 0 <= y < 64 && 0 <= z < 64 && a * 65536 + b * 256 + c == w
                * 262144 + x * 4096 + y * 64 + z && base64url(seq![a, b, c] + rest) == #[trigger] seq![
                sextet_char(w),
                sextet_char(x),
                sextet_char(y),
                sextet_char(z),
            ] + base64url(rest),
        exists|w: int, x: int, y: int|
            0 <= w < 64 && 0 <= x < 64 && 0 <= y < 64 && (a * 256 + b) * 4 == w * 4096 + x * 64 + y
                && base64url(seq![a, b]) == #[trigger] seq![
                sextet_char(w),
                sextet_char(x),
                sextet_char(y),
            ],
        exists|w: int, x: int|
            0 <= w < 64 && 0 <= x < 64 && a * 16 == w * 64 + x && base64url(seq![a])
                == #[trigger] seq![sextet_char(w), sextet_char(x)],
        base64url(Seq::empty()) == Seq::<char>::empty(),
{
    let (a, b, c) = (a as int, b as int, c as int);
    let bytes = seq![a as u8, b as u8, c as u8] + rest;
    assert(bytes.skip(3) =~= rest);
    let w = a / 4;
    let x = (a % 4) * 16 + b / 16;
    let y = (b % 16) * 4 + c / 64;
    let z = c % 64;
    assert(base64url(bytes) =~= seq![
        sextet_char(w),
        sextet_char(x),
        sextet_char(y),
        sextet_char(z),
    ] + base64url(rest));
    let y2 = (b % 16) * 4;
    assert(base64url(seq![a as u8, b as u8]) =~= seq![
        sextet_char(w),
        sextet_char(x),
        sextet_char(y2),
    ]);
    let x1 = (a % 4) * 16;
    assert(base64url(seq![a as u8]) =~= seq![sextet_char(w), sextet_char(x1)]);
}

/// A middleware that touches nothing and ends the request answers 200 without body and
/// headers; one that does not end it answers nothing.
pub proof fn untouched_responses_are_empty()
    ensures
        response_of(fresh_state()) is None,
        fresh_state().status == 200,
        fresh_state().body.len() == 0,
        fresh_state().headers.dom() == Set::<Seq<char>>::empty(),
        fresh_state().forward_headers.dom() == Set::<Seq<char>>::empty(),
        !fresh_state().next_called,
{
    assert(fresh_state().headers.dom() =~= Set::<Seq<char>>::empty());
    assert(fresh_state().forward_headers.dom() =~= Set::<Seq<char>>::empty());
}

/// The reachable targets of a static forward are the base URIs of exactly the upstreams
/// that are reachable, and the first of them is that of the first one.
pub proof fn reachable_targets_are_those_reachable(
    upstreams: Seq<StaticForwardUpstream>,
    reachable: Seq<bool>,
    n: int,
    at: int,
)
    requires
        0 <= at < n <= upstreams.len(),
        reachable.len() == upstreams.len(),
    ensures
        reachable[at] ==> reachable_uris(upstreams, reachable, n).contains(
            base_uri(upstreams[at].scheme@, upstreams[at].host@, upstreams[at].port),
        ),
        reachable[at] && (forall|j: int| 0 <= j < at ==> !#[trigger] reachable[j])
            ==> reachable_uris(upstreams, reachable, n)[0] == base_uri(
            upstreams[at].scheme@,
            upstreams[at].host@,
            upstreams[at].port,
        ),
        (forall|j: int| 0 <= j < n ==> !#[trigger] reachable[j]) ==> reachable_uris(
            upstreams,
            reachable,
            n,
        ).len() == 0,
        (forall|j: int| 0 <= j < n ==> #[trigger] reachable[j]) ==> reachable_uris(
            upstreams,
            reachable,
            n,
        ).len() == n && reachable_uris(upstreams, reachable, n)[at] == base_uri(
            upstreams[at].scheme@,
            upstreams[at].host@,
            upstreams[at].port,
        ),
    decreases n,
{
    let before = reachable_uris(upstreams, reachable, n - 1);
    let after = reachable_uris(upstreams, reachable, n);
    let uri = base_uri(upstreams[at].scheme@, upstreams[at].host@, upstreams[at].port);
    if at < n - 1 {
        reachable_targets_are_those_reachable(upstreams, reachable, n - 1, at);
        if reachable[at] {
            let i = before.index_of(uri);
            assert(after[i] == uri);
        }
        if reachable[at] && forall|j: int| 0 <= j < at ==> !#[trigger] reachable[j] {
            assert(before.len() > 0) by {
                assert(before.contains(uri));
            }
            assert(after[0] == before[0]);
        }
    } else {
        none_reachable_gives_none(upstreams, reachable, n - 1);
        if reachable[at] {
            assert(after[before.len() as int] == uri);
        }
        if n - 1 > 0 {
            reachable_targets_are_those_reachable(upstreams, reachable, n - 1, 0);
        }
    }
}

proof fn none_reachable_gives_none(
    upstreams: Seq<StaticForwardUpstream>,
    reachable: Seq<bool>,
    n: int,
)
    requires
        0 <= n <= upstreams.len(),
        reachable.len() == upstreams.len(),
    ensures
        (forall|j: int| 0 <= j < n ==> !#[trigger] reachable[j]) ==> reachable_uris(
            upstreams,
            reachable,
            n,
        ).len() == 0,
    decreases n,
{
    if n > 0 {
        none_reachable_gives_none(upstreams, reachable, n - 1);
    }
}

/// The upstreams of a static forward are those that its arguments give, one each and in
/// order; the first that gives none refuses them all.
pub proof fn upstreams_are_taken_in_order(args: Seq<UpstreamArg>, n: int, at: int)
    requires
        0 <= at < n <= args.len(),
    ensures
        upstreams_given(args, n) is Ok <==> forall|j: int|
            0 <= j < n ==> upstream_given(#[trigger] args[j]) is Ok,
        upstreams_given(args, n) is Ok ==> (upstreams_given(args, n)->Ok_0).len() == n
            && upstream_given(args[at]) == Ok::<UpstreamModel, Seq<char>>(
            (upstreams_given(args, n)->Ok_0)[at],
        ),
        upstreams_given(args, n) is Err && (forall|j: int|
            0 <= j < at ==> upstream_given(#[trigger] args[j]) is Ok)
            && upstream_given(args[at]) is Err ==> (upstreams_given(
            args,
            n,
        )->Err_0) == (upstream_given(args[at])->Err_0),
    decreases n,
{
    if at < n - 1 {
        upstreams_are_taken_in_order(args, n - 1, at);
        assert(args[n - 1] == args[n - 1]);
    } else {
        if n - 1 > 0 {
            upstreams_are_taken_in_order(args, n - 1, 0);
        }
        assert(args[at] == args[n - 1]);
    }
}

/// An upstream that is written as a URI has the scheme, the host and the port of it,
/// whatever path follows; without a port it has the default one of its scheme, and
/// without a scheme it is reached over HTTP.
pub proof fn upstream_uris_are_read(
    scheme: Seq<char>,
    host: Seq<char>,
    port: u16,
    path: Seq<char>,
)
    requires
        scheme == "http"@ || scheme == "https"@,
        host.len() > 0,
        !host.contains('/'),
        !host.contains(']'),
        host[0] != '[',
        path.len() > 0 ==> !is_space(path.last()),
    ensures
        upstream_in(base_uri(scheme, host, port) + "/"@ + path) == Ok::<UpstreamModel, Seq<char>>(
            UpstreamModel {
                scheme,
                host,
                port: if port != 0 {
                    port
                } else if scheme == "http"@ {
                    80u16
                } else {
                    443u16
                },
            },
        ),
{
    let authority = authority_of(host, port);
    let rest = authority.push('/') + path;
    let uri = base_uri(scheme, host, port) + "/"@ + path;
    assert(uri == scheme + "://"@ + rest) by {
        reveal_strlit("/");
        assert(uri =~= scheme + "://"@ + rest);
    }
    assert(trimmed(uri) == uri) by {
        uri_needs_no_trimming(scheme, rest);
    }
    scheme_is_split_off(uri, scheme, rest);
    assert(up_to(rest, '/') == authority) by {
        authorities_hold_no_slash(host, port);
        splitting_takes_the_first(authority, '/', path);
    }
    authority_is_read(host, port, 80);
    authority_is_read(host, port, 443);
    schemes_differ();
}

proof fn schemes_differ()
    ensures
        "http"@ != "https"@,
{
    reveal_strlit("http");
    reveal_strlit("https");
    assert("http"@.len() == 4 && "https"@.len() == 5);
}

proof fn uri_needs_no_trimming(scheme: Seq<char>, rest: Seq<char>)
    requires
        scheme == "http"@ || scheme == "https"@,
        rest.len() > 0,
        !is_space(rest.last()),
    ensures
        trimmed(scheme + "://"@ + rest) == scheme + "://"@ + rest,
{
    reveal_strlit("http");
    reveal_strlit("https");
    let uri = scheme + "://"@ + rest;
    assert(uri[0] == 'h');
    assert(uri.last() == rest.last());
    trimming_keeps_the_rest(uri);
}

proof fn scheme_is_split_off(uri: Seq<char>, scheme: Seq<char>, rest: Seq<char>)
    requires
        scheme == "http"@ || scheme == "https"@,
        uri == scheme + "://"@ + rest,
    ensures
        upstream_scheme(uri) == (scheme, rest),
{
    assert("http"@ + "://"@ == "http://"@ && "https"@ + "://"@ == "https://"@) by {
        reveal_strlit("http");
        reveal_strlit("https");
        reveal_strlit("://");
        reveal_strlit("http://");
        reveal_strlit("https://");
        assert("http"@ + "://"@ =~= "http://"@);
        assert("https"@ + "://"@ =~= "https://"@);
    }
    if scheme == "http"@ {
        assert(uri.skip("http://"@.len() as int) =~= rest);
        assert("http://"@.is_prefix_of(uri));
    } else {
        assert(uri.skip("https://"@.len() as int) =~= rest);
        assert("https://"@.is_prefix_of(uri));
        assert(uri[4] == 's') by {
            reveal_strlit("https://");
        }
        assert("http://"@.len() == 7 && "http://"@[4] == ':') by {
            reveal_strlit("http://");
        }
        assert(!"http://"@.is_prefix_of(uri));
    }
}

/// HTTPS has port 443 in any letters, every other scheme port 80.
pub proof fn schemes_have_default_ports(scheme: Seq<char>)
    ensures
        default_port("https"@) == 443,
        default_port("HTTPS"@) == 443,
        default_port("http"@) == 80,
        default_port(scheme) == 443 <==> ascii_lowered(scheme) == "https"@,
        default_port(scheme) == 443 || default_port(scheme) == 80,
        default_port(ascii_lowered(scheme)) == default_port(scheme),
{
    reveal_strlit("https");
    reveal_strlit("HTTPS");
    reveal_strlit("http");
    assert(ascii_lowered("HTTPS"@) =~= "https"@);
    assert(ascii_lowered("https"@) =~= "https"@);
    assert(ascii_lowered(scheme).len() == scheme.len());
    assert(ascii_lowered("http"@).len() == 4);
    assert(ascii_lowered("https"@).len() == 5);
    assert(ascii_lowered(ascii_lowered(scheme)) =~= ascii_lowered(scheme));
}

/// An upstream that is written as a table has its scheme, host and port; HTTP and no
/// port where it leaves them out. A blank host or URI is refused.
pub proof fn upstream_tables_are_read(scheme: String, host: String, port: u16, uri: String)
    ensures
        ({
            let blank = forall|i: int| 0 <= i < host@.len() ==> is_space(#[trigger] host@[i]);
            let full = upstream_given(UpstreamArg::Endpoint(Some(scheme), host, Some(port)));
            let bare = upstream_given(UpstreamArg::Endpoint(None, host, None));
            &&& blank <==> full is Err
            &&& blank <==> bare is Err
            &&& full matches Ok(u) ==> u.scheme == scheme@ && u.host == host@ && u.port == port
            &&& bare matches Ok(u) ==> u.scheme == "http"@ && u.host == host@ && u.port == 0
        }),
        upstream_given(UpstreamArg::Uri(uri)) is Err <==> forall|i: int|
            0 <= i < uri@.len() ==> is_space(#[trigger] uri@[i]),
        upstream_given(UpstreamArg::Other) is Err,
{
    blank_is_white_space(host@);
    blank_is_white_space(uri@);
}

/// What is put under a name is found under it, and what was under other names stays.
pub proof fn fields_are_put_under_their_names(
    fields: Seq<(Seq<char>, JsonModel)>,
    name: Seq<char>,
    value: JsonModel,
    at: int,
)
    ensures
        ({
            let after = with_field(fields, name, value);
            &&& exists|i: int| 0 <= i < after.len() && #[trigger] after[i] == (name, value)
            &&& 0 <= at < fields.len() && fields[at].0 != name ==> after[at] == fields[at]
            &&& after.len() == fields.len() <==> exists|i: int|
                0 <= i < fields.len() && (#[trigger] fields[i]).0 == name
            &&& fields.len() <= after.len() <= fields.len() + 1
        }),
{
    place_is_first(fields, name, 0);
    let place = field_place(fields, name, 0);
    let after = with_field(fields, name, value);
    assert(after[place] == (name, value));
}

proof fn place_is_first(fields: Seq<(Seq<char>, JsonModel)>, name: Seq<char>, from: int)
    requires
        0 <= from <= fields.len(),
    ensures
        from <= field_place(fields, name, from) <= fields.len(),
        field_place(fields, name, from) < fields.len() ==> fields[field_place(fields, name, from)].0
            == name,
        forall|i: int|
            from <= i < field_place(fields, name, from) ==> (#[trigger] fields[i]).0 != name,
    decreases fields.len() - from,
{
    if from < fields.len() {
        place_is_first(fields, name, from + 1);
    }
}

/// What the plain values of a script write as JSON; a function writes nothing.
pub proof fn plain_values_write_themselves(b: bool, i: i64, s: String, handle: usize)
    ensures
        json_of(LuaValue::Nil) == Ok::<JsonModel, Seq<char>>(JsonModel::Null),
        json_of(LuaValue::Boolean(b)) == Ok::<JsonModel, Seq<char>>(JsonModel::Bool(b)),
        json_of(LuaValue::Text(s)) == Ok::<JsonModel, Seq<char>>(JsonModel::Text(s@)),
        i >= 0 ==> json_of(LuaValue::Integer(i)) == Ok::<JsonModel, Seq<char>>(
            JsonModel::Number(decimal(i as nat)),
        ),
        i < 0 ==> json_of(LuaValue::Integer(i)) == Ok::<JsonModel, Seq<char>>(
            JsonModel::Number(seq!['-'] + decimal((-i) as nat)),
        ),
        json_of(LuaValue::Function(handle)) is Err,
{
}

/// The items of an array are written one by one, in order.
pub proof fn arrays_write_their_items(entries: Vec<(LuaKey, LuaValue)>, n: int, at: int)
    requires
        0 <= at < n <= array_len(entries@),
        json_items(entries, n) is Ok,
    ensures
        (json_items(entries, n)->Ok_0).len() == n,
        json_of(array_item(entries@, at)) == Ok::<JsonModel, Seq<char>>(
            (json_items(entries, n)->Ok_0)[at],
        ),
    decreases n,
{
    array_has_no_gap(entries@, 0);
    entry_is_first(entries@, n, 0);
    assert(entry_of(entries@, n, 0) < entries@.len());
    if at < n - 1 {
        arrays_write_their_items(entries, n - 1, at);
    } else if n - 1 > 0 {
        arrays_write_their_items(entries, n - 1, 0);
    }
}

/// A table is written as a list exactly when all its keys are those of its array, and
/// else as an object; a list has the items of the array, in order.
pub proof fn tables_write_lists_or_objects(entries: Vec<(LuaKey, LuaValue)>, at: int)
    requires
        json_of(LuaValue::Table(entries)) is Ok,
    ensures
        ({
            let json = json_of(LuaValue::Table(entries))->Ok_0;
            let n = array_len(entries@);
            &&& json is List <==> forall|i: int|
                0 <= i < entries@.len() ==> (#[trigger] entries@[i]).0 is Integer && 1
                    <= entries@[i].0->Integer_0 <= n
            &&& json is List || json is Fields
            &&& json is List && 0 <= at < n ==> json->List_0.len() == n && json_of(
                array_item(entries@, at),
            ) == Ok::<JsonModel, Seq<char>>(json->List_0[at])
        }),
{
    let n = array_len(entries@);
    assert forall|i: int| 0 <= i < entries@.len() implies is_array_key(
        (#[trigger] entries@[i]).0,
        n,
    ) == (entries@[i].0 is Integer && 1 <= entries@[i].0->Integer_0 <= n) by {}
    array_has_no_gap(entries@, 0);
    if 0 <= at < n && json_of(LuaValue::Table(entries))->Ok_0 is List {
        arrays_write_their_items(entries, n, at);
    }
}

/// Each entry of a table that is written as an object is a field of it, under the text of
/// its key, unless a later entry has the same text.
pub proof fn objects_have_their_entries(entries: Vec<(LuaKey, LuaValue)>, n: int, at: int)
    requires
        0 <= at < n <= entries@.len(),
        json_fields(entries, n) is Ok,
        forall|j: int|
            at < j < n ==> key_text((#[trigger] entries@[j]).0) != key_text(entries@[at].0),
    ensures
        key_text(entries@[at].0) is Some,
        json_of(entries@[at].1) is Ok,
        exists|i: int|
            0 <= i < (json_fields(entries, n)->Ok_0).len() && #[trigger] (json_fields(
                entries,
                n,
            )->Ok_0)[i] == (key_text(entries@[at].0)->0, json_of(entries@[at].1)->Ok_0),
    decreases n,
{
    let name = key_text(entries@[n - 1].0);
    let value = json_of(entries@[n - 1].1);
    let before = json_fields(entries, n - 1)->Ok_0;
    let after = json_fields(entries, n)->Ok_0;
    assert(after == with_field(before, name->0, value->Ok_0));
    if at < n - 1 {
        objects_have_their_entries(entries, n - 1, at);
        let field = (key_text(entries@[at].0)->0, json_of(entries@[at].1)->Ok_0);
        let i = choose|i: int| 0 <= i < before.len() && #[trigger] before[i] == field;
        assert(key_text(entries@[n - 1].0) != key_text(entries@[at].0));
        fields_are_put_under_their_names(before, name->0, value->Ok_0, i);
        assert(after[i] == field);
    } else {
        fields_are_put_under_their_names(before, name->0, value->Ok_0, 0);
    }
}

/// The rules that a script gives are its function, or those of its array in order;
/// anything else, and an empty array, is refused with the name of the interface.
pub proof fn rules_are_taken_in_order(
    handle: usize,
    entries: Vec<(LuaKey, LuaValue)>,
    text: String,
    api_name: Seq<char>,
    at: int,
)
    ensures
        rules_given(LuaValue::Function(handle), api_name) == Ok::<Seq<usize>, Seq<char>>(
            seq![handle],
        ),
        rules_given(LuaValue::Table(entries), api_name) is Ok <==> array_len(entries@) != 0 && forall|
            j: int,
        |
            0 <= j < array_len(entries@) ==> (#[trigger] array_item(entries@, j)) is Function,
        rules_given(LuaValue::Table(entries), api_name) is Ok && 0 <= at < array_len(entries@) ==> (
        rules_given(LuaValue::Table(entries), api_name)->Ok_0).len() == array_len(entries@) && (
        rules_given(LuaValue::Table(entries), api_name)->Ok_0)[at] == array_item(
            entries@,
            at,
        )->Function_0,
        rules_given(LuaValue::Text(text), api_name) is Err,
        rules_given(LuaValue::Nil, api_name) is Err,
        rules_given(LuaValue::Text(text), api_name) == Err::<Seq<usize>, Seq<char>>(
            api_name + " expects a rule function or an array of rule functions"@,
        ),
{
}

/// A static forward takes a rule, or an array of rules, and at least one upstream; it is
/// then mounted on these rules and goes to these upstreams.
pub proof fn static_forwards_take_rules_and_upstreams(
    rule: usize,
    other: LuaValue,
    prefix: String,
    args: Seq<UpstreamArg>,
)
    ensures
        ({
            let call = forward_in(seq![LuaValue::Function(rule), other], Some(args));
            &&& call is Ok <==> args.len() > 0 && forall|j: int|
                0 <= j < args.len() ==> upstream_given(#[trigger] args[j]) is Ok
            &&& call is Ok ==> (call->Ok_0).0.len() == 1 && (call->Ok_0).0[0] == MatcherModel::Rule(
                rule,
            ) && (call->Ok_0).1.len() == args.len()
        }),
        forward_in(seq![LuaValue::Text(prefix), other], Some(args)) is Err,
        forward_in(seq![LuaValue::Function(rule), other], None) is Err,
        forward_in(seq![LuaValue::Function(rule)], Some(args)) is Err,
{
    if args.len() > 0 {
        upstreams_are_taken_in_order(args, args.len() as int, 0);
    }
}

/// When each kind of rule on addresses holds: the text is listed, the address lies in
/// the subnet, or it is a local one. What is no address lies nowhere.
pub proof fn address_rules_hold(
    list: Vec<String>,
    network: IpAddress,
    prefix_len: u8,
    compared: Seq<char>,
    ip: IpAddress,
)
    ensures
        net_rule_holds(NetRule::IsIpIn(list), compared, Some(ip)) <==> exists|j: int|
            0 <= j < list@.len() && (#[trigger] list@[j])@ == compared,
        net_rule_holds(NetRule::FromSubnet(network, prefix_len), compared, Some(ip)) == in_subnet(
            ip,
            network,
            prefix_len,
        ),
        net_rule_holds(NetRule::FromMySubnet, compared, Some(ip)) == is_local(ip),
        !net_rule_holds(NetRule::FromSubnet(network, prefix_len), compared, None),
        !net_rule_holds(NetRule::FromMySubnet, compared, None),
        net_rule_fits(NetRule::FromSubnet(IpAddress::V4(0), prefix_len)) == (prefix_len <= 32),
        net_rule_fits(NetRule::FromSubnet(IpAddress::V6(0), prefix_len)) == (prefix_len <= 128),
{
    let words = texts(list@);
    if words.contains(compared) {
        let j = words.index_of(compared);
        assert(list@[j]@ == compared);
    }
    if exists|j: int| 0 <= j < list@.len() && (#[trigger] list@[j])@ == compared {
        let j = choose|j: int| 0 <= j < list@.len() && (#[trigger] list@[j])@ == compared;
        assert(words[j] == compared);
    }
}

/// Addresses are compared in their usual notation; what is none, without white space
/// around it.
pub proof fn addresses_are_compared_in_usual_notation(ip: Seq<char>, usual: Seq<char>)
    requires
        ip.len() > 0,
        !is_space(ip[0]),
        !is_space(ip.last()),
    ensures
        compared_ip(ip, Some(usual)) == usual,
        compared_ip(ip, None) == ip,
        compared_ip(seq![' '] + ip + seq![' '], None) == ip,
{
    trimming_keeps_the_rest(ip);
    padding_is_trimmed(ip);
}

/// The host that a request asks for does not depend on the port that it names, nor on
/// white space around it; a request without a host asks for none.
pub proof fn requested_hosts_have_no_port(host: Seq<char>, port: Seq<char>)
    requires
        host.len() > 0,
        !host.contains(':'),
        !is_space(host[0]),
        !is_space(host.last()),
        port.len() > 0,
        !is_space(port.last()),
    ensures
        requested_host(Some(host.push(':') + port)) == lowercase_of(host),
        requested_host(Some(host)) == lowercase_of(host),
        requested_host(Some(seq![' '] + host + seq![' '])) == lowercase_of(host),
        requested_host(None).len() == 0,
{
    let full = host.push(':') + port;
    assert(full[0] == host[0]);
    assert(full.last() == port.last());
    trimming_keeps_the_rest(full);
    trimming_keeps_the_rest(host);
    padding_is_trimmed(host);
    hosts_are_compared_without_port(host, port);
}

/// A middleware that has ended a request answers with the status, the body and the
/// headers that it has set.
pub proof fn ended_requests_are_answered(state: StateModel)
    ensures
        response_of(state) is Some == state.ended,
        response_of(state) matches Some(r) ==> r.status == state.status && r.body == state.body
            && r.headers == state.headers,
{
}

/// The keys of a table write themselves: strings as they are, integers in decimal.
pub proof fn keys_write_themselves(s: String, n: i64)
    ensures
        key_text(LuaKey::Text(s)) == Some(s@),
        key_text(LuaKey::Number(s)) == Some(s@),
        n >= 0 ==> key_text(LuaKey::Integer(n)) == Some(decimal(n as nat)),
        n < 0 ==> key_text(LuaKey::Integer(n)) == Some(seq!['-'] + decimal((-n) as nat)),
        key_text(LuaKey::Other) is None,
{
}

/// Nothing of a matcher or of an upstream is lost in its model.
pub proof fn mount_models_hold_every_part(
    rule: usize,
    prefix: String,
    upstream: StaticForwardUpstream,
    response: MiddlewareResponse,
)
    ensures
        MiddlewareMatcher::Any@ == MatcherModel::Any,
        MiddlewareMatcher::Rule(rule)@ == MatcherModel::Rule(rule),
        MiddlewareMatcher::Prefix(prefix)@ == MatcherModel::Prefix(prefix@),
        upstream@.scheme == upstream.scheme@,
        upstream@.host == upstream.host@,
        upstream@.port == upstream.port,
        response@.status == response.status,
        response@.body == response.body@,
        response@.headers == response.headers@,
{
}

/// An array lists strings exactly when each of its items is one.
pub proof fn text_arrays_hold_texts(entries: Seq<(LuaKey, LuaValue)>)
    ensures
        lists_texts(entries) <==> forall|i: int|
            0 <= i < array_len(entries) ==> (#[trigger] array_item(entries, i)) is Text,
{
}

/// An upstream that is written as a bare host is reached over HTTP at port 80; one with a
/// port at that port.
pub proof fn bare_hosts_are_reached_over_http(host: Seq<char>, port: u16)
    requires
        host.len() > 0,
        !is_space(host[0]),
        !is_space(host.last()),
        !host.contains('/'),
        !host.contains(':'),
        !host.contains(']'),
        host[0] != '[',
        port != 0,
    ensures
        upstream_in(host) == Ok::<UpstreamModel, Seq<char>>(
            UpstreamModel { scheme: "http"@, host, port: 80 },
        ),
        upstream_in(host + ":"@ + decimal(port as nat)) == Ok::<UpstreamModel, Seq<char>>(
            UpstreamModel { scheme: "http"@, host, port },
        ),
{
    trimming_keeps_the_rest(host);
    splitting_takes_the_first(host, '/', host);
    authority_is_read(host, 0, 80);
    assert(authority_of(host, 0) == host);
    let full = host + ":"@ + decimal(port as nat);
    authorities_hold_no_slash(host, port);
    assert(authority_of(host, port) == full);
    authority_is_read(host, port, 80);
    splitting_takes_the_first(full, '/', host);
    decimal_reads_back(port as nat);
    let digits = decimal(port as nat);
    assert('0' <= digits[digits.len() - 1] <= '9');
    assert(full[0] == host[0] && full.last() == digits.last());
    trimming_keeps_the_rest(full);
    no_scheme_in(full);
    no_scheme_in(host);
    schemes_differ();
}

proof fn no_scheme_in(uri: Seq<char>)
    requires
        !uri.contains('/'),
    ensures
        upstream_scheme(uri) == ("http"@, uri),
{
    assert(!"http://"@.is_prefix_of(uri)) by {
        reveal_strlit("http://");
        if "http://"@.is_prefix_of(uri) {
            assert(uri.subrange(0, 7)[5] == "http://"@[5]);
            assert(uri[5] == '/');
        }
    }
    assert(!"https://"@.is_prefix_of(uri)) by {
        reveal_strlit("https://");
        if "https://"@.is_prefix_of(uri) {
            assert(uri.subrange(0, 8)[6] == "https://"@[6]);
            assert(uri[6] == '/');
        }
    }
}

} // verus!
