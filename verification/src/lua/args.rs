//! The arguments that scripts pass in.

use crate::lua::value::{array_item, array_len, array_places, entry_of, LuaKey, LuaValue};
use crate::models::{base_uri, format_base_uri, uri_host, format_uri_host};
use crate::net::{host_and_port, split_authority_host_and_port};
use crate::text::{
    after_prefix, ascii_lowered, decimal, format_unsigned, is_blank, joined, joined3,
    same_ignoring_case, same_text, strip_prefix, text_up_to, trim, trimmed, up_to,
};
use vstd::prelude::*;
use vstd::string::*;

verus! {

/// What a middleware or a static forward applies to.
#[derive(Clone, Debug)]
pub enum MiddlewareMatcher {
    /// Every request.
    Any,
    /// The requests for which a rule of the script holds, by its handle.
    Rule(usize),
    /// The requests whose path begins with a prefix.
    Prefix(String),
}

/// What a matcher says.
pub enum MatcherModel {
    Any,
    Rule(usize),
    Prefix(Seq<char>),
}

impl View for MiddlewareMatcher {
    type V = MatcherModel;

    open spec fn view(&self) -> MatcherModel {
        match self {
            MiddlewareMatcher::Any => MatcherModel::Any,
            MiddlewareMatcher::Rule(handle) => MatcherModel::Rule(*handle),
            MiddlewareMatcher::Prefix(prefix) => MatcherModel::Prefix(prefix@),
        }
    }
}

/// The models of a list of matchers.
pub open spec fn matcher_models(list: Seq<MiddlewareMatcher>) -> Seq<MatcherModel> {
    list.map_values(|m: MiddlewareMatcher| m@)
}

/// Whether a request is one that a matcher applies to; `rule_holds` tells whether
/// its rule holds, where it has one.
pub open spec fn applies(matcher: MatcherModel, path: Seq<char>, rule_holds: bool) -> bool {
    match matcher {
        MatcherModel::Any => true,
        MatcherModel::Rule(_) => rule_holds,
        MatcherModel::Prefix(prefix) => prefix.is_prefix_of(path),
    }
}

/// What decides whether a matcher applies to a request.
#[derive(Clone, Copy, Debug, PartialEq, Eq, Structural)]
pub enum MatchDecision {
    Applies,
    Passes,
    /// The rule of the script with this handle.
    AskRule(usize),
}

/// Decides whether a matcher applies to a request, as far as the path tells.
pub fn matcher_applies(matcher: &MiddlewareMatcher, path: &str) -> (decision: MatchDecision)
    ensures
        match decision {
            MatchDecision::Applies => applies(matcher@, path@, true) && applies(matcher@, path@, false),
            MatchDecision::Passes => !applies(matcher@, path@, true) && !applies(
                matcher@,
                path@,
                false,
            ),
            MatchDecision::AskRule(handle) => matcher@ == MatcherModel::Rule(handle),
        },
{
    match matcher {
        MiddlewareMatcher::Any => MatchDecision::Applies,
        MiddlewareMatcher::Rule(handle) => MatchDecision::AskRule(*handle),
        MiddlewareMatcher::Prefix(prefix) => {
            if crate::text::text_starts_with(path, prefix.as_str()) {
                MatchDecision::Applies
            } else {
                MatchDecision::Passes
            }
        },
    }
}

/// The matcher that a value stands for: a rule or a path prefix.
pub open spec fn matcher_in(value: LuaValue) -> Option<MatcherModel> {
    match value {
        LuaValue::Function(handle) => Some(MatcherModel::Rule(handle)),
        LuaValue::Text(prefix) => Some(MatcherModel::Prefix(prefix@)),
        _ => None,
    }
}

fn parse_matcher(value: &LuaValue) -> (matcher: Option<MiddlewareMatcher>)
    ensures
        match matcher {
            Some(m) => matcher_in(*value) == Some(m@),
            None => matcher_in(*value) is None,
        },
{
    match value {
        LuaValue::Function(handle) => Some(MiddlewareMatcher::Rule(*handle)),
        LuaValue::Text(prefix) => Some(MiddlewareMatcher::Prefix(prefix.clone())),
        _ => None,
    }
}

/// The matchers that the array of a table lists, or why it lists none.
pub open spec fn matchers_in(entries: Seq<(LuaKey, LuaValue)>) -> Result<
    Seq<MatcherModel>,
    Seq<char>,
> {
    let n = array_len(entries);
    if exists|i: int| 0 <= i < n && matcher_in(#[trigger] array_item(entries, i)) is None {
        Err("matcher array must contain only rule functions or path prefixes"@)
    } else if n == 0 {
        Err("matcher array cannot be empty"@)
    } else {
        Ok(Seq::new(n as nat, |i: int| matcher_in(array_item(entries, i))->0))
    }
}

/// Reads an array of matchers.
pub fn parse_matcher_array(entries: &Vec<(LuaKey, LuaValue)>) -> (matchers: Result<
    Vec<MiddlewareMatcher>,
    String,
>)
    ensures
        match (matchers, matchers_in(entries@)) {
            (Ok(list), Ok(expected)) => matcher_models(list@) == expected,
            (Err(message), Err(expected)) => message@ == expected,
            _ => false,
        },
{
    let places = array_places(entries);
    let mut list: Vec<MiddlewareMatcher> = Vec::new();
    let mut i: usize = 0;
    while i < places.len()
        invariant
            places@.len() == array_len(entries@),
            forall|j: int|
                0 <= j < places@.len() ==> (#[trigger] places@[j]) < entries@.len() && places@[j]
                    == entry_of(entries@, j + 1, 0),
            i <= places@.len(),
            list@.len() == i,
            forall|j: int|
                0 <= j < i ==> matcher_in(#[trigger] array_item(entries@, j)) == Some(list@[j]@),
        decreases places@.len() - i,
    {
        let at: usize = places[i];
        proof {
            assert(entries@[at as int].1 == array_item(entries@, i as int));
        }
        match parse_matcher(&entries[at].1) {
            Some(matcher) => {
                list.push(matcher);
            },
            None => {
                return Err(
                    "matcher array must contain only rule functions or path prefixes".to_owned(),
                );
            },
        }
        i += 1;
    }
    if list.len() == 0 {
        return Err("matcher array cannot be empty".to_owned());
    }
    proof {
        assert(matcher_models(list@) =~= matchers_in(entries@)->Ok_0);
    }
    Ok(list)
}

/// Why a middleware could not be mounted.
pub open spec fn bad_use() -> Seq<char> {
    "proxy.use expects use(handler), use(rule, handler), or use({rule, ...}, handler), where a rule is a function or a path prefix"@
}

/// The matchers and the handler that the arguments of a mount give, or why they
/// give none.
pub open spec fn mount_in(args: Seq<LuaValue>) -> Result<(Seq<MatcherModel>, usize), Seq<char>> {
    if args.len() == 1 && args[0] is Function {
        Ok((seq![MatcherModel::Any], args[0]->Function_0))
    } else if args.len() == 2 && args[1] is Function && matcher_in(args[0]) is Some {
        Ok((seq![matcher_in(args[0])->0], args[1]->Function_0))
    } else if args.len() == 2 && args[1] is Function && args[0] is Table {
        match matchers_in(args[0]->Table_0@) {
            Ok(matchers) => Ok((matchers, args[1]->Function_0)),
            Err(e) => Err(e),
        }
    } else {
        Err(bad_use())
    }
}

/// Reads the arguments of a middleware mount.
pub fn parse_middleware_use_args(args: &Vec<LuaValue>) -> (mount: Result<
    (Vec<MiddlewareMatcher>, usize),
    String,
>)
    ensures
        match (mount, mount_in(args@)) {
            (Ok(m), Ok(expected)) => matcher_models(m.0@) == expected.0 && m.1 == expected.1,
            (Err(message), Err(expected)) => message@ == expected,
            _ => false,
        },
{
    if args.len() == 1 {
        if let LuaValue::Function(handler) = &args[0] {
            let matchers: Vec<MiddlewareMatcher> = vec![MiddlewareMatcher::Any];
            proof {
                assert(matcher_models(matchers@) =~= seq![MatcherModel::Any]);
            }
            return Ok((matchers, *handler));
        }
    }
    if args.len() == 2 {
        if let LuaValue::Function(handler) = &args[1] {
            if let Some(matcher) = parse_matcher(&args[0]) {
                let ghost model = matcher@;
                let mut matchers: Vec<MiddlewareMatcher> = Vec::new();
                matchers.push(matcher);
                proof {
                    assert(matcher_models(matchers@) =~= seq![model]);
                }
                return Ok((matchers, *handler));
            }
            if let LuaValue::Table(entries) = &args[0] {
                return match parse_matcher_array(entries) {
                    Ok(matchers) => Ok((matchers, *handler)),
                    Err(e) => Err(e),
                };
            }
        }
    }
    Err(
        "proxy.use expects use(handler), use(rule, handler), or use({rule, ...}, handler), where a rule is a function or a path prefix".to_owned(),
    )
}

// ---------------------------------------------------------------------------
// Arrays of strings and of rules
// ---------------------------------------------------------------------------

/// Whether all the items of the array of a table are strings.
pub open spec fn lists_texts(entries: Seq<(LuaKey, LuaValue)>) -> bool {
    forall|i: int| 0 <= i < array_len(entries) ==> (#[trigger] array_item(entries, i)) is Text
}

/// Reads an array of one or more strings.
pub fn parse_lua_string_array(
    entries: &Vec<(LuaKey, LuaValue)>,
    expects_error: &str,
    empty_error: &str,
) -> (values: Result<Vec<String>, String>)
    ensures
        match values {
            Ok(list) => lists_texts(entries@) && array_len(entries@) > 0 && list@.len() == array_len(
                entries@,
            ) && forall|i: int|
                0 <= i < list@.len() ==> (#[trigger] array_item(entries@, i)) == LuaValue::Text(
                    list@[i],
                ),
            Err(message) => if lists_texts(entries@) {
                array_len(entries@) == 0 && message@ == empty_error@
            } else {
                message@ == expects_error@
            },
        },
{
    let places = array_places(entries);
    let mut list: Vec<String> = Vec::new();
    let mut i: usize = 0;
    while i < places.len()
        invariant
            places@.len() == array_len(entries@),
            forall|j: int|
                0 <= j < places@.len() ==> (#[trigger] places@[j]) < entries@.len() && places@[j]
                    == entry_of(entries@, j + 1, 0),
            i <= places@.len(),
            list@.len() == i,
            forall|j: int|
                0 <= j < i ==> (#[trigger] array_item(entries@, j)) == LuaValue::Text(list@[j]),
        decreases places@.len() - i,
    {
        let at: usize = places[i];
        proof {
            assert(entries@[at as int].1 == array_item(entries@, i as int));
        }
        match &entries[at].1 {
            LuaValue::Text(text) => {
                list.push(text.clone());
            },
            _ => {
                return Err(expects_error.to_owned());
            },
        }
        i += 1;
    }
    if list.len() == 0 {
        return Err(empty_error.to_owned());
    }
    Ok(list)
}

/// Whether all the items of the array of a table are functions.
pub open spec fn lists_rules(entries: Seq<(LuaKey, LuaValue)>) -> bool {
    forall|i: int| 0 <= i < array_len(entries) ==> (#[trigger] array_item(entries, i)) is Function
}

/// The handles of the functions that the array of a table lists.
pub open spec fn rules_in(entries: Seq<(LuaKey, LuaValue)>) -> Seq<usize> {
    Seq::new(array_len(entries) as nat, |i: int| array_item(entries, i)->Function_0)
}

/// Reads an array of one or more rules.
pub fn parse_lua_rule_key_array(
    entries: &Vec<(LuaKey, LuaValue)>,
    expects_error: &str,
    empty_error: &str,
) -> (rules: Result<Vec<usize>, String>)
    ensures
        match rules {
            Ok(list) => lists_rules(entries@) && array_len(entries@) > 0 && list@ == rules_in(entries@),
            Err(message) => if lists_rules(entries@) {
                array_len(entries@) == 0 && message@ == empty_error@
            } else {
                message@ == expects_error@
            },
        },
{
    let places = array_places(entries);
    let mut list: Vec<usize> = Vec::new();
    let mut i: usize = 0;
    while i < places.len()
        invariant
            places@.len() == array_len(entries@),
            forall|j: int|
                0 <= j < places@.len() ==> (#[trigger] places@[j]) < entries@.len() && places@[j]
                    == entry_of(entries@, j + 1, 0),
            i <= places@.len(),
            list@.len() == i,
            forall|j: int|
                0 <= j < i ==> (#[trigger] array_item(entries@, j)) == LuaValue::Function(list@[j]),
        decreases places@.len() - i,
    {
        let at: usize = places[i];
        proof {
            assert(entries@[at as int].1 == array_item(entries@, i as int));
        }
        match &entries[at].1 {
            LuaValue::Function(handle) => {
                list.push(*handle);
            },
            _ => {
                return Err(expects_error.to_owned());
            },
        }
        i += 1;
    }
    if list.len() == 0 {
        return Err(empty_error.to_owned());
    }
    proof {
        assert forall|j: int| 0 <= j < list@.len() implies list@[j] == rules_in(entries@)[j] by {
            assert(array_item(entries@, j) == LuaValue::Function(list@[j]));
        }
        assert(list@ =~= rules_in(entries@));
    }
    Ok(list)
}

/// The rules that a value gives: a function, or an array of functions. A message
/// says what the named interface expects where it gives none.
pub open spec fn rules_given(value: LuaValue, api_name: Seq<char>) -> Result<Seq<usize>, Seq<char>> {
    let expects = api_name + " expects a rule function or an array of rule functions"@;
    match value {
        LuaValue::Function(handle) => Ok(seq![handle]),
        LuaValue::Table(entries) => if !lists_rules(entries@) {
            Err(expects)
        } else if array_len(entries@) == 0 {
            Err(api_name + " requires at least one rule function"@)
        } else {
            Ok(rules_in(entries@))
        },
        _ => Err(expects),
    }
}

/// Reads a rule or an array of rules.
pub fn parse_rule_keys_value(value: &LuaValue, api_name: &str) -> (rules: Result<Vec<usize>, String>)
    ensures
        match (rules, rules_given(*value, api_name@)) {
            (Ok(list), Ok(expected)) => list@ == expected,
            (Err(message), Err(expected)) => message@ == expected,
            _ => false,
        },
{
    let expects = joined(api_name, " expects a rule function or an array of rule functions");
    match value {
        LuaValue::Function(handle) => {
            let mut list: Vec<usize> = Vec::new();
            list.push(*handle);
            proof {
                assert(list@ =~= seq![*handle]);
            }
            Ok(list)
        },
        LuaValue::Table(entries) => {
            let empty = joined(api_name, " requires at least one rule function");
            parse_lua_rule_key_array(entries, expects.as_str(), empty.as_str())
        },
        _ => Err(expects),
    }
}

// ---------------------------------------------------------------------------
// Upstreams of static forwards
// ---------------------------------------------------------------------------

/// An endpoint that requests are statically forwarded to.
#[derive(Clone, Debug)]
pub struct StaticForwardUpstream {
    pub scheme: String,
    pub host: String,
    pub port: u16,
}

/// What an upstream holds: its scheme, its host and its port.
pub struct UpstreamModel {
    pub scheme: Seq<char>,
    pub host: Seq<char>,
    pub port: u16,
}

impl View for StaticForwardUpstream {
    type V = UpstreamModel;

    open spec fn view(&self) -> UpstreamModel {
        UpstreamModel { scheme: self.scheme@, host: self.host@, port: self.port }
    }
}

/// The models of a list of upstreams.
pub open spec fn upstream_models(list: Seq<StaticForwardUpstream>) -> Seq<UpstreamModel> {
    list.map_values(|u: StaticForwardUpstream| u@)
}

/// The default port of a scheme.
pub open spec fn default_port(scheme: Seq<char>) -> u16 {
    if ascii_lowered(scheme) == ascii_lowered("https"@) {
        443
    } else {
        80
    }
}

/// The default port of a scheme.
pub fn default_port_for_scheme(scheme: &str) -> (port: u16)
    ensures
        port == default_port(scheme@),
{
    if same_ignoring_case(scheme, "https") {
        443
    } else {
        80
    }
}

impl StaticForwardUpstream {
    /// The base URI of the upstream.
    pub fn to_uri(&self) -> (uri: String)
        ensures
            uri@ == base_uri(self.scheme@, self.host@, self.port),
    {
        format_base_uri(self.scheme.as_str(), self.host.as_str(), self.port)
    }

    /// The host and port under which the upstream is reached; port 0 stands for
    /// the default port of the scheme.
    pub fn authority(&self) -> (authority: String)
        ensures
            authority@ == uri_host(self.host@) + ":"@ + decimal(
                (if self.port == 0 {
                    default_port(self.scheme@)
                } else {
                    self.port
                }) as nat,
            ),
    {
        let port: u16 = if self.port == 0 {
            default_port_for_scheme(self.scheme.as_str())
        } else {
            self.port
        };
        let host = format_uri_host(self.host.as_str());
        joined3(host.as_str(), ":", format_unsigned(port as u64).as_str())
    }
}

/// The scheme of an upstream URI and what follows it; HTTP where it has none.
pub open spec fn upstream_scheme(uri: Seq<char>) -> (Seq<char>, Seq<char>) {
    match after_prefix(uri, "http://"@) {
        Some(rest) => ("http"@, rest),
        None => match after_prefix(uri, "https://"@) {
            Some(rest) => ("https"@, rest),
            None => ("http"@, uri),
        },
    }
}

/// The upstream that a URI writes, or why it writes none.
pub open spec fn upstream_in(uri: Seq<char>) -> Result<UpstreamModel, Seq<char>> {
    let text = trimmed(uri);
    let (scheme, rest) = upstream_scheme(text);
    let (host, port) = host_and_port(
        up_to(rest, '/'),
        if scheme == "https"@ {
            443
        } else {
            80
        },
    );
    if text.len() == 0 {
        Err("proxy.forward upstream URI cannot be empty"@)
    } else {
        Ok(UpstreamModel { scheme, host, port })
    }
}

/// Reads the URI of an upstream.
pub fn parse_static_forward_upstream_uri(uri: &str) -> (upstream: Result<
    StaticForwardUpstream,
    String,
>)
    ensures
        match (upstream, upstream_in(uri@)) {
            (Ok(u), Ok(expected)) => u@ == expected,
            (Err(message), Err(expected)) => message@ == expected,
            _ => false,
        },
{
    let text = trim(uri);
    if text.as_str().is_empty() {
        return Err("proxy.forward upstream URI cannot be empty".to_owned());
    }
    let (scheme, rest) = if let Some(rest) = strip_prefix(text.as_str(), "http://") {
        ("http", rest)
    } else if let Some(rest) = strip_prefix(text.as_str(), "https://") {
        ("https", rest)
    } else {
        ("http", text)
    };
    let standard: u16 = if same_text(scheme, "https") {
        443
    } else {
        80
    };
    let authority = text_up_to(rest.as_str(), '/');
    let (host, port) = split_authority_host_and_port(authority.as_str(), standard);
    Ok(StaticForwardUpstream { scheme: scheme.to_owned(), host, port })
}

/// An upstream as a script writes it.
#[derive(Clone, Debug)]
pub enum UpstreamArg {
    Uri(String),
    /// The scheme, the host and the port of a table.
    Endpoint(Option<String>, String, Option<u16>),
    Other,
}

/// The upstream that an argument gives, or why it gives none.
pub open spec fn upstream_given(arg: UpstreamArg) -> Result<UpstreamModel, Seq<char>> {
    match arg {
        UpstreamArg::Uri(uri) => upstream_in(uri@),
        UpstreamArg::Endpoint(scheme, host, port) => if trimmed(host@).len() == 0 {
            Err("proxy.forward upstream host is required"@)
        } else {
            Ok(
                UpstreamModel {
                    scheme: match scheme {
                        Some(s) => s@,
                        None => "http"@,
                    },
                    host: host@,
                    port: match port {
                        Some(p) => p,
                        None => 0,
                    },
                },
            )
        },
        UpstreamArg::Other => Err("proxy.forward upstreams must be strings or tables"@),
    }
}

/// Reads one upstream.
pub fn parse_upstream(arg: &UpstreamArg) -> (upstream: Result<StaticForwardUpstream, String>)
    ensures
        match (upstream, upstream_given(*arg)) {
            (Ok(u), Ok(expected)) => u@ == expected,
            (Err(message), Err(expected)) => message@ == expected,
            _ => false,
        },
{
    match arg {
        UpstreamArg::Uri(uri) => parse_static_forward_upstream_uri(uri.as_str()),
        UpstreamArg::Endpoint(scheme, host, port) => {
            if is_blank(host.as_str()) {
                return Err("proxy.forward upstream host is required".to_owned());
            }
            Ok(
                StaticForwardUpstream {
                    scheme: match scheme {
                        Some(s) => s.clone(),
                        None => "http".to_owned(),
                    },
                    host: host.clone(),
                    port: match port {
                        Some(p) => *p,
                        None => 0,
                    },
                },
            )
        },
        UpstreamArg::Other => Err("proxy.forward upstreams must be strings or tables".to_owned()),
    }
}

/// The upstreams that the first `n` arguments give, or why the first bad one gives none.
pub open spec fn upstreams_given(args: Seq<UpstreamArg>, n: int) -> Result<Seq<UpstreamModel>, Seq<char>>
    decreases n,
{
    if n <= 0 {
        Ok(Seq::empty())
    } else {
        match upstreams_given(args, n - 1) {
            Err(e) => Err(e),
            Ok(list) => match upstream_given(args[n - 1]) {
                Ok(u) => Ok(list.push(u)),
                Err(e) => Err(e),
            },
        }
    }
}

/// The upstreams of a static forward: at least one.
pub open spec fn all_upstreams_given(args: Seq<UpstreamArg>) -> Result<Seq<UpstreamModel>, Seq<char>> {
    match upstreams_given(args, args.len() as int) {
        Err(e) => Err(e),
        Ok(list) => if list.len() == 0 {
            Err("proxy.forward requires at least one upstream"@)
        } else {
            Ok(list)
        },
    }
}

proof fn upstream_error_stays(args: Seq<UpstreamArg>, m: int, n: int)
    requires
        m <= n,
        upstreams_given(args, m) is Err,
    ensures
        upstreams_given(args, n) == upstreams_given(args, m),
    decreases n - m,
{
    if m < n {
        upstream_error_stays(args, m, n - 1);
    }
}

/// Reads the upstreams of a static forward.
pub fn parse_static_forward_upstreams(args: &Vec<UpstreamArg>) -> (upstreams: Result<
    Vec<StaticForwardUpstream>,
    String,
>)
    ensures
        match (upstreams, all_upstreams_given(args@)) {
            (Ok(list), Ok(expected)) => upstream_models(list@) == expected,
            (Err(message), Err(expected)) => message@ == expected,
            _ => false,
        },
{
    let mut list: Vec<StaticForwardUpstream> = Vec::new();
    let mut i: usize = 0;
    proof {
        assert(upstream_models(list@) =~= Seq::<UpstreamModel>::empty());
    }
    while i < args.len()
        invariant
            i <= args@.len(),
            upstreams_given(args@, i as int) == Ok::<Seq<UpstreamModel>, Seq<char>>(
                upstream_models(list@),
            ),
        decreases args@.len() - i,
    {
        let ghost before = list@;
        match parse_upstream(&args[i]) {
            Ok(upstream) => {
                list.push(upstream);
                proof {
                    assert(upstream_models(list@) =~= upstream_models(before).push(upstream@));
                }
            },
            Err(e) => {
                proof {
                    upstream_error_stays(args@, i + 1, args@.len() as int);
                }
                return Err(e);
            },
        }
        i += 1;
    }
    if list.len() == 0 {
        return Err("proxy.forward requires at least one upstream".to_owned());
    }
    Ok(list)
}

/// The matchers that an array of rules gives, or why it gives none. A path prefix is
/// no rule.
pub open spec fn rule_matchers_in(entries: Seq<(LuaKey, LuaValue)>) -> Result<
    Seq<MatcherModel>,
    Seq<char>,
> {
    if !lists_rules(entries) {
        Err("matcher array must contain only rule functions"@)
    } else if array_len(entries) == 0 {
        Err("matcher array cannot be empty"@)
    } else {
        Ok(rules_in(entries).map_values(|handle: usize| MatcherModel::Rule(handle)))
    }
}

/// Reads an array of rules as matchers.
fn parse_rule_matchers(entries: &Vec<(LuaKey, LuaValue)>) -> (matchers: Result<
    Vec<MiddlewareMatcher>,
    String,
>)
    ensures
        match (matchers, rule_matchers_in(entries@)) {
            (Ok(list), Ok(expected)) => matcher_models(list@) == expected,
            (Err(message), Err(expected)) => message@ == expected,
            _ => false,
        },
{
    let rules = match parse_lua_rule_key_array(
        entries,
        "matcher array must contain only rule functions",
        "matcher array cannot be empty",
    ) {
        Ok(rules) => rules,
        Err(e) => {
            return Err(e);
        },
    };
    let mut list: Vec<MiddlewareMatcher> = Vec::new();
    let mut i: usize = 0;
    while i < rules.len()
        invariant
            i <= rules@.len(),
            list@.len() == i,
            forall|j: int| 0 <= j < i ==> (#[trigger] list@[j])@ == MatcherModel::Rule(rules@[j]),
        decreases rules@.len() - i,
    {
        list.push(MiddlewareMatcher::Rule(rules[i]));
        i += 1;
    }
    proof {
        assert(matcher_models(list@) =~= rules@.map_values(
            |handle: usize| MatcherModel::Rule(handle),
        ));
    }
    Ok(list)
}

/// The matchers and the upstreams that the arguments of a static forward give, or
/// why they give none. The second argument is absent where it is not a table.
pub open spec fn forward_in(args: Seq<LuaValue>, upstreams: Option<Seq<UpstreamArg>>) -> Result<
    (Seq<MatcherModel>, Seq<UpstreamModel>),
    Seq<char>,
> {
    if args.len() != 2 || upstreams is None || !(args[0] is Function || args[0] is Table) {
        Err(
            "proxy.forward expects forward(ruleFn, upstreams) or forward({ruleFn, ...}, upstreams)"@,
        )
    } else {
        let matchers = if args[0] is Function {
            Ok(seq![MatcherModel::Rule(args[0]->Function_0)])
        } else {
            rule_matchers_in(args[0]->Table_0@)
        };
        match matchers {
            Err(e) => Err(e),
            Ok(m) => match all_upstreams_given(upstreams->0) {
                Err(e) => Err(e),
                Ok(u) => Ok((m, u)),
            },
        }
    }
}

/// The view of an optional list of upstream arguments.
pub open spec fn optional_args(args: Option<Vec<UpstreamArg>>) -> Option<Seq<UpstreamArg>> {
    match args {
        Some(list) => Some(list@),
        None => None,
    }
}

/// Reads the arguments of a static forward.
pub fn parse_proxy_forward_args(args: &Vec<LuaValue>, upstreams: &Option<Vec<UpstreamArg>>) -> (forward: Result<
    (Vec<MiddlewareMatcher>, Vec<StaticForwardUpstream>),
    String,
>)
    ensures
        match (forward, forward_in(args@, optional_args(*upstreams))) {
            (Ok(f), Ok(expected)) => matcher_models(f.0@) == expected.0 && upstream_models(f.1@)
                == expected.1,
            (Err(message), Err(expected)) => message@ == expected,
            _ => false,
        },
{
    if args.len() == 2 {
        if let Some(upstreams) = upstreams {
            let matchers = match &args[0] {
                LuaValue::Function(handle) => {
                    let mut list: Vec<MiddlewareMatcher> = Vec::new();
                    list.push(MiddlewareMatcher::Rule(*handle));
                    proof {
                        assert(matcher_models(list@) =~= seq![MatcherModel::Rule(*handle)]);
                    }
                    Some(list)
                },
                LuaValue::Table(entries) => match parse_rule_matchers(entries) {
                    Ok(list) => Some(list),
                    Err(e) => {
                        return Err(e);
                    },
                },
                _ => None,
            };
            if let Some(matchers) = matchers {
                return match parse_static_forward_upstreams(upstreams) {
                    Ok(list) => Ok((matchers, list)),
                    Err(e) => Err(e),
                };
            }
        }
    }
    Err(
        "proxy.forward expects forward(ruleFn, upstreams) or forward({ruleFn, ...}, upstreams)".to_owned(),
    )
}

} // verus!
