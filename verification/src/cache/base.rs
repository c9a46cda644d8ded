//! Provider selection, and the options of sorted listings.

use crate::text::{
    ascii_lowered, ascii_raised, occurs, parse_unsigned, same_ignoring_case, same_text, split_words,
    text_has_part, texts, to_ascii_upper, unsigned_in, words,
};
use vstd::prelude::*;
use vstd::string::*;

verus! {

/// Where cached data are kept.
#[derive(Clone, Copy, Debug, PartialEq, Eq, Structural)]
pub enum CacheProviderKind {
    Memory,
    Redis,
    Memcached,
}

/// The provider of a name.
pub open spec fn provider_named(name: Seq<char>) -> Option<CacheProviderKind> {
    if name == "redis"@ {
        Some(CacheProviderKind::Redis)
    } else if name == "memcached"@ {
        Some(CacheProviderKind::Memcached)
    } else if name == "memory"@ {
        Some(CacheProviderKind::Memory)
    } else {
        None
    }
}

/// Returns the supported cache provider names.
pub fn supported_providers() -> (names: Vec<String>)
    ensures
        texts(names@) == seq!["memory"@, "redis"@, "memcached"@],
{
    let names: Vec<String> = vec!["memory".to_owned(), "redis".to_owned(), "memcached".to_owned()];
    proof {
        assert(texts(names@) =~= seq!["memory"@, "redis"@, "memcached"@]);
    }
    names
}

/// Selects the cache strategy of the given name. Supported values are `memory`,
/// `redis`, and `memcached`; any other is answered with a message that names them.
pub fn select_provider(name: &str) -> (selected: Result<CacheProviderKind, String>)
    ensures
        match selected {
            Ok(kind) => provider_named(name@) == Some(kind),
            Err(message) => provider_named(name@) is None && message@
                == "Unsupported cache provider: "@ + name@
                + ". Supported providers: memory, redis, memcached"@,
        },
{
    if same_text(name, "redis") {
        Ok(CacheProviderKind::Redis)
    } else if same_text(name, "memcached") {
        Ok(CacheProviderKind::Memcached)
    } else if same_text(name, "memory") {
        Ok(CacheProviderKind::Memory)
    } else {
        let mut message: String = "Unsupported cache provider: ".to_owned();
        message.append(name);
        message.append(". Supported providers: memory, redis, memcached");
        Err(message)
    }
}

impl CacheProviderKind {
    /// The cache strategy of the named provider, or a message that names those that
    /// there are. Whether a server can be reached does not matter.
    pub fn try_new(provider: &str) -> (kind: Result<Self, String>)
        ensures
            match kind {
                Ok(k) => provider_named(provider@) == Some(k),
                Err(message) => provider_named(provider@) is None && message@
                    == "Unsupported cache provider: "@ + provider@
                    + ". Supported providers: memory, redis, memcached"@,
            },
    {
        select_provider(provider)
    }

    /// The cache strategy of a provider that is known to be supported.
    ///
    /// Supported values are `memory`, `redis`, and `memcached`.
    pub fn new(provider: &str) -> (kind: Self)
        requires
            provider_named(provider@) is Some,
        ensures
            Some(kind) == provider_named(provider@),
    {
        if same_text(provider, "redis") {
            CacheProviderKind::Redis
        } else if same_text(provider, "memcached") {
            CacheProviderKind::Memcached
        } else {
            CacheProviderKind::Memory
        }
    }
}

/// A provider is supported exactly where its name is, letter for letter, one of the
/// three: on these names and no others `try_new` succeeds and `new` may be called.
pub proof fn supported_names_are_exact(name: Seq<char>)
    ensures
        provider_named(name) is Some <==> name == "memory"@ || name == "redis"@ || name
            == "memcached"@,
        provider_named("memory"@) == Some(CacheProviderKind::Memory),
        provider_named("redis"@) == Some(CacheProviderKind::Redis),
        provider_named("memcached"@) == Some(CacheProviderKind::Memcached),
{
    reveal_strlit("memory");
    reveal_strlit("redis");
    reveal_strlit("memcached");
    assert("memory"@.len() == 6);
    assert("redis"@.len() == 5);
    assert("memcached"@.len() == 9);
}

/// The first word `LIMIT`, in any case, from place `from` on, or the number of words.
pub open spec fn limit_place(tokens: Seq<Seq<char>>, from: int) -> int
    decreases tokens.len() - from,
{
    if from >= tokens.len() {
        tokens.len() as int
    } else if ascii_lowered(tokens[from]) == ascii_lowered("LIMIT"@) {
        from
    } else {
        limit_place(tokens, from + 1)
    }
}

/// The number in the word at a place.
pub open spec fn count_at(tokens: Seq<Seq<char>>, at: int) -> Option<nat> {
    if at < tokens.len() {
        unsigned_in(tokens[at], usize::MAX as nat)
    } else {
        None
    }
}

/// Up to `count` items of a list, from `offset` on.
pub open spec fn window<A>(list: Seq<A>, offset: nat, count: nat) -> Seq<A> {
    let from = if offset < list.len() { offset as int } else { list.len() as int };
    let to = if count < list.len() - from { from + count } else { list.len() as int };
    list.subrange(from, to)
}

/// A listing after its options: `DESC`, anywhere in the options and in any case,
/// turns it around; then `LIMIT offset count` keeps a window of it, where both
/// numbers are well-formed.
pub open spec fn with_options<A>(list: Seq<A>, options: Seq<char>) -> Seq<A> {
    let turned = if occurs(ascii_raised(options), "DESC"@) {
        list.reverse()
    } else {
        list
    };
    let tokens = words(options);
    let at = limit_place(tokens, 0);
    match (count_at(tokens, at + 1), count_at(tokens, at + 2)) {
        (Some(offset), Some(count)) => window(turned, offset, count),
        _ => turned,
    }
}

fn reversed(list: Vec<String>) -> (turned: Vec<String>)
    ensures
        turned@ == list@.reverse(),
{
    let mut turned: Vec<String> = Vec::new();
    let mut i: usize = list.len();
    while i > 0
        invariant
            i <= list@.len(),
            turned@ == list@.reverse().take(list@.len() - i),
        decreases i,
    {
        i -= 1;
        turned.push(list[i].clone());
        proof {
            assert(list@.reverse().take(list@.len() - i) =~= list@.reverse().take(
                list@.len() - i - 1,
            ).push(list@[i as int]));
        }
    }
    proof {
        assert(list@.reverse().take(list@.len() as int) =~= list@.reverse());
    }
    turned
}

/// Up to `count` items of a list, from `offset` on.
pub fn take_window(list: &Vec<String>, offset: usize, count: usize) -> (kept: Vec<String>)
    ensures
        kept@ == window(list@, offset as nat, count as nat),
{
    let from: usize = if offset < list.len() {
        offset
    } else {
        list.len()
    };
    let to: usize = if count < list.len() - from {
        from + count
    } else {
        list.len()
    };
    let mut kept: Vec<String> = Vec::new();
    let mut i: usize = from;
    while i < to
        invariant
            from <= i <= to <= list@.len(),
            kept@ == list@.subrange(from as int, i as int),
        decreases to - i,
    {
        kept.push(list[i].clone());
        i += 1;
        proof {
            assert(list@.subrange(from as int, i as int) =~= list@.subrange(from as int, i - 1).push(
                list@[i - 1],
            ));
        }
    }
    kept
}

fn token_count(tokens: &Vec<String>, at: usize) -> (n: Option<usize>)
    ensures
        match n {
            Some(v) => count_at(texts(tokens@), at as int) == Some(v as nat),
            None => count_at(texts(tokens@), at as int) is None,
        },
{
    if at < tokens.len() {
        match parse_unsigned(tokens[at].as_str(), usize::MAX as u64) {
            Some(v) => Some(v as usize),
            None => None,
        }
    } else {
        None
    }
}

/// Applies the options of a sorted listing.
pub fn apply_sort_options(values: Vec<String>, options: &str) -> (listed: Vec<String>)
    ensures
        listed@ == with_options(values@, options@),
{
    let turned = if text_has_part(to_ascii_upper(options).as_str(), "DESC") {
        reversed(values)
    } else {
        values
    };
    let tokens = split_words(options);
    let mut at: usize = 0;
    while at < tokens.len()
        invariant_except_break
            limit_place(texts(tokens@), 0) == limit_place(texts(tokens@), at as int),
        invariant
            at <= tokens@.len(),
        ensures
            at == limit_place(texts(tokens@), 0),
        decreases tokens@.len() - at,
    {
        if same_ignoring_case(tokens[at].as_str(), "LIMIT") {
            break;
        }
        at += 1;
    }
    if at >= tokens.len() {
        return turned;
    }
    let offset = token_count(&tokens, at + 1);
    if at + 1 >= tokens.len() {
        return turned;
    }
    let count = token_count(&tokens, at + 2);
    match (offset, count) {
        (Some(o), Some(c)) => take_window(&turned, o, c),
        _ => turned,
    }
}

} // verus!
