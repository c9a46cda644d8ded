//! HTTP headers.
//!
//! Headers are kept in the header map of the `http` crate. To proofs such a map
//! holds, for each name, the values that came in under it, in order.

use crate::string_map::StringMap;
use crate::text::{ascii_lowered, chars_of, to_ascii_lower};
use axum::http::{HeaderMap, HeaderName, HeaderValue};
use vstd::prelude::*;
use vstd::string::*;
use vstd::utf8::*;

verus! {

/// `http::HeaderMap`, the multimap of headers of the `http` crate.
#[verifier::external_type_specification]
#[verifier::external_body]
#[verifier::reject_recursive_types(T)]
pub struct ExHeaderMap<T>(axum::http::HeaderMap<T>);

/// `http::HeaderValue`, the value of a header.
#[verifier::external_type_specification]
#[verifier::external_body]
pub struct ExHeaderValue(axum::http::HeaderValue);

/// What a header map holds: the values of each name, in the order in which they
/// came in.
pub uninterp spec fn headers_in(map: HeaderMap<HeaderValue>) -> Map<Seq<char>, Seq<Seq<u8>>>;

/// How many names a header map is given here at most. Up to here the map takes
/// every name; beyond, whether it takes another depends on how its hash table has
/// grown.
pub open spec fn name_limit() -> nat {
    6554
}

/// The characters of a header name.
pub open spec fn is_name_char(c: char) -> bool {
    ||| '0' <= c <= '9'
    ||| 'a' <= c <= 'z'
    ||| c == '!'
    ||| c == '#'
    ||| c == '$'
    ||| c == '%'
    ||| c == '&'
    ||| c == '\''
    ||| c == '*'
    ||| c == '+'
    ||| c == '-'
    ||| c == '.'
    ||| c == '^'
    ||| c == '_'
    ||| c == '`'
    ||| c == '|'
    ||| c == '~'
}

/// Whether `s` is a header name in small letters.
pub open spec fn is_header_name(s: Seq<char>) -> bool {
    0 < s.len() <= 65535 && forall|i: int| 0 <= i < s.len() ==> is_name_char(#[trigger] s[i])
}

/// Whether a header map can hold `s` as a name. It can hold a double quote, which no
/// name that is read from a text has.
pub open spec fn is_held_name(s: Seq<char>) -> bool {
    0 < s.len() <= 65535 && forall|i: int|
        0 <= i < s.len() ==> is_name_char(#[trigger] s[i]) || s[i] == '"'
}

/// Whether a byte may stand in a header value.
pub open spec fn is_value_byte(b: u8) -> bool {
    b == 9 || (b >= 32 && b != 127)
}

/// Whether bytes are a header value.
pub open spec fn is_header_value(bytes: Seq<u8>) -> bool {
    forall|i: int| 0 <= i < bytes.len() ==> is_value_byte(#[trigger] bytes[i])
}

/// The names and values of a listing of headers.
pub open spec fn listed(entries: Seq<(String, Vec<u8>)>) -> Seq<(Seq<char>, Seq<u8>)> {
    entries.map_values(|e: (String, Vec<u8>)| (e.0@, e.1@))
}

/// The values that a listing gives to a name, in order.
pub open spec fn values_of(entries: Seq<(Seq<char>, Seq<u8>)>, name: Seq<char>) -> Seq<Seq<u8>>
    decreases entries.len(),
{
    if entries.len() == 0 {
        Seq::empty()
    } else {
        let before = values_of(entries.drop_last(), name);
        if entries.last().0 == name {
            before.push(entries.last().1)
        } else {
            before
        }
    }
}

/// The values that a header map gives to a name; none where it does not hold it.
pub open spec fn values_in(headers: Map<Seq<char>, Seq<Seq<u8>>>, name: Seq<char>) -> Seq<Seq<u8>> {
    if headers.contains_key(name) {
        headers[name]
    } else {
        Seq::empty()
    }
}

/// `HeaderMap::new`: a map without headers.
#[verifier::external_body]
pub(crate) fn new_header_map() -> (map: HeaderMap<HeaderValue>)
    ensures
        headers_in(map).dom() == Set::<Seq<char>>::empty(),
{
    HeaderMap::new()
}

/// `HeaderMap::keys_len`: the number of names that the map holds.
#[verifier::external_body]
pub(crate) fn count_names(map: &HeaderMap<HeaderValue>) -> (n: usize)
    ensures
        n == headers_in(*map).dom().len(),
{
    map.keys_len()
}

/// `HeaderMap::get`: the first value of a name, if the map holds it.
#[verifier::external_body]
pub(crate) fn first_header(map: &HeaderMap<HeaderValue>, name: &str) -> (value: Option<Vec<u8>>)
    requires
        is_header_name(name@),
    ensures
        value is Some == headers_in(*map).contains_key(name@),
        value matches Some(v) ==> headers_in(*map)[name@].len() > 0 && v@ == headers_in(*map)[name@][0],
{
    map.get(name).map(|value| value.as_bytes().to_vec())
}

/// `HeaderMap::insert`: puts one value in place of all those of a name. The name is
/// converted by `HeaderName::from_lowercase`, which takes every name that a map can
/// hold.
#[verifier::external_body]
pub(crate) fn insert_header(map: &mut HeaderMap<HeaderValue>, name: &str, value: &Vec<u8>)
    requires
        is_held_name(name@),
        is_header_value(value@),
        headers_in(*old(map)).dom().finite(),
        headers_in(*old(map)).dom().len() < name_limit(),
    ensures
        headers_in(*final(map)) == headers_in(*old(map)).insert(name@, seq![value@]),
{
    let name = HeaderName::from_lowercase(name.as_bytes());
    let value = HeaderValue::from_bytes(value);
    if let (Ok(name), Ok(value)) = (name, value) {
        map.insert(name, value);
    }
}

/// `HeaderMap::append`: adds a value after those of a name, which is converted by
/// `HeaderName::from_lowercase`.
#[verifier::external_body]
pub(crate) fn append_header(map: &mut HeaderMap<HeaderValue>, name: &str, value: &Vec<u8>)
    requires
        is_held_name(name@),
        is_header_value(value@),
        headers_in(*old(map)).dom().finite(),
        headers_in(*old(map)).dom().len() < name_limit(),
    ensures
        headers_in(*final(map)) == headers_in(*old(map)).insert(
            name@,
            values_in(headers_in(*old(map)), name@).push(value@),
        ),
{
    let name = HeaderName::from_lowercase(name.as_bytes());
    let value = HeaderValue::from_bytes(value);
    if let (Ok(name), Ok(value)) = (name, value) {
        map.append(name, value);
    }
}

/// `HeaderMap::iter`: every value once, with its name, those of one name in
/// order; each name has one at least, and all are such as a map can hold. How the
/// names follow each other is left unsaid.
#[verifier::external_body]
pub(crate) fn list_headers(map: &HeaderMap<HeaderValue>) -> (entries: Vec<(String, Vec<u8>)>)
    ensures
        forall|name: Seq<char>| #[trigger]
            values_of(listed(entries@), name) == values_in(headers_in(*map), name),
        forall|name: Seq<char>| #[trigger]
            headers_in(*map).contains_key(name) ==> values_of(listed(entries@), name).len() > 0,
        forall|i: int|
            0 <= i < entries@.len() ==> is_held_name((#[trigger] entries@[i]).0@) && is_header_value(
                entries@[i].1@,
            ),
{
    map.iter().map(|(name, value)| (name.as_str().to_string(), value.as_bytes().to_vec())).collect()
}

proof fn value_has_an_entry(entries: Seq<(Seq<char>, Seq<u8>)>, name: Seq<char>)
    requires
        values_of(entries, name).len() > 0,
    ensures
        entries.map_values(|e: (Seq<char>, Seq<u8>)| e.0).contains(name),
    decreases entries.len(),
{
    let names = entries.map_values(|e: (Seq<char>, Seq<u8>)| e.0);
    if entries.last().0 == name {
        assert(names[entries.len() - 1] == name);
    } else {
        value_has_an_entry(entries.drop_last(), name);
        let rest = entries.drop_last().map_values(|e: (Seq<char>, Seq<u8>)| e.0);
        let i = rest.index_of(name);
        assert(names[i] == name);
    }
}

/// A header map whose names are all listed holds finitely many.
pub(crate) proof fn listed_names_are_finite(
    headers: Map<Seq<char>, Seq<Seq<u8>>>,
    entries: Seq<(Seq<char>, Seq<u8>)>,
)
    requires
        forall|name: Seq<char>| #[trigger]
            headers.contains_key(name) ==> values_of(entries, name).len() > 0,
    ensures
        headers.dom().finite(),
{
    let names = entries.map_values(|e: (Seq<char>, Seq<u8>)| e.0);
    vstd::seq_lib::seq_to_set_is_finite(names);
    assert forall|name: Seq<char>| headers.dom().contains(name) implies names.to_set().contains(
        name,
    ) by {
        assert(headers.contains_key(name));
        value_has_an_entry(entries, name);
    }
    vstd::set_lib::lemma_len_subset(headers.dom(), names.to_set());
}

fn name_char(c: char) -> (yes: bool)
    ensures
        yes == is_name_char(c),
{
    ('0' <= c && c <= '9') || ('a' <= c && c <= 'z') || c == '!' || c == '#' || c == '$' || c == '%'
        || c == '&' || c == '\'' || c == '*' || c == '+' || c == '-' || c == '.' || c == '^' || c
        == '_' || c == '`' || c == '|' || c == '~'
}

/// The header name that a text writes, in small letters.
pub open spec fn header_name_in(text: Seq<char>) -> Option<Seq<char>> {
    if is_header_name(ascii_lowered(text)) {
        Some(ascii_lowered(text))
    } else {
        None
    }
}

/// Brings a header name into small letters, where it is one.
pub fn canonical_header_name(text: &str) -> (name: Option<String>)
    ensures
        match name {
            Some(n) => header_name_in(text@) == Some(n@),
            None => header_name_in(text@) is None,
        },
{
    let lowered = to_ascii_lower(text);
    let chars = chars_of(lowered.as_str());
    if chars.len() == 0 || chars.len() > 65535 {
        return None;
    }
    let mut i: usize = 0;
    while i < chars.len()
        invariant
            chars@ == lowered@,
            lowered@ == ascii_lowered(text@),
            i <= chars@.len(),
            forall|j: int| 0 <= j < i ==> is_name_char(#[trigger] chars@[j]),
        decreases chars@.len() - i,
    {
        if !name_char(chars[i]) {
            return None;
        }
        i += 1;
    }
    Some(lowered)
}

/// The bytes of a text that can stand as a header value.
pub fn header_value_bytes(text: &str) -> (bytes: Option<Vec<u8>>)
    ensures
        match bytes {
            Some(b) => is_header_value(encode_utf8(text@)) && b@ == encode_utf8(text@),
            None => !is_header_value(encode_utf8(text@)),
        },
{
    let bytes = text.as_bytes_vec();
    let mut i: usize = 0;
    while i < bytes.len()
        invariant
            bytes@ == encode_utf8(text@),
            i <= bytes@.len(),
            forall|j: int| 0 <= j < i ==> is_value_byte(#[trigger] bytes@[j]),
        decreases bytes@.len() - i,
    {
        if !(bytes[i] == 9 || (bytes[i] >= 32 && bytes[i] != 127)) {
            return None;
        }
        i += 1;
    }
    Some(bytes)
}

/// Whether bytes are visible ASCII text.
pub open spec fn is_visible(bytes: Seq<u8>) -> bool {
    forall|i: int|
        0 <= i < bytes.len() ==> #[trigger] bytes[i] == 9 || (32 <= bytes[i] && bytes[i] < 127)
}

/// The text of a header value, where it is visible ASCII.
pub open spec fn visible_text(bytes: Seq<u8>) -> Option<Seq<char>> {
    if is_visible(bytes) {
        Some(bytes.map_values(|b: u8| b as char))
    } else {
        None
    }
}

/// Reads a header value as text, where it is visible ASCII.
pub fn header_text(bytes: &Vec<u8>) -> (text: Option<String>)
    ensures
        match text {
            Some(t) => visible_text(bytes@) == Some(t@),
            None => visible_text(bytes@) is None,
        },
{
    let mut text: String = String::new();
    let mut i: usize = 0;
    while i < bytes.len()
        invariant
            i <= bytes@.len(),
            text@.len() == i,
            forall|j: int|
                0 <= j < i ==> #[trigger] bytes@[j] == 9 || (32 <= bytes@[j] && bytes@[j] < 127),
            forall|j: int| 0 <= j < i ==> #[trigger] text@[j] == bytes@[j] as char,
        decreases bytes@.len() - i,
    {
        let b: u8 = bytes[i];
        if !(b == 9 || (b >= 32 && b < 127)) {
            return None;
        }
        text.push(b as char);
        i += 1;
    }
    proof {
        assert(text@ =~= bytes@.map_values(|b: u8| b as char));
    }
    Some(text)
}

/// The text of the first value of a name, where it is visible ASCII.
pub open spec fn header_text_in(headers: Map<Seq<char>, Seq<Seq<u8>>>, name: Seq<char>) -> Option<
    Seq<char>,
> {
    if headers.contains_key(name) {
        visible_text(headers[name][0])
    } else {
        None
    }
}

/// Reads the first value of a name as text.
pub fn read_header(map: &HeaderMap<HeaderValue>, name: &str) -> (text: Option<String>)
    requires
        is_header_name(name@),
    ensures
        match text {
            Some(t) => header_text_in(headers_in(*map), name@) == Some(t@),
            None => header_text_in(headers_in(*map), name@) is None,
        },
{
    match first_header(map, name) {
        Some(value) => header_text(&value),
        None => None,
    }
}

/// The last of some values that is visible ASCII, as text.
pub open spec fn last_visible(values: Seq<Seq<u8>>) -> Option<Seq<char>>
    decreases values.len(),
{
    if values.len() == 0 {
        None
    } else if visible_text(values.last()) is Some {
        visible_text(values.last())
    } else {
        last_visible(values.drop_last())
    }
}

/// The headers as middleware sees them: those whose value is visible ASCII; of
/// several such values of a name, the last.
pub fn visible_headers(map: &HeaderMap<HeaderValue>) -> (visible: StringMap<String>)
    ensures
        forall|name: Seq<char>| #[trigger]
            visible@.contains_key(name) <==> last_visible(values_in(headers_in(*map), name)) is Some,
        forall|name: Seq<char>| #[trigger]
            visible@.contains_key(name) ==> last_visible(values_in(headers_in(*map), name)) == Some(
                visible@[name],
            ),
{
    let entries = list_headers(map);
    let ghost all = listed(entries@);
    let mut visible: StringMap<String> = StringMap::new();
    let mut i: usize = 0;
    proof {
        assert(all.take(0) =~= Seq::<(Seq<char>, Seq<u8>)>::empty());
    }
    while i < entries.len()
        invariant
            all == listed(entries@),
            i <= entries@.len(),
            forall|name: Seq<char>| #[trigger]
                visible@.contains_key(name) <==> last_visible(values_of(all.take(i as int), name))
                    is Some,
            forall|name: Seq<char>| #[trigger]
                visible@.contains_key(name) ==> last_visible(values_of(all.take(i as int), name))
                    == Some(visible@[name]),
        decreases entries@.len() - i,
    {
        let ghost before = visible@;
        let ghost key = entries@[i as int].0@;
        let ghost value = entries@[i as int].1@;
        if let Some(text) = header_text(&entries[i].1) {
            visible.insert(entries[i].0.clone(), text);
        }
        proof {
            assert(all.take(i + 1).drop_last() =~= all.take(i as int));
            assert(all.take(i + 1).last() == (key, value));
            assert forall|name: Seq<char>| #[trigger]
                last_visible(values_of(all.take(i + 1), name)) == (if name == key && visible_text(
                    value,
                ) is Some {
                    visible_text(value)
                } else {
                    last_visible(values_of(all.take(i as int), name))
                }) by {
                let older = values_of(all.take(i as int), name);
                if name == key {
                    assert(older.push(value).drop_last() =~= older);
                }
            }
        }
        i += 1;
    }
    proof {
        assert(all.take(all.len() as int) =~= all);
        assert forall|name: Seq<char>| #[trigger]
            visible@.contains_key(name) <==> last_visible(values_in(headers_in(*map), name)) is Some by {
            assert(values_of(all, name) == values_in(headers_in(*map), name));
        }
        assert forall|name: Seq<char>| #[trigger]
            visible@.contains_key(name) implies last_visible(values_in(headers_in(*map), name)) == Some(
            visible@[name],
        ) by {
            assert(values_of(all, name) == values_in(headers_in(*map), name));
        }
    }
    visible
}

/// The values of a name come in the order of the listing, and those of other names do
/// not count.
pub proof fn values_keep_the_order_of_the_listing(
    a: Seq<(Seq<char>, Seq<u8>)>,
    b: Seq<(Seq<char>, Seq<u8>)>,
    name: Seq<char>,
    value: Seq<u8>,
    other: Seq<char>,
)
    ensures
        values_of(a + b, name) == values_of(a, name) + values_of(b, name),
        values_of(seq![(name, value)], name) == seq![value],
        other != name ==> values_of(seq![(other, value)], name).len() == 0,
    decreases b.len(),
{
    let none = Seq::<(Seq<char>, Seq<u8>)>::empty();
    assert(values_of(none, name) == Seq::<Seq<u8>>::empty());
    let one = seq![(name, value)];
    assert(one.drop_last() =~= none);
    assert(one.last() == (name, value));
    assert(values_of(one, name) =~= seq![value]);
    let stranger = seq![(other, value)];
    assert(stranger.drop_last() =~= none);
    assert(stranger.last() == (other, value));
    if b.len() > 0 {
        values_keep_the_order_of_the_listing(a, b.drop_last(), name, value, other);
        assert((a + b).drop_last() =~= a + b.drop_last());
        assert((a + b).last() == b.last());
        assert(values_of(a + b, name) =~= values_of(a, name) + values_of(b, name));
    } else {
        assert(a + b =~= a);
        assert(b =~= none);
        assert(values_of(a, name) + values_of(b, name) =~= values_of(a, name));
    }
}

/// A header map can hold every name that a text can write, and a name that it holds has
/// no capital letters.
pub proof fn held_names_are_small(name: Seq<char>, i: int)
    ensures
        is_header_name(name) ==> is_held_name(name),
        is_held_name(name) && 0 <= i < name.len() ==> !('A' <= name[i] <= 'Z'),
        is_held_name(name) ==> 0 < name.len() <= 65535,
{
}

/// The text of a header is that of its first value.
pub proof fn first_value_is_read(
    headers: Map<Seq<char>, Seq<Seq<u8>>>,
    name: Seq<char>,
    first: Seq<u8>,
    more: Seq<Seq<u8>>,
)
    ensures
        !headers.contains_key(name) ==> header_text_in(headers, name) is None,
        headers.contains_key(name) && headers[name] == seq![first] + more ==> header_text_in(
            headers,
            name,
        ) == visible_text(first),
{
}

} // verus!
