//! What holds of the headers of a request on its way through the gateway.

use crate::gateway::proxy::{
    first_value, forwarded_for, forwarding_of, hop_count, passes, too_large, upstream_header_map,
    with_added, with_forwarding, with_passed,
};
use crate::headers::{
    header_name_in, is_header_value, is_name_char, is_visible, last_visible, values_in,
    visible_text,
};
use crate::text::{ascii_lower, ascii_lowered, decimal, decimal_reads_back, trimmed, unsigned_in};
use crate::text_laws::{blank_is_white_space, trimming_keeps_the_rest};
use vstd::prelude::*;
use vstd::utf8::*;

verus! {

proof fn small_letters_stay(s: Seq<char>)
    requires
        forall|i: int| 0 <= i < s.len() ==> !('A' <= #[trigger] s[i] <= 'Z'),
    ensures
        ascii_lowered(s) == s,
{
    assert(ascii_lowered(s) =~= s);
}

proof fn hop_by_hop_names_are_small()
    ensures
        ascii_lowered("connection"@) == "connection"@,
        ascii_lowered("keep-alive"@) == "keep-alive"@,
        ascii_lowered("proxy-authenticate"@) == "proxy-authenticate"@,
        ascii_lowered("proxy-authorization"@) == "proxy-authorization"@,
        ascii_lowered("te"@) == "te"@,
        ascii_lowered("trailer"@) == "trailer"@,
        ascii_lowered("transfer-encoding"@) == "transfer-encoding"@,
        ascii_lowered("upgrade"@) == "upgrade"@,
        ascii_lowered("content-length"@) == "content-length"@,
{
    reveal_strlit("connection");
    reveal_strlit("keep-alive");
    reveal_strlit("proxy-authenticate");
    reveal_strlit("proxy-authorization");
    reveal_strlit("te");
    reveal_strlit("trailer");
    reveal_strlit("transfer-encoding");
    reveal_strlit("upgrade");
    reveal_strlit("content-length");
    small_letters_stay("connection"@);
    small_letters_stay("keep-alive"@);
    small_letters_stay("proxy-authenticate"@);
    small_letters_stay("proxy-authorization"@);
    small_letters_stay("te"@);
    small_letters_stay("trailer"@);
    small_letters_stay("transfer-encoding"@);
    small_letters_stay("upgrade"@);
    small_letters_stay("content-length"@);
}

proof fn unwritten_headers_stay(
    headers: Map<Seq<char>, Seq<Seq<u8>>>,
    order: Seq<Seq<char>>,
    added: Map<Seq<char>, Seq<char>>,
    name: Seq<char>,
)
    requires
        forall|i: int| 0 <= i < order.len() ==> header_name_in(#[trigger] order[i]) != Some(name),
    ensures
        with_added(headers, order, added).contains_key(name) == headers.contains_key(name),
        headers.contains_key(name) ==> with_added(headers, order, added)[name] == headers[name],
    decreases order.len(),
{
    if order.len() > 0 {
        let rest = order.drop_last();
        assert forall|i: int| 0 <= i < rest.len() implies header_name_in(#[trigger] rest[i]) != Some(
            name,
        ) by {
            assert(rest[i] == order[i]);
        }
        unwritten_headers_stay(headers, rest, added, name);
        assert(header_name_in(order[order.len() - 1]) != Some(name));
    }
}

/// A header of a request reaches the upstream with all its values in order, where
/// middleware writes none of that name: all do but the host, what tells about the way
/// of the request, and what concerns one connection only. Header maps hold names in
/// small letters.
pub proof fn ordinary_headers_reach_the_upstream(
    source: Map<Seq<char>, Seq<Seq<u8>>>,
    chain: Seq<char>,
    remote_port: u16,
    hops: u8,
    order: Seq<Seq<char>>,
    added: Map<Seq<char>, Seq<char>>,
    name: Seq<char>,
)
    requires
        source.contains_key(name),
        source[name].len() > 0,
        forall|i: int| 0 <= i < name.len() ==> !('A' <= #[trigger] name[i] <= 'Z'),
        name != "host"@,
        name != "x-forwarded-for"@,
        name != "x-forwarded-port"@,
        name != "x-basilisk-proxy-hop"@,
        name != "connection"@,
        name != "keep-alive"@,
        name != "proxy-authenticate"@,
        name != "proxy-authorization"@,
        name != "te"@,
        name != "trailer"@,
        name != "transfer-encoding"@,
        name != "upgrade"@,
        name != "content-length"@,
        forall|i: int| 0 <= i < order.len() ==> header_name_in(#[trigger] order[i]) != Some(name),
    ensures
        upstream_header_map(source, chain, remote_port, hops, order, added).contains_key(name),
        upstream_header_map(source, chain, remote_port, hops, order, added)[name] == source[name],
{
    small_letters_stay(name);
    hop_by_hop_names_are_small();
    assert(passes(name));
    let start = with_forwarding(Map::empty(), chain, remote_port, hops);
    assert(!start.contains_key(name));
    let passed = with_passed(start, source);
    assert(values_in(start, name) + values_in(source, name) =~= source[name]);
    assert(passed.contains_key(name) && passed[name] == source[name]);
    unwritten_headers_stay(passed, order, added, name);
}

/// The host of a request and the headers that concern one connection only do not
/// reach the upstream, unless middleware writes one of that name.
pub proof fn connection_headers_end_here(
    source: Map<Seq<char>, Seq<Seq<u8>>>,
    chain: Seq<char>,
    remote_port: u16,
    hops: u8,
    order: Seq<Seq<char>>,
    added: Map<Seq<char>, Seq<char>>,
    name: Seq<char>,
)
    requires
        name == "host"@ || name == "connection"@ || name == "keep-alive"@ || name
            == "proxy-authenticate"@ || name == "proxy-authorization"@ || name == "te"@ || name
            == "trailer"@ || name == "transfer-encoding"@ || name == "upgrade"@ || name
            == "content-length"@,
        forall|i: int| 0 <= i < order.len() ==> header_name_in(#[trigger] order[i]) != Some(name),
    ensures
        !upstream_header_map(source, chain, remote_port, hops, order, added).contains_key(name),
{
    hop_by_hop_names_are_small();
    assert(!passes(name));
    reveal_strlit("host");
    reveal_strlit("connection");
    reveal_strlit("keep-alive");
    reveal_strlit("proxy-authenticate");
    reveal_strlit("proxy-authorization");
    reveal_strlit("te");
    reveal_strlit("trailer");
    reveal_strlit("transfer-encoding");
    reveal_strlit("upgrade");
    reveal_strlit("content-length");
    reveal_strlit("x-forwarded-for");
    reveal_strlit("x-forwarded-port");
    reveal_strlit("x-basilisk-proxy-hop");
    assert(name[0] != 'x');
    let start = with_forwarding(Map::empty(), chain, remote_port, hops);
    assert("x-forwarded-for"@[0] == 'x');
    assert("x-forwarded-port"@[0] == 'x');
    assert("x-basilisk-proxy-hop"@[0] == 'x');
    assert(!start.contains_key(name));
    let passed = with_passed(start, source);
    assert(!passed.contains_key(name));
    unwritten_headers_stay(passed, order, added, name);
}

/// The upstream learns the chain of client addresses, the port of the client and the
/// hop count from the gateway alone, each as one value, whatever the request says;
/// unless middleware writes one of that name.
pub proof fn way_of_the_request_is_written_by_the_gateway(
    source: Map<Seq<char>, Seq<Seq<u8>>>,
    chain: Seq<char>,
    remote_port: u16,
    hops: u8,
    order: Seq<Seq<char>>,
    added: Map<Seq<char>, Seq<char>>,
)
    requires
        is_header_value(encode_utf8(chain)),
        forall|i: int|
            0 <= i < order.len() ==> header_name_in(#[trigger] order[i]) != Some("x-forwarded-for"@)
                && header_name_in(order[i]) != Some("x-forwarded-port"@) && header_name_in(order[i])
                != Some("x-basilisk-proxy-hop"@),
    ensures
        ({
            let sent = upstream_header_map(source, chain, remote_port, hops, order, added);
            &&& sent.contains_key("x-forwarded-for"@)
            &&& sent["x-forwarded-for"@] == seq![encode_utf8(chain)]
            &&& sent.contains_key("x-forwarded-port"@)
            &&& sent["x-forwarded-port"@] == seq![encode_utf8(decimal(remote_port as nat))]
            &&& sent.contains_key("x-basilisk-proxy-hop"@)
            &&& sent["x-basilisk-proxy-hop"@] == seq![encode_utf8(decimal(hops as nat))]
        }),
{
    reveal_strlit("x-forwarded-for");
    reveal_strlit("x-forwarded-port");
    reveal_strlit("x-basilisk-proxy-hop");
    assert("x-forwarded-for"@.len() == 15);
    assert("x-forwarded-port"@.len() == 16);
    assert("x-basilisk-proxy-hop"@.len() == 20);
    decimal_reads_back(remote_port as nat);
    decimal_reads_back(hops as nat);
    ascii_text_is_visible(decimal(remote_port as nat));
    ascii_text_is_visible(decimal(hops as nat));
    let start = with_forwarding(Map::empty(), chain, remote_port, hops);
    let passed = with_passed(start, source);
    assert(start["x-forwarded-for"@] == seq![encode_utf8(chain)]);
    assert(passed["x-forwarded-for"@] == start["x-forwarded-for"@]);
    assert(passed["x-forwarded-port"@] == start["x-forwarded-port"@]);
    assert(passed["x-basilisk-proxy-hop"@] == start["x-basilisk-proxy-hop"@]);
    unwritten_headers_stay(passed, order, added, "x-forwarded-for"@);
    unwritten_headers_stay(passed, order, added, "x-forwarded-port"@);
    unwritten_headers_stay(passed, order, added, "x-basilisk-proxy-hop"@);
}

/// What middleware writes stands in place of all other values of that name, where it
/// can stand in a header: no later one of its headers being of the same name.
pub proof fn middleware_headers_replace(
    source: Map<Seq<char>, Seq<Seq<u8>>>,
    chain: Seq<char>,
    remote_port: u16,
    hops: u8,
    order: Seq<Seq<char>>,
    added: Map<Seq<char>, Seq<char>>,
    at: int,
)
    requires
        0 <= at < order.len(),
        header_name_in(order[at]) is Some,
        is_header_value(encode_utf8(added[order[at]])),
        forall|i: int|
            at < i < order.len() ==> header_name_in(#[trigger] order[i]) != header_name_in(order[at]),
    ensures
        ({
            let sent = upstream_header_map(source, chain, remote_port, hops, order, added);
            let name = header_name_in(order[at])->0;
            sent.contains_key(name) && sent[name] == seq![encode_utf8(added[order[at]])]
        }),
{
    let start = with_passed(with_forwarding(Map::empty(), chain, remote_port, hops), source);
    written_header_stands(start, order, added, at);
}

proof fn written_header_stands(
    headers: Map<Seq<char>, Seq<Seq<u8>>>,
    order: Seq<Seq<char>>,
    added: Map<Seq<char>, Seq<char>>,
    at: int,
)
    requires
        0 <= at < order.len(),
        header_name_in(order[at]) is Some,
        is_header_value(encode_utf8(added[order[at]])),
        forall|i: int|
            at < i < order.len() ==> header_name_in(#[trigger] order[i]) != header_name_in(order[at]),
    ensures
        ({
            let sent = with_added(headers, order, added);
            let name = header_name_in(order[at])->0;
            sent.contains_key(name) && sent[name] == seq![encode_utf8(added[order[at]])]
        }),
    decreases order.len(),
{
    if at < order.len() - 1 {
        let rest = order.drop_last();
        assert(rest[at] == order[at]);
        assert forall|i: int| at < i < rest.len() implies header_name_in(#[trigger] rest[i])
            != header_name_in(rest[at]) by {
            assert(rest[i] == order[i]);
        }
        written_header_stands(headers, rest, added, at);
        assert(header_name_in(order[order.len() - 1]) != header_name_in(order[at]));
    }
}

/// A header of middleware whose name or value cannot stand in a header is left out,
/// and the others go as if it were not there.
pub proof fn impossible_headers_are_left_out(
    source: Map<Seq<char>, Seq<Seq<u8>>>,
    chain: Seq<char>,
    remote_port: u16,
    hops: u8,
    order: Seq<Seq<char>>,
    added: Map<Seq<char>, Seq<char>>,
    key: Seq<char>,
)
    requires
        header_name_in(key) is None || !is_header_value(encode_utf8(added[key])),
    ensures
        upstream_header_map(source, chain, remote_port, hops, order.push(key), added)
            == upstream_header_map(source, chain, remote_port, hops, order, added),
{
    assert(order.push(key).drop_last() =~= order);
}

/// A text names a header exactly when it is not empty, not longer than 65535, and made
/// of ASCII letters and digits and of fifteen signs; the name is the text in small
/// letters.
pub proof fn header_names_are_letters_digits_and_signs(text: Seq<char>)
    ensures
        header_name_in(text) is Some <==> (0 < text.len() <= 65535 && forall|i: int|
            0 <= i < text.len() ==> 'a' <= #[trigger] text[i] <= 'z' || 'A' <= text[i] <= 'Z' || '0'
                <= text[i] <= '9' || "!#$%&'*+-.^_`|~"@.contains(text[i])),
        header_name_in(text) matches Some(name) ==> name == ascii_lowered(text),
{
    let signs = "!#$%&'*+-.^_`|~"@;
    reveal_strlit("!#$%&'*+-.^_`|~");
    assert(signs.len() == 15);
    assert(signs[0] == '!' && signs[1] == '#' && signs[2] == '$' && signs[3] == '%' && signs[4]
        == '&' && signs[5] == '\'' && signs[6] == '*' && signs[7] == '+' && signs[8] == '-'
        && signs[9] == '.' && signs[10] == '^' && signs[11] == '_' && signs[12] == '`' && signs[13]
        == '|' && signs[14] == '~');
    assert forall|c: char| #[trigger] is_name_char(ascii_lower(c)) == ('a' <= c <= 'z' || 'A' <= c
        <= 'Z' || '0' <= c <= '9' || signs.contains(c)) by {
        if signs.contains(c) {
            let i = signs.index_of(c);
            assert(signs[i] == c);
        }
    }
    let name = ascii_lowered(text);
    assert forall|i: int| 0 <= i < text.len() implies #[trigger] name[i] == ascii_lower(text[i]) by {}
    if header_name_in(text) is Some {
        assert forall|i: int| 0 <= i < text.len() implies 'a' <= #[trigger] text[i] <= 'z' || 'A'
            <= text[i] <= 'Z' || '0' <= text[i] <= '9' || signs.contains(text[i]) by {
            assert(is_name_char(name[i]));
            assert(is_name_char(ascii_lower(text[i])));
        }
    }
    if 0 < text.len() <= 65535 && forall|i: int|
        0 <= i < text.len() ==> 'a' <= #[trigger] text[i] <= 'z' || 'A' <= text[i] <= 'Z' || '0'
            <= text[i] <= '9' || signs.contains(text[i]) {
        assert forall|i: int| 0 <= i < name.len() implies is_name_char(#[trigger] name[i]) by {
            assert(is_name_char(ascii_lower(text[i])));
        }
    }
}

/// A header value may hold tabs and every byte that is no control byte.
pub proof fn header_values_hold_no_control_bytes(bytes: Seq<u8>, at: int)
    requires
        0 <= at < bytes.len(),
    ensures
        bytes[at] < 32 && bytes[at] != 9 ==> !is_header_value(bytes),
        bytes[at] == 127 ==> !is_header_value(bytes),
        (forall|i: int| 0 <= i < bytes.len() ==> 32 <= #[trigger] bytes[i] && bytes[i] != 127 || bytes[i]
            == 9) ==> is_header_value(bytes),
{
}

/// A text of ASCII characters without control characters, tabs aside, can stand in a
/// header and is read from it as it was.
pub proof fn ascii_text_is_visible(s: Seq<char>)
    requires
        forall|i: int| 0 <= i < s.len() ==> ' ' <= #[trigger] s[i] <= '~' || s[i] == '\t',
    ensures
        is_header_value(encode_utf8(s)),
        visible_text(encode_utf8(s)) == Some(s),
{
    assert(is_ascii_chars(s));
    is_ascii_chars_encode_utf8(s);
    let bytes = encode_utf8(s);
    assert forall|i: int| 0 <= i < bytes.len() implies (32 <= #[trigger] bytes[i] < 127 || bytes[i]
        == 9) && bytes[i] as char == s[i] by {
        assert(' ' <= s[i] <= '~' || s[i] == '\t');
        assert(s[i] as u8 == bytes[i]);
    }
    assert(bytes.map_values(|b: u8| b as char) =~= s);
}

/// A value with another byte is not read as text.
pub proof fn other_bytes_are_not_visible(bytes: Seq<u8>, at: int)
    requires
        0 <= at < bytes.len(),
        bytes[at] >= 127 || (bytes[at] < 32 && bytes[at] != 9),
    ensures
        visible_text(bytes) is None,
{
    assert(!is_visible(bytes));
}

/// The last visible value of a header is one after which no value is visible.
pub proof fn last_visible_value_is_the_last(values: Seq<Seq<u8>>)
    ensures
        last_visible(values) is Some <==> exists|i: int|
            0 <= i < values.len() && visible_text(#[trigger] values[i]) is Some,
        last_visible(values) is Some ==> exists|i: int|
            0 <= i < values.len() && visible_text(#[trigger] values[i]) == last_visible(values)
                && forall|j: int|
                i < j < values.len() ==> visible_text(#[trigger] values[j]) is None,
    decreases values.len(),
{
    if values.len() > 0 {
        let last = values.len() - 1;
        assert(values[last] == values.last());
        if visible_text(values.last()) is None {
            let rest = values.drop_last();
            last_visible_value_is_the_last(rest);
            if last_visible(rest) is Some {
                let i = choose|i: int|
                    0 <= i < rest.len() && visible_text(#[trigger] rest[i]) == last_visible(rest)
                        && forall|j: int|
                        i < j < rest.len() ==> visible_text(#[trigger] rest[j]) is None;
                assert(values[i] == rest[i]);
                assert forall|j: int| i < j < values.len() implies visible_text(
                    #[trigger] values[j],
                ) is None by {
                    if j < last {
                        assert(rest[j] == values[j]);
                    }
                }
            }
            if exists|i: int| 0 <= i < values.len() && visible_text(#[trigger] values[i]) is Some {
                let i = choose|i: int|
                    0 <= i < values.len() && visible_text(#[trigger] values[i]) is Some;
                assert(rest[i] == values[i]);
            }
        }
    }
}

proof fn notation_is_visible(n: nat)
    ensures
        visible_text(encode_utf8(decimal(n))) == Some(decimal(n)),
        trimmed(decimal(n)) == decimal(n),
        unsigned_in(decimal(n), n) == Some(n),
{
    decimal_reads_back(n);
    let s = decimal(n);
    assert forall|i: int| 0 <= i < s.len() implies ' ' <= #[trigger] s[i] <= '~' by {
        assert('0' <= s[i] <= '9');
    }
    ascii_text_is_visible(s);
    assert('0' <= s[0] <= '9');
    assert('0' <= s[s.len() - 1] <= '9');
    trimming_keeps_the_rest(s);
}

/// A body is too large exactly when the request says that it has more than ten
/// mebibytes; without a word about it, it is not.
pub proof fn bodies_above_ten_mebibytes_are_too_large(
    headers: Map<Seq<char>, Seq<Seq<u8>>>,
    length: u64,
)
    ensures
        !headers.contains_key("content-length"@) ==> !too_large(headers),
        headers.contains_key("content-length"@) && headers["content-length"@][0] == encode_utf8(
            decimal(length as nat),
        ) ==> too_large(headers) == (length > 10 * 1024 * 1024),
{
    decimal_reads_back(length as nat);
    notation_is_visible(length as nat);
}

/// The hop count of a request is the number of its header, and none where it has no
/// such header or one that does not fit.
pub proof fn hop_counts_are_read(headers: Map<Seq<char>, Seq<Seq<u8>>>, hops: nat)
    ensures
        !headers.contains_key("x-basilisk-proxy-hop"@) ==> hop_count(headers) == 0,
        headers.contains_key("x-basilisk-proxy-hop"@) && headers["x-basilisk-proxy-hop"@][0]
            == encode_utf8(decimal(hops)) ==> hop_count(headers) == (if hops <= 255 {
            hops
        } else {
            0
        }),
{
    decimal_reads_back(hops);
    notation_is_visible(hops);
}

/// The chain of client addresses grows at its end: what came in stands before the
/// address of the client. Where nothing came in, or nothing but white space or what
/// cannot be read, the chain is that address.
pub proof fn chain_grows_at_its_end(known: Seq<char>, bytes: Seq<u8>, remote_ip: Seq<char>, at: int)
    ensures
        forwarded_for(None, remote_ip) == remote_ip,
        (forall|i: int| 0 <= i < known.len() ==> ' ' <= #[trigger] known[i] <= '~') && known.len()
            > 0 && known[0] != ' ' && known.last() != ' ' ==> forwarded_for(
            Some(encode_utf8(known)),
            remote_ip,
        ) == known + ", "@ + remote_ip,
        (forall|i: int| 0 <= i < known.len() ==> #[trigger] known[i] == ' ') ==> forwarded_for(
            Some(encode_utf8(known)),
            remote_ip,
        ) == remote_ip,
        0 <= at < bytes.len() && (bytes[at] >= 127 || (bytes[at] < 32 && bytes[at] != 9))
            ==> forwarded_for(Some(bytes), remote_ip) == remote_ip,
{
    if forall|i: int| 0 <= i < known.len() ==> ' ' <= #[trigger] known[i] <= '~' {
        ascii_text_is_visible(known);
        if known.len() > 0 && known[0] != ' ' && known.last() != ' ' {
            assert(' ' <= known[known.len() - 1] <= '~');
            trimming_keeps_the_rest(known);
        }
    }
    if forall|i: int| 0 <= i < known.len() ==> #[trigger] known[i] == ' ' {
        assert forall|i: int| 0 <= i < known.len() implies ' ' <= #[trigger] known[i] <= '~' by {}
        ascii_text_is_visible(known);
        blank_is_white_space(known);
        assert(trimmed(known).len() == 0);
    }
    if 0 <= at < bytes.len() && (bytes[at] >= 127 || (bytes[at] < 32 && bytes[at] != 9)) {
        other_bytes_are_not_visible(bytes, at);
    }
}

/// A request goes on, with one hop more, exactly when it has passed through fewer than
/// three times and does not say that its body is larger than ten mebibytes. The third
/// pass is answered with 508 and says so, whatever the size; too large a body with 413.
pub proof fn requests_go_on_below_three_hops(
    headers: Map<Seq<char>, Seq<Seq<u8>>>,
    remote_ip: Seq<char>,
)
    ensures
        ({
            let hops = hop_count(headers);
            let forwarding = forwarding_of(headers, remote_ip);
            &&& forwarding is Ok <==> hops <= 2 && !too_large(headers)
            &&& forwarding matches Ok(f) ==> f.1 == hops + 1 && f.1 <= 3 && remote_ip.is_suffix_of(
                f.0,
            )
            &&& hops >= 3 ==> forwarding == Err::<(Seq<char>, nat), (u16, Seq<char>)>(
                (508, "proxy loop detected after "@ + decimal(hops) + " hops"@),
            )
            &&& hops <= 2 && too_large(headers) ==> forwarding == Err::<
                (Seq<char>, nat),
                (u16, Seq<char>),
            >((413, "request payload too large"@))
            &&& hops <= 2 && !too_large(headers) && !headers.contains_key("x-forwarded-for"@)
                ==> forwarding == Ok::<(Seq<char>, nat), (u16, Seq<char>)>((remote_ip, hops + 1))
        }),
{
    let chain = forwarded_for(first_value(headers, "x-forwarded-for"@), remote_ip);
    assert(chain.skip(chain.len() - remote_ip.len()) =~= remote_ip);
}

} // verus!
