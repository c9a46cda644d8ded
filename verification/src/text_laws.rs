//! What holds of the operations on text.

use crate::text::{
    after_prefix, ascii_lower, ascii_lowered, ascii_raised, ascii_upper, decimal,
    decimal_reads_back, digits_value, has_suffix, is_digits, is_space, last_position,
    last_position_is_last, occurs, position_from, position_from_is_first, signed_in, split_first,
    stands_at, stripped, stripped_end, stripped_start, trimmed, trimmed_end, trimmed_start,
    unsigned_in, up_to, without_plus, word_state, words,
};
use vstd::prelude::*;

verus! {

/// Whether `s` is made of white space alone.
pub open spec fn all_space(s: Seq<char>) -> bool {
    forall|i: int| 0 <= i < s.len() ==> is_space(#[trigger] s[i])
}

/// Whether `s` is made of one character alone.
pub open spec fn all_of(s: Seq<char>, c: char) -> bool {
    forall|i: int| 0 <= i < s.len() ==> #[trigger] s[i] == c
}

/// The white space of ASCII is the blank, the tab, and the characters that end a line
/// or a page.
pub proof fn white_space_of_ascii(c: char)
    requires
        c as u32 <= 127,
    ensures
        is_space(c) <==> c == ' ' || c == '\t' || c == '\n' || c == '\r' || c as u32 == 11 || c as u32
            == 12,
{
}

/// Beyond ASCII, white space is what Unicode calls so: spaces of every width, and the
/// characters that end a line or a paragraph.
pub proof fn white_space_beyond_ascii(c: char)
    requires
        c as u32 > 127,
    ensures
        is_space(c) <==> c == '\u{85}' || c == '\u{a0}' || c == '\u{1680}' || ('\u{2000}' <= c
            <= '\u{200a}') || c == '\u{2028}' || c == '\u{2029}' || c == '\u{202f}' || c == '\u{205f}'
            || c == '\u{3000}',
{
}

proof fn start_is_white_space(s: Seq<char>) -> (cut: int)
    ensures
        0 <= cut <= s.len(),
        all_space(s.take(cut)),
        trimmed_start(s) == s.skip(cut),
        trimmed_start(s).len() > 0 ==> !is_space(trimmed_start(s)[0]),
    decreases s.len(),
{
    if s.len() > 0 && is_space(s[0]) {
        let rest = start_is_white_space(s.drop_first());
        assert(s.skip(rest + 1) =~= s.drop_first().skip(rest));
        assert forall|i: int| 0 <= i < rest + 1 implies is_space(#[trigger] s.take(rest + 1)[i]) by {
            if i > 0 {
                assert(s.drop_first().take(rest)[i - 1] == s[i]);
            }
        }
        rest + 1
    } else {
        assert(s.skip(0) =~= s);
        0
    }
}

proof fn end_is_white_space(s: Seq<char>) -> (cut: int)
    ensures
        0 <= cut <= s.len(),
        all_space(s.skip(cut)),
        trimmed_end(s) == s.take(cut),
        trimmed_end(s).len() > 0 ==> !is_space(trimmed_end(s).last()),
    decreases s.len(),
{
    if s.len() > 0 && is_space(s.last()) {
        let cut = end_is_white_space(s.drop_last());
        assert(s.take(cut) =~= s.drop_last().take(cut));
        assert forall|i: int| 0 <= i < s.len() - cut implies is_space(#[trigger] s.skip(cut)[i]) by {
            if i < s.len() - cut - 1 {
                assert(s.drop_last().skip(cut)[i] == s[cut + i]);
            }
        }
        cut
    } else {
        assert(s.take(s.len() as int) =~= s);
        s.len() as int
    }
}

/// Trimming takes white space away at both ends, all of it and nothing else.
pub proof fn trimming_takes_white_space_only(s: Seq<char>)
    ensures
        exists|a: Seq<char>, b: Seq<char>|
            all_space(a) && all_space(b) && s == #[trigger] (a + trimmed(s) + b),
        trimmed(s).len() > 0 ==> !is_space(trimmed(s)[0]) && !is_space(trimmed(s).last()),
{
    let from = start_is_white_space(s);
    let mid = trimmed_start(s);
    let to = end_is_white_space(mid);
    let a = s.take(from);
    let b = mid.skip(to);
    assert(s =~= a + trimmed(s) + b);
    if trimmed(s).len() > 0 {
        assert(trimmed(s)[0] == mid[0]);
    }
}

/// Trimming leaves nothing of a text exactly when it is made of white space alone.
pub proof fn blank_is_white_space(s: Seq<char>)
    ensures
        trimmed(s).len() == 0 <==> forall|i: int| 0 <= i < s.len() ==> is_space(#[trigger] s[i]),
{
    trimming_takes_white_space_only(s);
    let (a, b) = choose|a: Seq<char>, b: Seq<char>|
        all_space(a) && all_space(b) && s == #[trigger] (a + trimmed(s) + b);
    if trimmed(s).len() == 0 {
        assert forall|i: int| 0 <= i < s.len() implies is_space(#[trigger] s[i]) by {
            if i < a.len() {
                assert(s[i] == a[i]);
            } else {
                assert(s[i] == b[i - a.len()]);
            }
        }
    } else {
        assert(s[a.len() as int] == trimmed(s)[0]);
    }
}

/// A text without white space at its ends is trimmed already.
pub proof fn trimming_keeps_the_rest(s: Seq<char>)
    requires
        s.len() > 0,
        !is_space(s[0]),
        !is_space(s.last()),
    ensures
        trimmed(s) == s,
{
}

proof fn stripped_start_is_cut(s: Seq<char>, c: char) -> (cut: int)
    ensures
        0 <= cut <= s.len(),
        all_of(s.take(cut), c),
        stripped_start(s, c) == s.skip(cut),
        stripped_start(s, c).len() > 0 ==> stripped_start(s, c)[0] != c,
    decreases s.len(),
{
    if s.len() > 0 && s[0] == c {
        let rest = stripped_start_is_cut(s.drop_first(), c);
        assert(s.skip(rest + 1) =~= s.drop_first().skip(rest));
        assert forall|i: int| 0 <= i < rest + 1 implies #[trigger] s.take(rest + 1)[i] == c by {
            if i > 0 {
                assert(s.drop_first().take(rest)[i - 1] == s[i]);
            }
        }
        rest + 1
    } else {
        assert(s.skip(0) =~= s);
        0
    }
}

proof fn stripped_end_is_cut(s: Seq<char>, c: char) -> (cut: int)
    ensures
        0 <= cut <= s.len(),
        all_of(s.skip(cut), c),
        stripped_end(s, c) == s.take(cut),
        stripped_end(s, c).len() > 0 ==> stripped_end(s, c).last() != c,
    decreases s.len(),
{
    if s.len() > 0 && s.last() == c {
        let cut = stripped_end_is_cut(s.drop_last(), c);
        assert(s.take(cut) =~= s.drop_last().take(cut));
        assert forall|i: int| 0 <= i < s.len() - cut implies #[trigger] s.skip(cut)[i] == c by {
            if i < s.len() - cut - 1 {
                assert(s.drop_last().skip(cut)[i] == s[cut + i]);
            }
        }
        cut
    } else {
        assert(s.take(s.len() as int) =~= s);
        s.len() as int
    }
}

/// Stripping a character takes its occurrences away at both ends, all of them and
/// nothing else.
pub proof fn stripping_takes_one_character_only(s: Seq<char>, c: char)
    ensures
        exists|a: Seq<char>, b: Seq<char>|
            all_of(a, c) && all_of(b, c) && s == #[trigger] (a + stripped(s, c) + b),
        stripped(s, c).len() > 0 ==> stripped(s, c)[0] != c && stripped(s, c).last() != c,
{
    let from = stripped_start_is_cut(s, c);
    let mid = stripped_start(s, c);
    let to = stripped_end_is_cut(mid, c);
    let a = s.take(from);
    let b = mid.skip(to);
    assert(s =~= a + stripped(s, c) + b);
    if stripped(s, c).len() > 0 {
        assert(stripped(s, c)[0] == mid[0]);
    }
}

/// Small and capital ASCII letters lie 32 apart, and turning one kind into the other
/// changes no other character.
pub proof fn case_changes_letters_only(s: Seq<char>, i: int)
    requires
        0 <= i < s.len(),
    ensures
        ascii_lowered(s).len() == s.len(),
        ascii_raised(s).len() == s.len(),
        'A' <= s[i] <= 'Z' ==> ascii_lowered(s)[i] as u32 == s[i] as u32 + 32,
        !('A' <= s[i] <= 'Z') ==> ascii_lowered(s)[i] == s[i],
        'a' <= s[i] <= 'z' ==> ascii_raised(s)[i] as u32 == s[i] as u32 - 32,
        !('a' <= s[i] <= 'z') ==> ascii_raised(s)[i] == s[i],
{
}

/// Two texts are the same in small letters exactly when they are so in capitals.
pub proof fn letters_agree_in_both_cases(a: Seq<char>, b: Seq<char>)
    ensures
        ascii_lowered(a) == ascii_lowered(b) <==> ascii_raised(a) == ascii_raised(b),
{
    if ascii_lowered(a) == ascii_lowered(b) {
        assert(a.len() == ascii_lowered(b).len());
        assert forall|i: int| 0 <= i < a.len() implies ascii_raised(a)[i] == ascii_raised(b)[i] by {
            assert(ascii_lowered(a)[i] == ascii_lowered(b)[i]);
            assert(ascii_lower(a[i]) == ascii_lower(b[i]));
        }
        assert(ascii_raised(a) =~= ascii_raised(b));
    }
    if ascii_raised(a) == ascii_raised(b) {
        assert(a.len() == ascii_raised(b).len());
        assert forall|i: int| 0 <= i < a.len() implies ascii_lowered(a)[i] == ascii_lowered(b)[i] by {
            assert(ascii_raised(a)[i] == ascii_raised(b)[i]);
            assert(ascii_upper(a[i]) == ascii_upper(b[i]));
        }
        assert(ascii_lowered(a) =~= ascii_lowered(b));
    }
}

/// Digits are read from the left: one more digit makes the number ten times as large
/// and adds its own value.
pub proof fn digits_are_positional(s: Seq<char>, d: u8)
    requires
        d < 10,
    ensures
        digits_value(s.push((48 + d) as u8 as char)) == 10 * digits_value(s) + d,
        digits_value(seq!['0'] + s) == digits_value(s),
{
    assert(s.push((48 + d) as u8 as char).drop_last() =~= s);
    leading_zero_counts_nothing(s);
}

proof fn leading_zero_counts_nothing(s: Seq<char>)
    ensures
        digits_value(seq!['0'] + s) == digits_value(s),
    decreases s.len(),
{
    let t = seq!['0'] + s;
    if s.len() == 0 {
        assert(t.drop_last() =~= Seq::<char>::empty());
        assert(digits_value(t.drop_last()) == 0);
    } else {
        leading_zero_counts_nothing(s.drop_last());
        assert(t.drop_last() =~= seq!['0'] + s.drop_last());
    }
}

/// A number is read from its decimal notation, also after a plus sign or a zero, where
/// it is not above the limit; what holds another character, or nothing, is no number.
pub proof fn unsigned_numbers_are_read(n: nat, max: nat, s: Seq<char>, at: int)
    ensures
        unsigned_in(decimal(n), max) == (if n <= max {
            Some(n)
        } else {
            None::<nat>
        }),
        unsigned_in(seq!['+'] + decimal(n), max) == unsigned_in(decimal(n), max),
        unsigned_in(seq!['0'] + decimal(n), max) == unsigned_in(decimal(n), max),
        unsigned_in(Seq::empty(), max) is None,
        unsigned_in(seq!['+'], max) is None,
        0 <= at < s.len() && !('0' <= s[at] <= '9') && (at > 0 || s[at] != '+') ==> unsigned_in(
            s,
            max,
        ) is None,
        unsigned_in(s, max) matches Some(v) ==> v <= max,
        s.len() > 0 && (forall|i: int| 0 <= i < s.len() ==> '0' <= #[trigger] s[i] <= '9')
            ==> unsigned_in(s, max) == (if digits_value(s) <= max {
            Some(digits_value(s))
        } else {
            None::<nat>
        }),
{
    decimal_reads_back(n);
    let plus = seq!['+'] + decimal(n);
    assert(plus.drop_first() =~= decimal(n));
    let zero = seq!['0'] + decimal(n);
    leading_zero_counts_nothing(decimal(n));
    assert forall|i: int| 0 <= i < zero.len() implies '0' <= #[trigger] zero[i] <= '9' by {
        if i > 0 {
            assert(zero[i] == decimal(n)[i - 1]);
        }
    }
    assert(is_digits(zero));
    assert(seq!['+'].drop_first() =~= Seq::<char>::empty());
    if 0 <= at < s.len() && !('0' <= s[at] <= '9') && (at > 0 || s[at] != '+') {
        if s[0] == '+' {
            assert(s.drop_first()[at - 1] == s[at]);
        }
        assert(!is_digits(without_plus(s)));
    }
}

/// A signed number is read from its notation, with a minus sign for a negative one,
/// within the range of 64 bits; what holds another character after its first is none.
pub proof fn signed_numbers_are_read(n: nat, s: Seq<char>, at: int)
    ensures
        signed_in(decimal(n)) == (if n <= i64::MAX {
            Some(n as int)
        } else {
            None::<int>
        }),
        signed_in(seq!['-'] + decimal(n)) == (if n <= -(i64::MIN as int) {
            Some(-(n as int))
        } else {
            None::<int>
        }),
        signed_in(seq!['+'] + decimal(n)) == signed_in(decimal(n)),
        signed_in(Seq::empty()) is None,
        signed_in(seq!['-']) is None,
        0 < at < s.len() && !('0' <= s[at] <= '9') ==> signed_in(s) is None,
{
    assert((seq!['+'] + decimal(n)).drop_first() =~= decimal(n));
    if 0 < at < s.len() && !('0' <= s[at] <= '9') {
        assert(s.drop_first()[at - 1] == s[at]);
        assert(!is_digits(s.drop_first()));
        assert(!is_digits(s));
    }
    decimal_reads_back(n);
    assert((seq!['-'] + decimal(n)).drop_first() =~= decimal(n));
    assert(seq!['-'].drop_first() =~= Seq::<char>::empty());
}

/// A decimal notation has no leading zero but that of zero itself.
pub proof fn notation_has_no_leading_zero(n: nat)
    ensures
        decimal(n)[0] == '0' <==> n == 0,
    decreases n,
{
    if n >= 10 {
        notation_has_no_leading_zero(n / 10);
        decimal_reads_back(n / 10);
        assert(decimal(n)[0] == decimal(n / 10)[0]);
    }
}

proof fn words_after_white_space(a: Seq<char>, c: char, b: Seq<char>)
    requires
        is_space(c),
    ensures
        word_state(a.push(c) + b) == (words(a) + word_state(b).0, word_state(b).1),
    decreases b.len(),
{
    let s = a.push(c) + b;
    if b.len() == 0 {
        assert(s =~= a.push(c));
        assert(s.drop_last() =~= a);
        assert(words(a) + Seq::<Seq<char>>::empty() =~= words(a));
    } else {
        words_after_white_space(a, c, b.drop_last());
        assert(s.drop_last() =~= a.push(c) + b.drop_last());
        let (done, open) = word_state(b.drop_last());
        assert((words(a) + done).push(open) =~= words(a) + done.push(open));
    }
}

proof fn unbroken_word_is_open(s: Seq<char>)
    requires
        forall|i: int| 0 <= i < s.len() ==> !is_space(#[trigger] s[i]),
    ensures
        word_state(s) == (Seq::<Seq<char>>::empty(), s),
    decreases s.len(),
{
    if s.len() > 0 {
        unbroken_word_is_open(s.drop_last());
        assert(s.drop_last().push(s.last()) =~= s);
    } else {
        assert(s =~= Seq::<char>::empty());
    }
}

/// Words are parted by white space: the words of two texts with white space between
/// them are those of the one and then those of the other, and a text without white
/// space is one word.
pub proof fn words_are_parted_by_white_space(a: Seq<char>, c: char, b: Seq<char>)
    ensures
        is_space(c) ==> words(a.push(c) + b) == words(a) + words(b),
        (forall|i: int| 0 <= i < a.len() ==> !is_space(#[trigger] a[i])) ==> words(a) == (if a.len()
            == 0 {
            Seq::<Seq<char>>::empty()
        } else {
            seq![a]
        }),
{
    if is_space(c) {
        words_after_white_space(a, c, b);
        let (done, open) = word_state(b);
        assert((words(a) + done).push(open) =~= words(a) + done.push(open));
    }
    if forall|i: int| 0 <= i < a.len() ==> !is_space(#[trigger] a[i]) {
        unbroken_word_is_open(a);
        assert(Seq::<Seq<char>>::empty().push(a) =~= seq![a]);
    }
}

/// A text is split at the first of a character: what stands before does not hold it,
/// and the two parts with the character between them are the text.
pub proof fn splitting_takes_the_first(a: Seq<char>, c: char, b: Seq<char>)
    ensures
        !a.contains(c) ==> split_first(a.push(c) + b, c) == Some((a, b)),
        !a.contains(c) ==> split_first(a, c) is None,
        !a.contains(c) ==> up_to(a.push(c) + b, c) == a,
        !a.contains(c) ==> up_to(a, c) == a,
{
    if !a.contains(c) {
        let s = a.push(c) + b;
        position_from_is_first(s, c, 0);
        position_from_is_first(a, c, 0);
        let at = position_from(s, c, 0);
        assert(s[a.len() as int] == c);
        if at < a.len() {
            assert(a[at] == c);
        }
        assert(at == a.len());
        assert(s.take(at) =~= a);
        assert(s.skip(at + 1) =~= b);
        if position_from(a, c, 0) < a.len() {
            assert(a[position_from(a, c, 0)] == c);
        }
        assert(a.take(a.len() as int) =~= a);
    }
}

/// The last place of a character is the one that it does not follow.
pub proof fn last_place_is_the_last(a: Seq<char>, c: char, b: Seq<char>)
    requires
        !b.contains(c),
    ensures
        last_position(a.push(c) + b, c) == a.len(),
        last_position(b, c) == -1,
{
    let s = a.push(c) + b;
    last_position_is_last(s, c);
    last_position_is_last(b, c);
    let at = last_position(s, c);
    assert(s[a.len() as int] == c);
    if at > a.len() {
        assert(b[at - a.len() - 1] == c);
    }
    let in_b = last_position(b, c);
    if in_b >= 0 {
        assert(b[in_b] == c);
    }
}

/// What follows a prefix is what was put after it, and a text has a suffix and a part
/// that were put into it.
pub proof fn parts_are_found(a: Seq<char>, part: Seq<char>, b: Seq<char>)
    ensures
        after_prefix(part + b, part) == Some(b),
        after_prefix(a, part) matches Some(rest) ==> a == part + rest,
        after_prefix(a, part) is None ==> !part.is_prefix_of(a),
        has_suffix(a + part, part),
        has_suffix(b, part) ==> b == b.take(b.len() - part.len()) + part,
        occurs(a + part + b, part),
{
    assert((part + b).skip(part.len() as int) =~= b);
    if part.is_prefix_of(a) {
        assert(a =~= part + a.skip(part.len() as int));
    }
    assert((a + part).skip(a.len() as int) =~= part);
    if has_suffix(b, part) {
        assert(b =~= b.take(b.len() - part.len()) + part);
    }
    let s = a + part + b;
    assert(s.subrange(a.len() as int, (a.len() + part.len()) as int) =~= part);
    assert(stands_at(s, part, a.len() as int));
}

/// A part that occurs in a text has something, or nothing, before and after it.
pub proof fn occurring_parts_stand_inside(s: Seq<char>, part: Seq<char>)
    requires
        occurs(s, part),
    ensures
        exists|a: Seq<char>, b: Seq<char>| s == #[trigger] (a + part + b),
{
    let at = choose|at: int| #[trigger] stands_at(s, part, at);
    let a = s.take(at);
    let b = s.skip(at + part.len());
    assert(s =~= a + part + b);
}

} // verus!
