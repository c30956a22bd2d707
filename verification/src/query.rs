//! Request URIs: query parameters and percent-encoded text.

use crate::number::{
    decimal, from_hex_pair, hex_digit, hex_digit_value, hex_pair_value, is_digit, is_hex_digit,
    law_hex_pair_takes_digits_and_a_sign, law_hex_pairs, law_parse_inverts_decimal,
    law_parse_refuses_larger_numbers, parse_unsigned, parsed,
};
use crate::text::{
    chars_of, law_split_once_cuts_at_the_first, same, slice_chars, split, split_at_char, split_once,
    split_once_at, starts_with, string_of,
};
use vstd::prelude::*;

verus! {

/// What follows the first question mark of `uri`; nothing where there is none.
pub open spec fn query_of(uri: Seq<char>) -> Seq<char> {
    match split_once(uri, seq!['?']) {
        Some((_, query)) => query,
        None => Seq::empty(),
    }
}

/// What follows `prefix` in the first of the parts that starts with it.
pub open spec fn first_prefixed(parts: Seq<Seq<char>>, prefix: Seq<char>) -> Option<Seq<char>>
    decreases parts.len(),
{
    if parts.len() == 0 {
        None
    } else if starts_with(parts[0], prefix) {
        Some(parts[0].skip(prefix.len() as int))
    } else {
        first_prefixed(parts.skip(1), prefix)
    }
}

/// What follows `prefix` in the first parameter of `query` that starts with it.
pub open spec fn parameter(query: Seq<char>, prefix: Seq<char>) -> Option<Seq<char>> {
    first_prefixed(split(query, '&'), prefix)
}

/// The number that the parameter with the given prefix stands for, where there is such a
/// parameter and it holds a number of at most `max`; `default` everywhere else.
pub open spec fn number_parameter(
    query: Seq<char>,
    prefix: Seq<char>,
    max: nat,
    default: nat,
) -> nat {
    match parameter(query, prefix) {
        Some(value) => match parsed(value, max) {
            Some(n) => n,
            None => default,
        },
        None => default,
    }
}

/// The query of a URI.
pub fn query_chars(uri: &str) -> (r: Vec<char>)
    ensures
        r@ == query_of(uri@),
{
    let chars = chars_of(uri);
    let mark: Vec<char> = vec!['?'];
    assert(mark@ =~= seq!['?']);
    match split_once_at(&chars, &mark) {
        Some((_, query)) => query,
        None => Vec::new(),
    }
}

/// What follows `prefix` in the first parameter that starts with it.
pub fn find_parameter(query: &[char], prefix: &str) -> (r: Option<Vec<char>>)
    ensures
        match r {
            Some(v) => parameter(query@, prefix@) == Some(v@),
            None => parameter(query@, prefix@) is None,
        },
{
    let parts = split_at_char(query, '&');
    let pattern = chars_of(prefix);
    let ghost all = split(query@, '&');
    let mut i: usize = 0;
    assert(all.skip(0) =~= all);
    while i < parts.len()
        invariant
            i <= parts@.len() == all.len(),
            all == split(query@, '&'),
            pattern@ == prefix@,
            forall|j: int| 0 <= j < parts@.len() ==> #[trigger] parts@[j]@ == all[j],
            parameter(query@, prefix@) == first_prefixed(all.skip(i as int), prefix@),
        decreases parts@.len() - i,
    {
        let part = &parts[i];
        assert(part@ == all[i as int]);
        assert(all.skip(i as int)[0] == all[i as int]);
        assert(all.skip(i as int).skip(1) =~= all.skip(i + 1));
        if part.len() >= pattern.len() {
            let head = slice_chars(part, 0, pattern.len());
            if same(&head, &pattern) {
                let rest = slice_chars(part, pattern.len(), part.len());
                assert(rest@ =~= part@.skip(pattern@.len() as int));
                return Some(rest);
            }
        }
        i = i + 1;
    }
    None
}

/// Reads a number parameter.
pub fn find_number(query: &[char], prefix: &str, max: u64, default: u64) -> (r: u64)
    ensures
        r == number_parameter(query@, prefix@, max as nat, default as nat),
{
    match find_parameter(query, prefix) {
        Some(value) => match parse_unsigned(&value, max) {
            Some(n) => n,
            None => default,
        },
        None => default,
    }
}

/// The value of the first of the pairs whose key is `name`. Parts without an equals sign are
/// passed over.
pub open spec fn first_value(pairs: Seq<Seq<char>>, name: Seq<char>) -> Option<Seq<char>>
    decreases pairs.len(),
{
    if pairs.len() == 0 {
        None
    } else {
        match split_once(pairs[0], seq!['=']) {
            Some((key, value)) => if key == name {
                Some(value)
            } else {
                first_value(pairs.skip(1), name)
            },
            None => first_value(pairs.skip(1), name),
        }
    }
}

/// The value of the query parameter `name` of `uri`.
pub open spec fn param_value(uri: Seq<char>, name: Seq<char>) -> Option<Seq<char>> {
    match split_once(uri, seq!['?']) {
        Some((_, query)) => first_value(split(query, '&'), name),
        None => None,
    }
}

/// Finds the value of the query parameter `name`.
pub fn query_param(uri: &str, name: &str) -> (r: Option<String>)
    ensures
        match r {
            Some(v) => param_value(uri@, name@) == Some(v@),
            None => param_value(uri@, name@) is None,
        },
{
    let chars = chars_of(uri);
    let name_chars = chars_of(name);
    let mark: Vec<char> = vec!['?'];
    let equals: Vec<char> = vec!['='];
    assert(mark@ =~= seq!['?']);
    assert(equals@ =~= seq!['=']);
    let query = match split_once_at(&chars, &mark) {
        Some((_, query)) => query,
        None => {
            return None;
        },
    };
    let pairs = split_at_char(&query, '&');
    let ghost all = split(query@, '&');
    let mut i: usize = 0;
    assert(all.skip(0) =~= all);
    while i < pairs.len()
        invariant
            i <= pairs@.len() == all.len(),
            name_chars@ == name@,
            equals@ == seq!['='],
            forall|j: int| 0 <= j < pairs@.len() ==> #[trigger] pairs@[j]@ == all[j],
            param_value(uri@, name@) == first_value(all.skip(i as int), name@),
        decreases pairs@.len() - i,
    {
        assert(pairs@[i as int]@ == all[i as int]);
        assert(all.skip(i as int)[0] == all[i as int]);
        assert(all.skip(i as int).skip(1) =~= all.skip(i + 1));
        if let Some((key, value)) = split_once_at(&pairs[i], &equals) {
            if same(&key, &name_chars) {
                return Some(string_of(&value));
            }
        }
        i = i + 1;
    }
    None
}

/// What percent-encoded bytes stand for: an escape of a percent sign and two hexadecimal digits
/// is the character with that code, every other byte is the character with its own code.
pub open spec fn percent_decoded(bytes: Seq<u8>) -> Seq<char>
    decreases bytes.len(),
{
    if bytes.len() == 0 {
        Seq::empty()
    } else if bytes[0] == 37 && bytes.len() > 2 && hex_pair_value(bytes[1], bytes[2]) is Some {
        seq![hex_pair_value(bytes[1], bytes[2])->0 as char] + percent_decoded(bytes.skip(3))
    } else {
        seq![bytes[0] as char] + percent_decoded(bytes.skip(1))
    }
}

/// Decodes percent-encoded text.
pub fn percent_decode(input: &str) -> (r: String)
    ensures
        r@ == percent_decoded(vstd::utf8::encode_utf8(input@)),
{
    let bytes = input.as_bytes();
    let len: usize = bytes.len();
    let mut out = String::new();
    let mut i: usize = 0;
    let ghost whole = percent_decoded(bytes@);
    assert(bytes@.skip(0) =~= bytes@);
    while i < len
        invariant
            i <= len == bytes@.len(),
            whole == out@ + percent_decoded(bytes@.skip(i as int)),
        decreases len - i,
    {
        let ghost rest = bytes@.skip(i as int);
        let ghost before = out@;
        if bytes[i] == 37 && len - i > 2 {
            if let Some(value) = from_hex_pair(bytes[i + 1], bytes[i + 2]) {
                out.push(value as char);
                i = i + 3;
                assert(rest.skip(3) =~= bytes@.skip(i as int));
                assert(before + (seq![value as char] + percent_decoded(rest.skip(3))) =~= out@
                    + percent_decoded(bytes@.skip(i as int)));
                continue ;
            }
        }
        out.push(bytes[i] as char);
        i = i + 1;
        assert(rest.skip(1) =~= bytes@.skip(i as int));
        assert(before + (seq![rest[0] as char] + percent_decoded(rest.skip(1))) =~= out@
            + percent_decoded(bytes@.skip(i as int)));
    }
    assert(percent_decoded(bytes@.skip(i as int)) =~= Seq::empty());
    out
}

/// The escape of a character code: a percent sign and two upper-case hexadecimal digits.
pub open spec fn escape(code: u8) -> Seq<u8> {
    seq![
        37u8,
        hex_digit(code as int / 16, true) as u8,
        hex_digit(code as int % 16, true) as u8,
    ]
}

/// The escapes of all given codes, in order.
pub open spec fn percent_encoded(codes: Seq<u8>) -> Seq<u8>
    decreases codes.len(),
{
    if codes.len() == 0 {
        Seq::empty()
    } else {
        escape(codes[0]) + percent_encoded(codes.skip(1))
    }
}

proof fn lemma_escape(code: u8)
    ensures
        hex_pair_value(escape(code)[1], escape(code)[2]) == Some(code),
{
    let h = code as int / 16;
    let l = code as int % 16;
    assert(hex_digit_value(hex_digit(h, true) as u8) == Some(h as u8));
    assert(hex_digit_value(hex_digit(l, true) as u8) == Some(l as u8));
}

/// Whether the `i`-th three bytes are an escape of the `i`-th code: a percent sign and two bytes
/// that are read as that number, such as its hexadecimal digits in upper or lower case.
pub open spec fn is_escape_of(escapes: Seq<u8>, codes: Seq<u8>, i: int) -> bool {
    &&& escapes[3 * i] == 37
    &&& hex_pair_value(escapes[3 * i + 1], escapes[3 * i + 2]) == Some(codes[i])
}

/// Whether the bytes are escapes of the given codes, in order.
pub open spec fn are_escapes_of(escapes: Seq<u8>, codes: Seq<u8>) -> bool {
    &&& escapes.len() == 3 * codes.len()
    &&& forall|i: int| 0 <= i < codes.len() ==> #[trigger] is_escape_of(escapes, codes, i)
}

/// Decoding undoes every way of escaping: whatever the case of the hexadecimal digits, the
/// characters with the escaped codes come back.
pub proof fn law_percent_decode_inverts_any_escape(escapes: Seq<u8>, codes: Seq<u8>)
    requires
        are_escapes_of(escapes, codes),
    ensures
        percent_decoded(escapes) == as_text(codes),
    decreases codes.len(),
{
    if codes.len() > 0 {
        let rest = codes.skip(1);
        let tail = escapes.skip(3);
        assert(is_escape_of(escapes, codes, 0));
        assert forall|i: int| 0 <= i < rest.len() implies #[trigger] is_escape_of(
            tail,
            rest,
            i,
        ) by {
            assert(is_escape_of(escapes, codes, i + 1));
            assert(tail[3 * i] == escapes[3 * (i + 1)]);
            assert(tail[3 * i + 1] == escapes[3 * (i + 1) + 1]);
            assert(tail[3 * i + 2] == escapes[3 * (i + 1) + 2]);
        }
        law_percent_decode_inverts_any_escape(tail, rest);
        assert(percent_decoded(escapes) =~= seq![codes[0] as char] + percent_decoded(tail));
    }
    assert(percent_decoded(escapes) =~= codes.map_values(|b: u8| b as char));
}

proof fn lemma_encoded_are_escapes(codes: Seq<u8>)
    ensures
        are_escapes_of(percent_encoded(codes), codes),
    decreases codes.len(),
{
    if codes.len() > 0 {
        let e = percent_encoded(codes);
        let rest = codes.skip(1);
        let tail = percent_encoded(rest);
        lemma_encoded_are_escapes(rest);
        lemma_escape(codes[0]);
        let first = escape(codes[0]);
        assert(e == first + tail);
        assert(e[0] == first[0] && e[1] == first[1] && e[2] == first[2]);
        assert(is_escape_of(e, codes, 0));
        assert forall|i: int| 0 <= i < codes.len() implies #[trigger] is_escape_of(
            e,
            codes,
            i,
        ) by {
            if i > 0 {
                assert(is_escape_of(tail, rest, i - 1));
                assert(e[3 * i] == tail[3 * (i - 1)]);
                assert(e[3 * i + 1] == tail[3 * (i - 1) + 1]);
                assert(e[3 * i + 2] == tail[3 * (i - 1) + 2]);
            }
        }
    }
}

/// Decoding undoes escaping: text whose characters all have codes below 256 comes back as it was.
pub proof fn law_percent_decode_inverts_encode(codes: Seq<u8>)
    ensures
        percent_decoded(percent_encoded(codes)) == as_text(codes),
{
    lemma_encoded_are_escapes(codes);
    law_percent_decode_inverts_any_escape(percent_encoded(codes), codes);
}

/// Bytes without a percent sign stand for the characters with their codes.
pub proof fn law_percent_decode_keeps_plain_text(bytes: Seq<u8>)
    requires
        !bytes.contains(37),
    ensures
        percent_decoded(bytes) == as_text(bytes),
    decreases bytes.len(),
{
    if bytes.len() > 0 {
        let rest = bytes.skip(1);
        assert forall|i: int| 0 <= i < rest.len() implies rest[i] != 37 by {
            assert(rest[i] == bytes[i + 1]);
        }
        assert(bytes[0] != 37);
        law_percent_decode_keeps_plain_text(rest);
    }
    assert(percent_decoded(bytes) =~= bytes.map_values(|b: u8| b as char));
}

/// The query of a URI is what follows its first question mark.
pub proof fn law_query_follows_the_mark(path: Seq<char>, query: Seq<char>)
    requires
        !path.contains('?'),
    ensures
        query_of(path + seq!['?'] + query) == query,
        query_of(path) == Seq::<char>::empty(),
{
    law_split_once_cuts_at_the_first(path, '?', query);
}

proof fn lemma_split_of_parts(first: Seq<char>, rest: Seq<char>)
    requires
        !first.contains('&'),
    ensures
        split(first, '&') == seq![first],
        split(first + seq!['&'] + rest, '&') == seq![first] + split(rest, '&'),
{
    law_split_once_cuts_at_the_first(first, '&', rest);
}

proof fn lemma_first_prefixed_found(parts: Seq<Seq<char>>, prefix: Seq<char>, value: Seq<char>)
    requires
        parts.len() > 0,
        parts[0] == prefix + value,
    ensures
        first_prefixed(parts, prefix) == Some(value),
{
    assert(parts[0].subrange(0, prefix.len() as int) =~= prefix);
    assert(parts[0].skip(prefix.len() as int) =~= value);
}

/// A parameter is found where it is the first, whatever follows it.
pub proof fn law_first_parameter_is_found(prefix: Seq<char>, value: Seq<char>, rest: Seq<char>)
    requires
        !prefix.contains('&'),
        !value.contains('&'),
    ensures
        parameter(prefix + value, prefix) == Some(value),
        parameter(prefix + value + seq!['&'] + rest, prefix) == Some(value),
{
    let first = prefix + value;
    lemma_joined_has_none(prefix, value, '&');
    lemma_split_of_parts(first, rest);
    lemma_first_prefixed_found(seq![first], prefix, value);
    lemma_first_prefixed_found(seq![first] + split(rest, '&'), prefix, value);
}

/// A parameter is found behind one that it does not name.
pub proof fn law_later_parameter_is_found(first: Seq<char>, prefix: Seq<char>, query: Seq<char>)
    requires
        !first.contains('&'),
        !starts_with(first, prefix),
    ensures
        parameter(first + seq!['&'] + query, prefix) == parameter(query, prefix),
{
    lemma_split_of_parts(first, query);
    let parts = seq![first] + split(query, '&');
    assert(parts.skip(1) =~= split(query, '&'));
}

pub(crate) proof fn lemma_joined_has_none(a: Seq<char>, b: Seq<char>, c: char)
    requires
        !a.contains(c),
        !b.contains(c),
    ensures
        !(a + b).contains(c),
{
    assert forall|i: int| 0 <= i < (a + b).len() implies (a + b)[i] != c by {
        if i < a.len() {
            assert(a.contains(a[i]));
        } else {
            assert(b.contains(b[i - a.len()]));
        }
    }
}

pub(crate) proof fn lemma_decimal_is_digits(n: nat, c: char)
    requires
        !is_digit(c),
    ensures
        !decimal(n).contains(c),
    decreases n,
{
    let s = decimal(n);
    if n >= 10 {
        lemma_decimal_is_digits(n / 10, c);
        assert forall|i: int| 0 <= i < s.len() implies s[i] != c by {
            if i < s.len() - 1 {
                assert(s[i] == decimal(n / 10)[i]);
                assert(decimal(n / 10).contains(s[i]));
            }
        }
    }
}

/// A number that a request holds is read back.
pub proof fn law_number_is_read_back(
    prefix: Seq<char>,
    n: nat,
    max: nat,
    default: nat,
    rest: Seq<char>,
)
    requires
        !prefix.contains('&'),
        n <= max,
    ensures
        number_parameter(prefix + decimal(n), prefix, max, default) == n,
        number_parameter(prefix + decimal(n) + seq!['&'] + rest, prefix, max, default) == n,
{
    lemma_decimal_is_digits(n, '&');
    law_first_parameter_is_found(prefix, decimal(n), rest);
    law_parse_inverts_decimal(n, max);
}

/// A value is found by its name where it is the first.
pub proof fn law_first_value_is_found(path: Seq<char>, name: Seq<char>, value: Seq<char>)
    requires
        !path.contains('?'),
        !name.contains('='),
        !name.contains('&'),
        !value.contains('&'),
    ensures
        param_value(path + seq!['?'] + (name + seq!['='] + value), name) == Some(value),
{
    let pair = name + seq!['='] + value;
    law_split_once_cuts_at_the_first(path, '?', pair);
    law_split_once_cuts_at_the_first(name, '=', value);
    lemma_joined_has_none(name, seq!['='], '&');
    lemma_joined_has_none(name + seq!['='], value, '&');
    lemma_split_of_parts(pair, Seq::empty());
}

/// Bytes as characters with the same codes.
pub open spec fn as_text(bytes: Seq<u8>) -> Seq<char> {
    bytes.map_values(|b: u8| b as char)
}

proof fn lemma_percent_encoded_bytes(codes: Seq<u8>, i: int)
    requires
        0 <= i < percent_encoded(codes).len(),
    ensures
        percent_encoded(codes)[i] < 128,
        percent_encoded(codes)[i] != 38,
    decreases codes.len(),
{
    let first = escape(codes[0]);
    let rest = percent_encoded(codes.skip(1));
    let h = codes[0] as int / 16;
    let l = codes[0] as int % 16;
    assert(hex_digit_value(hex_digit(h, true) as u8) == Some(h as u8));
    assert(hex_digit_value(hex_digit(l, true) as u8) == Some(l as u8));
    if i >= 3 {
        assert(percent_encoded(codes)[i] == rest[i - 3]);
        lemma_percent_encoded_bytes(codes.skip(1), i - 3);
    } else {
        assert(percent_encoded(codes)[i] == first[i]);
    }
}

/// Text that is sent percent-encoded as a parameter is read back.
pub proof fn law_encoded_text_is_read_back(path: Seq<char>, name: Seq<char>, codes: Seq<u8>)
    requires
        !path.contains('?'),
        !name.contains('='),
        !name.contains('&'),
    ensures
        ({
            let uri = path + seq!['?'] + (name + seq!['='] + as_text(percent_encoded(codes)));
            &&& param_value(uri, name) == Some(as_text(percent_encoded(codes)))
            &&& percent_decoded(vstd::utf8::encode_utf8(as_text(percent_encoded(codes))))
                == as_text(codes)
        }),
{
    let bytes = percent_encoded(codes);
    let text = as_text(bytes);
    assert forall|i: int| 0 <= i < text.len() implies text[i] != '&' && '\0' <= #[trigger] text[i]
        <= '\u{7f}' by {
        lemma_percent_encoded_bytes(codes, i);
    }
    law_first_value_is_found(path, name, text);
    vstd::utf8::is_ascii_chars_encode_utf8(text);
    let encoded = vstd::utf8::encode_utf8(text);
    assert forall|i: int| 0 <= i < bytes.len() implies encoded[i] == bytes[i] by {
        lemma_percent_encoded_bytes(codes, i);
        assert(text[i] as u8 == encoded[i]);
    }
    assert(encoded =~= bytes);
    law_percent_decode_inverts_encode(codes);
}

/// A number that is too large is passed over for the default.
pub proof fn law_too_large_number_gives_default(
    prefix: Seq<char>,
    n: nat,
    max: nat,
    default: nat,
    rest: Seq<char>,
)
    requires
        !prefix.contains('&'),
        n > max,
    ensures
        number_parameter(prefix + decimal(n), prefix, max, default) == default,
        number_parameter(prefix + decimal(n) + seq!['&'] + rest, prefix, max, default) == default,
{
    lemma_decimal_is_digits(n, '&');
    law_first_parameter_is_found(prefix, decimal(n), rest);
    law_parse_refuses_larger_numbers(n, max);
}

/// A value that is no number is passed over for the default.
pub proof fn law_bad_number_gives_default(
    prefix: Seq<char>,
    value: Seq<char>,
    i: int,
    max: nat,
    default: nat,
    rest: Seq<char>,
)
    requires
        !prefix.contains('&'),
        !value.contains('&'),
        0 <= i < value.len(),
        !('0' <= value[i] <= '9'),
        i > 0 || value[0] != '+',
    ensures
        number_parameter(prefix + value, prefix, max, default) == default,
        number_parameter(prefix + value + seq!['&'] + rest, prefix, max, default) == default,
{
    law_first_parameter_is_found(prefix, value, rest);
    crate::number::law_parse_refuses_other_text(value, i, max);
}

/// Where the one parameter that there is has another name, the default is taken.
pub proof fn law_absent_parameter_gives_default(
    only: Seq<char>,
    prefix: Seq<char>,
    max: nat,
    default: nat,
)
    requires
        !only.contains('&'),
        !starts_with(only, prefix),
    ensures
        parameter(only, prefix) is None,
        number_parameter(only, prefix, max, default) == default,
{
    lemma_split_of_parts(only, Seq::empty());
    assert(seq![only].skip(1) =~= Seq::<Seq<char>>::empty());
    assert(first_prefixed(seq![only].skip(1), prefix) is None);
}

/// A value is found by its name wherever its pair stands: behind pairs with other names, and
/// whatever follows.
pub proof fn law_later_value_is_found(
    path: Seq<char>,
    key: Seq<char>,
    other: Seq<char>,
    name: Seq<char>,
    value: Seq<char>,
    rest: Seq<char>,
)
    requires
        !path.contains('?'),
        !key.contains('='),
        !key.contains('&'),
        !other.contains('&'),
        !name.contains('='),
        !name.contains('&'),
        !value.contains('&'),
        key != name,
    ensures
        ({
            let first = key + seq!['='] + other;
            let pair = name + seq!['='] + value;
            &&& param_value(path + seq!['?'] + (pair + seq!['&'] + rest), name) == Some(value)
            &&& param_value(path + seq!['?'] + (first + seq!['&'] + pair), name) == Some(value)
            &&& param_value(path + seq!['?'] + (first + seq!['&'] + (pair + seq!['&'] + rest)), name)
                == Some(value)
            &&& param_value(path + seq!['?'] + first, name) is None
        }),
        param_value(path, name) is None,
{
    let first = key + seq!['='] + other;
    let pair = name + seq!['='] + value;
    let long = pair + seq!['&'] + rest;
    law_split_once_cuts_at_the_first(path, '?', long);
    law_split_once_cuts_at_the_first(path, '?', first);
    law_split_once_cuts_at_the_first(path, '?', first + seq!['&'] + pair);
    law_split_once_cuts_at_the_first(path, '?', first + seq!['&'] + long);
    law_split_once_cuts_at_the_first(key, '=', other);
    law_split_once_cuts_at_the_first(name, '=', value);
    lemma_joined_has_none(key, seq!['='], '&');
    lemma_joined_has_none(key + seq!['='], other, '&');
    lemma_joined_has_none(name, seq!['='], '&');
    lemma_joined_has_none(name + seq!['='], value, '&');
    lemma_split_of_parts(pair, rest);
    lemma_split_of_parts(first, pair);
    lemma_split_of_parts(first, long);
    let tail = split(pair, '&');
    let long_tail = split(long, '&');
    assert((seq![first] + tail).skip(1) =~= tail);
    assert((seq![first] + long_tail).skip(1) =~= long_tail);
    assert(seq![first].skip(1) =~= Seq::<Seq<char>>::empty());
    assert(first_value(seq![first].skip(1), name) is None);
    assert(first_value(long_tail, name) == Some(value));
    assert(first_value(tail, name) == Some(value));
}

/// Decoding goes on behind plain text and behind an escape: plain text stays as it is, and an
/// escape, in digits of either case, becomes the character with its code.
pub proof fn law_percent_decode_goes_on(
    plain: Seq<u8>,
    code: u8,
    upper_h: bool,
    upper_l: bool,
    rest: Seq<u8>,
)
    requires
        !plain.contains('%' as u8),
    ensures
        percent_decoded(plain + rest) == as_text(plain) + percent_decoded(rest),
        ({
            let digits = seq![
                '%' as u8,
                hex_digit(code as int / 16, upper_h) as u8,
                hex_digit(code as int % 16, upper_l) as u8,
            ];
            percent_decoded(digits + rest) == seq![code as char] + percent_decoded(rest)
        }),
    decreases plain.len(),
{
    if plain.len() > 0 {
        let tail = plain.skip(1);
        assert forall|i: int| 0 <= i < tail.len() implies tail[i] != 37 by {
            assert(tail[i] == plain[i + 1]);
        }
        law_percent_decode_goes_on(tail, code, upper_h, upper_l, rest);
        assert(plain[0] != 37);
        assert((plain + rest).skip(1) =~= tail + rest);
        assert(as_text(plain) =~= seq![plain[0] as char] + as_text(tail));
        assert(as_text(plain) + percent_decoded(rest) =~= seq![plain[0] as char] + (as_text(tail)
            + percent_decoded(rest)));
    } else {
        assert(plain + rest =~= rest);
        assert(as_text(plain) + percent_decoded(rest) =~= percent_decoded(rest));
    }
    let digits = seq![
        37u8,
        hex_digit(code as int / 16, upper_h) as u8,
        hex_digit(code as int % 16, upper_l) as u8,
    ];
    law_hex_pairs(code as int / 16, code as int % 16, upper_h, upper_l);
    assert((digits + rest).skip(3) =~= rest);
    assert((digits + rest)[1] == digits[1] && (digits + rest)[2] == digits[2]);
}

/// A percent sign that does not start an escape stays as it is: at the end, before a single
/// character, and before two of which the second is no hexadecimal digit, or the first neither one
/// nor a plus sign.
pub proof fn law_other_percent_signs_stay(rest: Seq<u8>)
    requires
        rest.len() < 2 || !is_hex_digit(rest[1]) || (!is_hex_digit(rest[0]) && rest[0]
            != '+' as u8),
    ensures
        percent_decoded(seq!['%' as u8] + rest) == seq!['%'] + percent_decoded(rest),
{
    let bytes = seq![37u8] + rest;
    assert(bytes.skip(1) =~= rest);
    if rest.len() >= 2 {
        law_hex_pair_takes_digits_and_a_sign(rest[0], rest[1]);
        assert(bytes[1] == rest[0] && bytes[2] == rest[1]);
    }
}

/// A part that is no pair, and a pair with another name, are passed over.
pub proof fn law_other_parts_are_passed_over(
    path: Seq<char>,
    first: Seq<char>,
    query: Seq<char>,
    name: Seq<char>,
)
    requires
        !path.contains('?'),
        !first.contains('&'),
        split_once(first, seq!['=']) matches Some((key, _)) ==> key != name,
    ensures
        param_value(path + seq!['?'] + (first + seq!['&'] + query), name) == param_value(
            path + seq!['?'] + query,
            name,
        ),
        !first.contains('=') ==> split_once(first, seq!['=']) is None,
{
    law_split_once_cuts_at_the_first(path, '?', first + seq!['&'] + query);
    law_split_once_cuts_at_the_first(path, '?', query);
    lemma_split_of_parts(first, query);
    let parts = seq![first] + split(query, '&');
    assert(parts.skip(1) =~= split(query, '&'));
    if !first.contains('=') {
        law_split_once_cuts_at_the_first(first, '=', Seq::empty());
    }
}

} // verus!
