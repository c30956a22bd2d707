//! JSON text: string escapes and the literals of booleans and byte strings.

use crate::number::{
    hex, hex_digit, hex_digit_value, hex_pair_value, law_hex_pairs, padded_start, pad_start, to_hex,
    to_hex_digit,
};
use crate::text::{chars_of, lemma_cut_at_stop};
use vstd::prelude::*;

verus! {

/// The JSON literal of a boolean.
pub open spec fn bool_text(b: bool) -> Seq<char> {
    if b {
        "true"@
    } else {
        "false"@
    }
}

/// The JSON literal of a boolean.
pub fn bool_literal(b: bool) -> (r: &'static str)
    ensures
        r@ == bool_text(b),
{
    if b {
        "true"
    } else {
        "false"
    }
}

/// Two lower-case hexadecimal digits for each byte, the high half first.
pub open spec fn hex_text(bytes: Seq<u8>) -> Seq<char> {
    Seq::new(
        2 * bytes.len(),
        |i: int|
            if i % 2 == 0 {
                hex_digit(bytes[i / 2] as int / 16, false)
            } else {
                hex_digit(bytes[i / 2] as int % 16, false)
            },
    )
}

/// Writes bytes as hexadecimal digits.
pub fn bytes_to_hex(bytes: &[u8]) -> (r: String)
    ensures
        r@ == hex_text(bytes@),
{
    let mut out = String::new();
    let mut i: usize = 0;
    assert(out@ =~= hex_text(bytes@.take(0)));
    while i < bytes.len()
        invariant
            i <= bytes@.len(),
            out@ == hex_text(bytes@.take(i as int)),
        decreases bytes@.len() - i,
    {
        let b: u8 = bytes[i];
        let ghost before = out@;
        assert(b >> 4 == b / 16 && b & 0x0f == b % 16) by (bit_vector);
        out.push(to_hex_digit(b >> 4, false));
        out.push(to_hex_digit(b & 0x0f, false));
        i = i + 1;
        proof {
            let t = bytes@.take(i as int);
            assert forall|j: int| 0 <= j < 2 * i implies out@[j] == hex_text(t)[j] by {
                if j < 2 * (i - 1) {
                    assert(before[j] == hex_text(bytes@.take(i - 1))[j]);
                    assert(t[j / 2] == bytes@.take(i - 1)[j / 2]);
                } else {
                    assert(t[j / 2] == b);
                }
            }
            assert(out@ =~= hex_text(t));
        }
    }
    assert(bytes@.take(i as int) =~= bytes@);
    out
}

/// Different byte strings have different hexadecimal texts.
pub proof fn law_hex_text_is_injective(a: Seq<u8>, b: Seq<u8>)
    requires
        hex_text(a) == hex_text(b),
    ensures
        a == b,
{
    assert(hex_text(a).len() == 2 * a.len() && hex_text(b).len() == 2 * b.len());
    assert forall|i: int| 0 <= i < a.len() implies a[i] == b[i] by {
        assert(hex_text(a)[2 * i] == hex_text(b)[2 * i]);
        assert(hex_text(a)[2 * i + 1] == hex_text(b)[2 * i + 1]);
        assert(hex_text(a)[2 * i] == hex_digit(a[i] as int / 16, false));
        assert(hex_text(b)[2 * i] == hex_digit(b[i] as int / 16, false));
        assert(hex_text(a)[2 * i + 1] == hex_digit(a[i] as int % 16, false));
        assert(hex_text(b)[2 * i + 1] == hex_digit(b[i] as int % 16, false));
        let (ha, hb) = (a[i] as int / 16, b[i] as int / 16);
        let (la, lb) = (a[i] as int % 16, b[i] as int % 16);
        assert(hex_digit(ha, false) == hex_digit(hb, false));
        assert(hex_digit(la, false) == hex_digit(lb, false));
    }
    assert(a =~= b);
}

/// How a character stands inside a JSON string.
pub open spec fn escaped_char(c: char) -> Seq<char> {
    if c == '"' {
        seq!['\\', '"']
    } else if c == '\\' {
        seq!['\\', '\\']
    } else if c == '\n' {
        seq!['\\', 'n']
    } else if c == '\r' {
        seq!['\\', 'r']
    } else if c == '\t' {
        seq!['\\', 't']
    } else if (c as u32) < 0x20 {
        seq!['\\', 'u'] + pad_start(hex(c as nat, false), 4, '0')
    } else {
        seq![c]
    }
}

/// How a text stands inside a JSON string.
pub open spec fn escaped(s: Seq<char>) -> Seq<char>
    decreases s.len(),
{
    if s.len() == 0 {
        Seq::empty()
    } else {
        escaped(s.drop_last()) + escaped_char(s.last())
    }
}

fn push_escaped(out: &mut String, c: char)
    ensures
        final(out)@ == old(out)@ + escaped_char(c),
{
    if c == '"' {
        out.push('\\');
        out.push('"');
    } else if c == '\\' {
        out.push('\\');
        out.push('\\');
    } else if c == '\n' {
        out.push('\\');
        out.push('n');
    } else if c == '\r' {
        out.push('\\');
        out.push('r');
    } else if c == '\t' {
        out.push('\\');
        out.push('t');
    } else if (c as u32) < 0x20 {
        out.push('\\');
        out.push('u');
        let digits = to_hex(c as u64, false);
        let code = padded_start(digits.as_str(), 4, '0');
        out.append(code.as_str());
    } else {
        out.push(c);
    }
    assert(out@ =~= old(out)@ + escaped_char(c));
}

/// Escapes text for a JSON string.
pub fn json_escape(s: &str) -> (r: String)
    ensures
        r@ == escaped(s@),
{
    let chars = chars_of(s);
    let mut out = String::new();
    let mut i: usize = 0;
    while i < chars.len()
        invariant
            i <= chars@.len(),
            out@ == escaped(chars@.take(i as int)),
        decreases chars@.len() - i,
    {
        push_escaped(&mut out, chars[i]);
        i = i + 1;
        proof {
            let t = chars@.take(i as int);
            assert(t.drop_last() =~= chars@.take(i - 1));
            assert(t.last() == chars@[i - 1]);
        }
    }
    assert(chars@.take(i as int) =~= chars@);
    out
}

/// The character that the escape letter `c` stands for.
pub open spec fn short_escape(c: char) -> Option<char> {
    if c == '"' {
        Some('"')
    } else if c == '\\' {
        Some('\\')
    } else if c == 'n' {
        Some('\n')
    } else if c == 'r' {
        Some('\r')
    } else if c == 't' {
        Some('\t')
    } else {
        None
    }
}

/// The code that four hexadecimal digits stand for.
pub open spec fn code_of(s: Seq<char>) -> Option<int> {
    match (
        hex_digit_value(s[0] as u8),
        hex_digit_value(s[1] as u8),
        hex_digit_value(s[2] as u8),
        hex_digit_value(s[3] as u8),
    ) {
        (Some(a), Some(b), Some(c), Some(d)) => Some(a * 4096 + b * 256 + c * 16 + d),
        _ => None,
    }
}

/// What the inside of a JSON string stands for; `None` where it is malformed: a bare quote, a
/// bare control character or an escape that is not one of the above.
pub open spec fn unescaped(s: Seq<char>) -> Option<Seq<char>>
    decreases s.len(),
{
    if s.len() == 0 {
        Some(Seq::empty())
    } else if s[0] == '\\' {
        if s.len() >= 2 && short_escape(s[1]) is Some {
            match unescaped(s.skip(2)) {
                Some(rest) => Some(seq![short_escape(s[1])->0] + rest),
                None => None,
            }
        } else if s.len() >= 6 && s[1] == 'u' && code_of(s.subrange(2, 6)) is Some {
            match unescaped(s.skip(6)) {
                Some(rest) => Some(seq![code_of(s.subrange(2, 6))->0 as char] + rest),
                None => None,
            }
        } else {
            None
        }
    } else if s[0] == '"' || (s[0] as u32) < 0x20 {
        None
    } else {
        match unescaped(s.skip(1)) {
            Some(rest) => Some(seq![s[0]] + rest),
            None => None,
        }
    }
}

proof fn lemma_control_code(c: char)
    requires
        (c as u32) < 0x20,
    ensures
        ({
            let h = c as int / 16;
            let l = c as int % 16;
            pad_start(hex(c as nat, false), 4, '0') == seq![
                '0',
                '0',
                hex_digit(h, false),
                hex_digit(l, false),
            ]
        }),
{
    let n = c as nat;
    let h = n as int / 16;
    let l = n as int % 16;
    reveal_with_fuel(hex, 3);
    assert(pad_start(hex(n, false), 4, '0') =~= seq![
        '0',
        '0',
        hex_digit(h, false),
        hex_digit(l, false),
    ]);
}

/// Reading one escaped character and then the rest.
proof fn lemma_unescape_char(c: char, rest: Seq<char>)
    requires
        unescaped(rest) is Some,
    ensures
        unescaped(escaped_char(c) + rest) == Some(seq![c] + unescaped(rest)->0),
{
    let s = escaped_char(c) + rest;
    if c == '"' || c == '\\' || c == '\n' || c == '\r' || c == '\t' {
        assert(s.skip(2) =~= rest);
    } else if (c as u32) < 0x20 {
        lemma_control_code(c);
        let h = c as int / 16;
        let l = c as int % 16;
        assert(s.skip(6) =~= rest);
        let d = s.subrange(2, 6);
        assert(d =~= seq!['0', '0', hex_digit(h, false), hex_digit(l, false)]);
        assert(hex_digit_value('0' as u8) == Some(0u8));
        assert(hex_digit_value(d[2] as u8) == Some(h as u8));
        assert(hex_digit_value(d[3] as u8) == Some(l as u8));
        assert(code_of(d) == Some(c as int));
        assert(s[0] == '\\' && s[1] == 'u');
        assert(short_escape(s[1]) is None);
    } else {
        assert(s.skip(1) =~= rest);
    }
}

proof fn lemma_unescape_after(s: Seq<char>, rest: Seq<char>)
    requires
        unescaped(rest) is Some,
    ensures
        unescaped(escaped(s) + rest) == Some(s + unescaped(rest)->0),
    decreases s.len(),
{
    if s.len() == 0 {
        assert(escaped(s) + rest =~= rest);
        assert(s + unescaped(rest)->0 =~= unescaped(rest)->0);
    } else {
        let t = s.drop_last();
        let c = s.last();
        lemma_unescape_char(c, rest);
        lemma_unescape_after(t, escaped_char(c) + rest);
        assert(escaped(s) + rest =~= escaped(t) + (escaped_char(c) + rest));
        assert(t + (seq![c] + unescaped(rest)->0) =~= s + unescaped(rest)->0);
    }
}

/// An escaped text is well-formed inside a JSON string and stands for the text itself.
pub proof fn law_unescape_inverts_escape(s: Seq<char>)
    ensures
        unescaped(escaped(s)) == Some(s),
{
    let empty = Seq::<char>::empty();
    lemma_unescape_after(s, empty);
    assert(escaped(s) + empty =~= escaped(s));
    assert(s + empty =~= s);
}

/// Where the JSON string that `t` holds from `i` on ends: at its first quotation mark that is not
/// escaped.
pub open spec fn string_end(t: Seq<char>, i: int) -> int
    decreases t.len() - i + 1,
{
    if i >= t.len() || t[i] == '"' {
        i
    } else if t[i] == '\\' {
        string_end(t, i + 2)
    } else {
        string_end(t, i + 1)
    }
}

proof fn lemma_hex_has_no_marks(n: nat)
    ensures
        forall|i: int|
            0 <= i < hex(n, false).len() ==> #[trigger] hex(n, false)[i] != '"' && hex(n, false)[i]
                != '\\',
    decreases n,
{
    if n >= 16 {
        lemma_hex_has_no_marks(n / 16);
        let d = hex_digit((n % 16) as int, false);
        assert(d != '"' && d != '\\');
        assert forall|i: int| 0 <= i < hex(n, false).len() implies #[trigger] hex(n, false)[i]
            != '"' && hex(n, false)[i] != '\\' by {
            if i < hex(n / 16, false).len() {
                assert(hex(n, false)[i] == hex(n / 16, false)[i]);
            }
        }
    } else {
        let d = hex_digit(n as int, false);
        assert(d != '"' && d != '\\');
    }
}

proof fn lemma_string_goes_on_over_char(t: Seq<char>, i: int, c: char)
    requires
        0 <= i,
        i + escaped_char(c).len() <= t.len(),
        t.subrange(i, i + escaped_char(c).len()) == escaped_char(c),
    ensures
        string_end(t, i) == string_end(t, i + escaped_char(c).len()),
{
    let e = escaped_char(c);
    let n = e.len() as int;
    assert(e.len() >= 1);
    assert forall|j: int| 0 <= j < n implies t[i + j] == e[j] by {
        assert(t.subrange(i, i + n)[j] == t[i + j]);
    }
    assert(t[i + 0] == e[0]);
    if e[0] == '\\' {
        assert(string_end(t, i) == string_end(t, i + 2));
        if n > 2 {
            lemma_hex_has_no_marks(c as nat);
            let code = pad_start(hex(c as nat, false), 4, '0');
            assert forall|j: int| 0 <= j < code.len() implies #[trigger] code[j] != '"' && code[j]
                != '\\' by {}
            assert forall|j: int| i + 2 <= j < i + n implies #[trigger] t[j] != '"' && t[j]
                != '\\' by {
                assert(e[j - i] == code[j - i - 2]);
            }
            lemma_string_goes_on(t, i + 2, i + n);
        }
    }
}

proof fn lemma_string_goes_on(t: Seq<char>, i: int, end: int)
    requires
        0 <= i <= end <= t.len(),
        forall|j: int| i <= j < end ==> #[trigger] t[j] != '"' && t[j] != '\\',
    ensures
        string_end(t, i) == string_end(t, end),
    decreases end - i,
{
    if i < end {
        assert(t[i] != '"' && t[i] != '\\');
        lemma_string_goes_on(t, i + 1, end);
    }
}

proof fn lemma_string_goes_on_over_text(t: Seq<char>, i: int, s: Seq<char>)
    requires
        0 <= i,
        i + escaped(s).len() <= t.len(),
        t.subrange(i, i + escaped(s).len()) == escaped(s),
    ensures
        string_end(t, i) == string_end(t, i + escaped(s).len()),
    decreases s.len(),
{
    if s.len() > 0 {
        let head = escaped(s.drop_last());
        let last = escaped_char(s.last());
        let m = i + head.len();
        let n = i + escaped(s).len();
        let here = t.subrange(i, n);
        assert(here == head + last);
        assert(t.subrange(i, m) =~= here.take(head.len() as int));
        assert(here.take(head.len() as int) =~= head);
        lemma_string_goes_on_over_text(t, i, s.drop_last());
        assert(t.subrange(m, n) =~= here.skip(head.len() as int));
        assert(here.skip(head.len() as int) =~= last);
        lemma_string_goes_on_over_char(t, m, s.last());
    }
}

/// A JSON string ends where its text ends: an escaped text and what follows its closing quotation
/// mark can be told apart.
pub proof fn law_strings_can_be_told_apart(
    a: Seq<char>,
    b: Seq<char>,
    after_a: Seq<char>,
    after_b: Seq<char>,
)
    requires
        escaped(a) + seq!['"'] + after_a == escaped(b) + seq!['"'] + after_b,
    ensures
        a == b,
        after_a == after_b,
{
    let whole = escaped(a) + seq!['"'] + after_a;
    let other = escaped(b) + seq!['"'] + after_b;
    let m = escaped(a).len() as int;
    let n = escaped(b).len() as int;
    assert(whole.subrange(0, m) =~= escaped(a));
    assert(other.subrange(0, n) =~= escaped(b));
    lemma_string_goes_on_over_text(whole, 0, a);
    lemma_string_goes_on_over_text(other, 0, b);
    assert(whole[m] == '"' && other[n] == '"');
    assert(m == n);
    assert(escaped(a) == escaped(b));
    law_unescape_inverts_escape(a);
    law_unescape_inverts_escape(b);
    assert(after_a =~= whole.skip(m + 1));
    assert(after_b =~= other.skip(n + 1));
}

proof fn lemma_hex_text_has_no_mark(bytes: Seq<u8>)
    ensures
        !hex_text(bytes).contains('"'),
{
    assert forall|i: int| 0 <= i < hex_text(bytes).len() implies hex_text(bytes)[i] != '"' by {}
}

/// A byte string ends where its digits end: it can be told apart from what follows its closing
/// quotation mark.
pub proof fn law_byte_strings_can_be_told_apart(
    a: Seq<u8>,
    b: Seq<u8>,
    after_a: Seq<char>,
    after_b: Seq<char>,
)
    requires
        hex_text(a) + seq!['"'] + after_a == hex_text(b) + seq!['"'] + after_b,
    ensures
        a == b,
        after_a == after_b,
{
    lemma_hex_text_has_no_mark(a);
    lemma_hex_text_has_no_mark(b);
    lemma_cut_at_stop(hex_text(a), hex_text(b), '"', after_a, after_b);
    law_hex_text_is_injective(a, b);
}

/// Two digits stand for each byte: read as a hexadecimal number they give it back.
pub proof fn law_hex_text_is_read_back(bytes: Seq<u8>, i: int)
    requires
        0 <= i < bytes.len(),
    ensures
        hex_text(bytes).len() == 2 * bytes.len(),
        hex_pair_value(hex_text(bytes)[2 * i] as u8, hex_text(bytes)[2 * i + 1] as u8) == Some(
            bytes[i],
        ),
{
    let (h, l) = (bytes[i] as int / 16, bytes[i] as int % 16);
    assert(hex_text(bytes)[2 * i] == hex_digit(h, false));
    assert(hex_text(bytes)[2 * i + 1] == hex_digit(l, false));
    law_hex_pairs(h, l, false, false);
}

/// The literals of the two booleans differ.
pub proof fn law_booleans_can_be_told_apart(a: bool, b: bool)
    requires
        bool_text(a) == bool_text(b),
    ensures
        a == b,
{
    reveal_strlit("true");
    reveal_strlit("false");
    assert("true"@[0] == 't' && "false"@[0] == 'f');
    assert(bool_text(a)[0] == bool_text(b)[0]);
}

proof fn lemma_escaped_char_is_printable(c: char)
    ensures
        c != '"' && c != '\\' && c >= ' ' ==> escaped_char(c) == seq![c],
        forall|i: int|
            0 <= i < escaped_char(c).len() ==> #[trigger] escaped_char(c)[i] >= ' ',
{
    if (c as u32) < 0x20 {
        lemma_control_code(c);
    }
}

/// Text without quotation marks, backslashes and control characters stands as it is.
pub proof fn law_plain_text_stands_as_it_is(s: Seq<char>)
    requires
        forall|i: int|
            0 <= i < s.len() ==> #[trigger] s[i] != '"' && s[i] != '\\' && s[i] >= ' ',
    ensures
        escaped(s) == s,
    decreases s.len(),
{
    if s.len() > 0 {
        let before = s.drop_last();
        assert forall|i: int| 0 <= i < before.len() implies #[trigger] before[i] != '"' && before[i]
            != '\\' && before[i] >= ' ' by {
            assert(before[i] == s[i]);
        }
        law_plain_text_stands_as_it_is(before);
        lemma_escaped_char_is_printable(s.last());
        assert(before + seq![s.last()] =~= s);
    } else {
        assert(escaped(s) =~= s);
    }
}

/// Texts are escaped character by character, wherever they are cut.
pub proof fn law_escaping_goes_on(a: Seq<char>, b: Seq<char>)
    ensures
        escaped(a + b) == escaped(a) + escaped(b),
    decreases b.len(),
{
    if b.len() == 0 {
        assert(a + b =~= a);
        assert(escaped(a) + escaped(b) =~= escaped(a));
    } else {
        assert((a + b).drop_last() =~= a + b.drop_last());
        law_escaping_goes_on(a, b.drop_last());
        assert(escaped(a) + (escaped(b.drop_last()) + escaped_char(b.last())) =~= escaped(a)
            + escaped(b.drop_last()) + escaped_char(b.last()));
    }
}

/// No control character is left in an escaped text.
pub proof fn law_no_control_character_is_left(s: Seq<char>, i: int)
    requires
        0 <= i < escaped(s).len(),
    ensures
        escaped(s)[i] >= ' ',
    decreases s.len(),
{
    let before = escaped(s.drop_last());
    let c = s.last();
    if i < before.len() {
        law_no_control_character_is_left(s.drop_last(), i);
    } else {
        lemma_escaped_char_is_printable(c);
        assert(escaped(s)[i] == escaped_char(c)[i - before.len()]);
    }
}

/// The digits of a byte string are those from `0` to `9` and from `a` to `f`.
pub proof fn law_hex_text_is_in_lower_case(bytes: Seq<u8>, i: int)
    requires
        0 <= i < hex_text(bytes).len(),
    ensures
        '0' <= hex_text(bytes)[i] <= '9' || 'a' <= hex_text(bytes)[i] <= 'f',
{
}

} // verus!
