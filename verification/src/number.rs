//! Numbers as text: writing them, padding them and reading them.

use vstd::prelude::*;

verus! {

/// The decimal digit of value `d`.
pub open spec fn digit(d: int) -> char {
    (48 + d) as char
}

/// The decimal digits of `n`, without leading zeros.
pub open spec fn decimal(n: nat) -> Seq<char>
    decreases n,
{
    if n < 10 {
        seq![digit(n as int)]
    } else {
        decimal(n / 10).push(digit((n % 10) as int))
    }
}

/// Writes `n` in decimal.
pub fn to_decimal(n: u64) -> (r: String)
    ensures
        r@ == decimal(n as nat),
    decreases n,
{
    let last: char = (48 + (n % 10) as u8) as char;
    if n < 10 {
        let mut s = String::new();
        s.push(last);
        assert(s@ =~= seq![digit(n as int)]);
        s
    } else {
        let mut s = to_decimal(n / 10);
        s.push(last);
        s
    }
}

/// The hexadecimal digit of value `d`, in lower or upper case.
pub open spec fn hex_digit(d: int, upper: bool) -> char {
    if d < 10 {
        digit(d)
    } else if upper {
        (55 + d) as char
    } else {
        (87 + d) as char
    }
}

/// The hexadecimal digits of `n`, without leading zeros.
pub open spec fn hex(n: nat, upper: bool) -> Seq<char>
    decreases n,
{
    if n < 16 {
        seq![hex_digit(n as int, upper)]
    } else {
        hex(n / 16, upper).push(hex_digit((n % 16) as int, upper))
    }
}

/// The hexadecimal digit of value `d`.
pub fn to_hex_digit(d: u8, upper: bool) -> (r: char)
    requires
        d < 16,
    ensures
        r == hex_digit(d as int, upper),
{
    if d < 10 {
        (48 + d) as char
    } else if upper {
        (55 + d) as char
    } else {
        (87 + d) as char
    }
}

/// Writes `n` in hexadecimal.
pub fn to_hex(n: u64, upper: bool) -> (r: String)
    ensures
        r@ == hex(n as nat, upper),
    decreases n,
{
    let last = to_hex_digit((n % 16) as u8, upper);
    if n < 16 {
        let mut s = String::new();
        s.push(last);
        assert(s@ =~= seq![hex_digit(n as int, upper)]);
        s
    } else {
        let mut s = to_hex(n / 16, upper);
        s.push(last);
        s
    }
}

/// `n` times the character `c`.
pub open spec fn repeated(c: char, n: int) -> Seq<char> {
    Seq::new(
        if n > 0 {
            n as nat
        } else {
            0
        },
        |i: int| c,
    )
}

/// `n` times the character `c`.
pub fn repeat_char(c: char, n: usize) -> (r: String)
    ensures
        r@ == repeated(c, n as int),
{
    let mut s = String::new();
    let mut i: usize = 0;
    assert(s@ =~= repeated(c, 0));
    while i < n
        invariant
            i <= n,
            s@ == repeated(c, i as int),
        decreases n - i,
    {
        s.push(c);
        i = i + 1;
        assert(repeated(c, i as int) =~= repeated(c, i - 1).push(c));
    }
    s
}

/// `s` brought to at least `width` characters by `fill` in front of it.
pub open spec fn pad_start(s: Seq<char>, width: int, fill: char) -> Seq<char> {
    repeated(fill, width - s.len()) + s
}

/// `s` brought to at least `width` characters by `fill` behind it.
pub open spec fn pad_end(s: Seq<char>, width: int, fill: char) -> Seq<char> {
    s + repeated(fill, width - s.len())
}

fn missing(s: &str, width: usize) -> (r: usize)
    ensures
        r == (if width > s@.len() {
            width - s@.len()
        } else {
            0
        }),
{
    let len: usize = s.unicode_len();
    if width > len {
        width - len
    } else {
        0
    }
}

/// `s` brought to at least `width` characters by `fill` in front of it.
pub fn padded_start(s: &str, width: usize, fill: char) -> (r: String)
    ensures
        r@ == pad_start(s@, width as int, fill),
{
    let mut out = repeat_char(fill, missing(s, width));
    assert(out@ =~= repeated(fill, width - s@.len()));
    out.append(s);
    out
}

/// `s` brought to at least `width` characters by `fill` behind it.
pub fn padded_end(s: &str, width: usize, fill: char) -> (r: String)
    ensures
        r@ == pad_end(s@, width as int, fill),
{
    let mut out = s.to_owned();
    let fill_text = repeat_char(fill, missing(s, width));
    assert(fill_text@ =~= repeated(fill, width - s@.len()));
    out.append(fill_text.as_str());
    out
}

/// Writes `n` in decimal, right-aligned to `width`.
pub fn decimal_in(n: u64, width: usize) -> (r: String)
    ensures
        r@ == pad_start(decimal(n as nat), width as int, ' '),
{
    let s = to_decimal(n);
    padded_start(s.as_str(), width, ' ')
}

/// Whether `c` is a decimal digit.
pub open spec fn is_digit(c: char) -> bool {
    '0' <= c && c <= '9'
}

/// The number that decimal digits stand for.
pub open spec fn digits_value(s: Seq<char>) -> nat
    decreases s.len(),
{
    if s.len() == 0 {
        0
    } else {
        digits_value(s.drop_last()) * 10 + (s.last() as nat - 48) as nat
    }
}

/// What is left of `s` without one leading plus sign.
pub open spec fn unsigned_digits(s: Seq<char>) -> Seq<char> {
    if s.len() > 0 && s[0] == '+' {
        s.skip(1)
    } else {
        s
    }
}

/// Whether `s` is an unsigned decimal number: digits, at least one, with an optional plus sign
/// before them.
pub open spec fn is_unsigned(s: Seq<char>) -> bool {
    let t = unsigned_digits(s);
    t.len() > 0 && forall|i: int| 0 <= i < t.len() ==> is_digit(#[trigger] t[i])
}

/// The unsigned decimal number that `s` stands for, where it is one and is at most `max`.
pub open spec fn parsed(s: Seq<char>, max: nat) -> Option<nat> {
    if is_unsigned(s) && digits_value(unsigned_digits(s)) <= max {
        Some(digits_value(unsigned_digits(s)))
    } else {
        None
    }
}

/// Reads an unsigned decimal number of at most `max`.
pub fn parse_unsigned(s: &[char], max: u64) -> (r: Option<u64>)
    ensures
        match r {
            Some(v) => parsed(s@, max as nat) == Some(v as nat),
            None => parsed(s@, max as nat) is None,
        },
{
    let len: usize = s.len();
    let start: usize = if len > 0 && s[0] == '+' {
        1
    } else {
        0
    };
    let ghost t = unsigned_digits(s@);
    assert(t =~= s@.skip(start as int));
    if start == len {
        return None;
    }
    let mut value: u64 = 0;
    let mut small: bool = true;
    let mut i: usize = start;
    assert(t.take(0) =~= Seq::empty());
    while i < len
        invariant
            start <= i <= len == s@.len(),
            t == s@.skip(start as int),
            t == unsigned_digits(s@),
            forall|j: int| 0 <= j < i - start ==> is_digit(#[trigger] t[j]),
            small ==> value == digits_value(t.take(i - start)) && value <= max,
            !small ==> digits_value(t.take(i - start)) > max,
        decreases len - i,
    {
        let c: char = s[i];
        assert(t[i - start] == c);
        if c < '0' || c > '9' {
            return None;
        }
        let d: u64 = c as u64 - 48;
        proof {
            let u = t.take(i - start + 1);
            assert(u.drop_last() =~= t.take(i - start));
            assert(u.last() == c);
        }
        if small {
            if value > (u64::MAX - d) / 10 {
                assert(value * 10 + d > u64::MAX);
                small = false;
            } else {
                value = value * 10 + d;
                small = value <= max;
            }
        }
        i = i + 1;
    }
    assert(t.take(len - start) =~= t);
    if small {
        Some(value)
    } else {
        None
    }
}

proof fn lemma_decimal_value(n: nat)
    ensures
        digits_value(decimal(n)) == n,
        decimal(n).len() > 0,
        forall|i: int| 0 <= i < decimal(n).len() ==> is_digit(#[trigger] decimal(n)[i]),
    decreases n,
{
    let s = decimal(n);
    if n < 10 {
        assert(s.drop_last() =~= Seq::empty());
        assert(s.last() == digit(n as int));
        assert(digits_value(s.drop_last()) == 0);
    } else {
        lemma_decimal_value(n / 10);
        assert(s.drop_last() =~= decimal(n / 10));
        assert(s.last() == digit((n % 10) as int));
        assert forall|i: int| 0 <= i < s.len() implies is_digit(#[trigger] s[i]) by {
            if i < s.len() - 1 {
                assert(s[i] == decimal(n / 10)[i]);
            }
        }
    }
}

/// Reading what was written gives the number back.
pub proof fn law_parse_inverts_decimal(n: nat, max: nat)
    requires
        n <= max,
    ensures
        parsed(decimal(n), max) == Some(n),
{
    lemma_decimal_value(n);
    let s = decimal(n);
    assert(is_digit(s[0]));
    assert(unsigned_digits(s) == s);
}

/// The value of the hexadecimal digit with the code `b`.
pub open spec fn hex_digit_value(b: u8) -> Option<u8> {
    if 48 <= b <= 57 {
        Some((b - 48) as u8)
    } else if 65 <= b <= 70 {
        Some((b - 55) as u8)
    } else if 97 <= b <= 102 {
        Some((b - 87) as u8)
    } else {
        None
    }
}

/// The number that two characters stand for in hexadecimal. A plus sign may take the place of the
/// first digit.
pub open spec fn hex_pair_value(hi: u8, lo: u8) -> Option<u8> {
    match (hex_digit_value(hi), hex_digit_value(lo)) {
        (Some(h), Some(l)) => Some((h * 16 + l) as u8),
        (None, Some(l)) => if hi == 43 {
            Some(l)
        } else {
            None
        },
        _ => None,
    }
}

fn from_hex_digit(b: u8) -> (r: Option<u8>)
    ensures
        r == hex_digit_value(b),
        r matches Some(v) ==> v < 16,
{
    if 48 <= b && b <= 57 {
        Some(b - 48)
    } else if 65 <= b && b <= 70 {
        Some(b - 55)
    } else if 97 <= b && b <= 102 {
        Some(b - 87)
    } else {
        None
    }
}

/// Reads two characters as a hexadecimal number.
pub fn from_hex_pair(hi: u8, lo: u8) -> (r: Option<u8>)
    ensures
        r == hex_pair_value(hi, lo),
{
    match (from_hex_digit(hi), from_hex_digit(lo)) {
        (Some(h), Some(l)) => Some(h * 16 + l),
        (None, Some(l)) => if hi == 43 {
            Some(l)
        } else {
            None
        },
        _ => None,
    }
}

/// A number that is too large is not read.
pub proof fn law_parse_refuses_larger_numbers(n: nat, max: nat)
    requires
        n > max,
    ensures
        parsed(decimal(n), max) is None,
{
    lemma_decimal_value(n);
    let s = decimal(n);
    assert(is_digit(s[0]));
    assert(unsigned_digits(s) == s);
}

/// What is not made of digits is not read: a text with another character in it, but for one plus
/// sign in front, an empty text, and a plus sign alone.
pub proof fn law_parse_refuses_other_text(s: Seq<char>, i: int, max: nat)
    requires
        0 <= i < s.len(),
        !('0' <= s[i] <= '9'),
        i > 0 || s[0] != '+',
    ensures
        parsed(s, max) is None,
        parsed(Seq::empty(), max) is None,
        parsed(seq!['+'], max) is None,
{
    let t = unsigned_digits(s);
    if s[0] == '+' {
        assert(t[i - 1] == s[i]);
        assert(!is_digit(t[i - 1]));
    } else {
        assert(t[i] == s[i]);
        assert(!is_digit(t[i]));
    }
    assert(seq!['+'].skip(1) =~= Seq::<char>::empty());
    assert(unsigned_digits(seq!['+']) == Seq::<char>::empty());
    assert(unsigned_digits(Seq::<char>::empty()) == Seq::<char>::empty());
}

/// A plus sign in front changes nothing, and neither do zeros.
pub proof fn law_parse_passes_over_sign_and_zeros(n: nat, zeros: nat, max: nat)
    requires
        n <= max,
    ensures
        parsed(seq!['+'] + decimal(n), max) == Some(n),
        parsed(repeated('0', zeros as int) + decimal(n), max) == Some(n),
{
    lemma_decimal_value(n);
    let d = decimal(n);
    assert((seq!['+'] + d).skip(1) =~= d);
    let s = repeated('0', zeros as int) + d;
    lemma_zeros_value(zeros, d);
    assert forall|i: int| 0 <= i < s.len() implies is_digit(#[trigger] s[i]) by {
        if i >= zeros {
            assert(s[i] == d[i - zeros]);
        }
    }
    assert(is_digit(s[0]));
    assert(unsigned_digits(s) == s);
}

proof fn lemma_zeros_value(zeros: nat, d: Seq<char>)
    ensures
        digits_value(repeated('0', zeros as int) + d) == digits_value(d),
    decreases d.len(), zeros,
{
    let z = repeated('0', zeros as int);
    if d.len() > 0 {
        lemma_zeros_value(zeros, d.drop_last());
        assert((z + d).drop_last() =~= z + d.drop_last());
        assert((z + d).last() == d.last());
    } else {
        assert(z + d =~= z);
        if zeros > 0 {
            lemma_zeros_value((zeros - 1) as nat, d);
            let y = repeated('0', zeros - 1);
            assert(y + d =~= y);
            assert(z.drop_last() =~= y);
            assert(z.last() == '0');
        }
    }
}

/// A number is written with digits only and without zeros in front.
pub proof fn law_decimal_is_canonical(n: nat)
    ensures
        decimal(n).len() > 0,
        forall|i: int| 0 <= i < decimal(n).len() ==> '0' <= #[trigger] decimal(n)[i] <= '9',
        decimal(n)[0] == '0' ==> n == 0,
    decreases n,
{
    lemma_decimal_value(n);
    let s = decimal(n);
    assert forall|i: int| 0 <= i < s.len() implies '0' <= #[trigger] s[i] <= '9' by {
        assert(is_digit(s[i]));
    }
    if n >= 10 {
        law_decimal_is_canonical(n / 10);
        assert(s[0] == decimal(n / 10)[0]);
    }
}

/// The number that hexadecimal digits stand for.
pub open spec fn hex_digits_value(s: Seq<char>) -> nat
    decreases s.len(),
{
    if s.len() == 0 {
        0
    } else {
        hex_digits_value(s.drop_last()) * 16 + match hex_digit_value(s.last() as u8) {
            Some(v) => v as nat,
            None => 0,
        }
    }
}

/// A number in hexadecimal stands for that number, in digits of the wanted case and without zeros
/// in front.
pub proof fn law_hex_stands_for_its_number(n: nat, upper: bool)
    ensures
        hex_digits_value(hex(n, upper)) == n,
        hex(n, upper).len() > 0,
        forall|i: int|
            0 <= i < hex(n, upper).len() ==> {
                let c = #[trigger] hex(n, upper)[i];
                '0' <= c <= '9' || (upper && 'A' <= c <= 'F') || (!upper && 'a' <= c <= 'f')
            },
        hex(n, upper)[0] == '0' ==> n == 0,
    decreases n,
{
    let s = hex(n, upper);
    let d = hex_digit((n % 16) as int, upper);
    assert(hex_digit_value(d as u8) == Some((n % 16) as u8));
    if n < 16 {
        assert(s.drop_last() =~= Seq::empty());
        assert(s.last() == d);
        assert(hex_digits_value(s.drop_last()) == 0);
    } else {
        law_hex_stands_for_its_number(n / 16, upper);
        assert(s.drop_last() =~= hex(n / 16, upper));
        assert(s.last() == d);
        assert(s[0] == hex(n / 16, upper)[0]);
        assert forall|i: int| 0 <= i < s.len() implies ({
            let c = #[trigger] s[i];
            '0' <= c <= '9' || (upper && 'A' <= c <= 'F') || (!upper && 'a' <= c <= 'f')
        }) by {
            if i < s.len() - 1 {
                assert(s[i] == hex(n / 16, upper)[i]);
            }
        }
    }
}

/// Two hexadecimal digits, of whatever case, stand for sixteen times the first and the second.
pub proof fn law_hex_pairs(h: int, l: int, upper_h: bool, upper_l: bool)
    requires
        0 <= h < 16,
        0 <= l < 16,
    ensures
        hex_pair_value(hex_digit(h, upper_h) as u8, hex_digit(l, upper_l) as u8) == Some(
            (16 * h + l) as u8,
        ),
{
    assert(hex_digit_value(hex_digit(h, upper_h) as u8) == Some(h as u8));
    assert(hex_digit_value(hex_digit(l, upper_l) as u8) == Some(l as u8));
}

/// Padding keeps the text at its end, or at its beginning, and fills up to the width, not beyond.
pub proof fn law_padding_fills_up(s: Seq<char>, width: int, fill: char, i: int)
    ensures
        ({
            let front = pad_start(s, width, fill);
            let back = pad_end(s, width, fill);
            let missing = if width > s.len() {
                width - s.len()
            } else {
                0
            };
            &&& front.len() == s.len() + missing
            &&& back.len() == s.len() + missing
            &&& front.skip(missing) == s
            &&& back.take(s.len() as int) == s
            &&& 0 <= i < missing ==> front[i] == fill && back[s.len() + i] == fill
        }),
{
    let missing = if width > s.len() {
        width - s.len()
    } else {
        0
    };
    assert(pad_start(s, width, fill).skip(missing) =~= s);
    assert(pad_end(s, width, fill).take(s.len() as int) =~= s);
}

/// Whether the byte is an ASCII digit of hexadecimal numbers, of either case.
pub open spec fn is_hex_digit(b: u8) -> bool {
    ||| '0' as u8 <= b <= '9' as u8
    ||| 'A' as u8 <= b <= 'F' as u8
    ||| 'a' as u8 <= b <= 'f' as u8
}

/// Two bytes are read as a number exactly where the second is a hexadecimal digit and the first is
/// one too or is a plus sign; behind a plus sign the number is that of the single digit.
pub proof fn law_hex_pair_takes_digits_and_a_sign(hi: u8, lo: u8)
    ensures
        hex_pair_value(hi, lo) is Some <==> is_hex_digit(lo) && (is_hex_digit(hi) || hi
            == '+' as u8),
        hi == '+' as u8 && is_hex_digit(lo) ==> hex_pair_value(hi, lo) == hex_pair_value(
            '0' as u8,
            lo,
        ),
        is_hex_digit(hi) && is_hex_digit(lo) ==> hex_pair_value(hi, lo)->0 / 16
            == hex_pair_value('0' as u8, hi)->0,
        is_hex_digit(hi) && is_hex_digit(lo) ==> hex_pair_value(hi, lo)->0 % 16
            == hex_pair_value('0' as u8, lo)->0,
{
    assert(hex_digit_value('0' as u8) == Some(0u8));
    if is_hex_digit(hi) && is_hex_digit(lo) {
        let h = hex_digit_value(hi)->0;
        let l = hex_digit_value(lo)->0;
        assert(h < 16 && l < 16);
        assert((h * 16 + l) / 16 == h && (h * 16 + l) % 16 == l);
    }
}

} // verus!
