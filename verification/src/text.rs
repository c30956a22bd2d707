//! Text as sequences of characters: searching, splitting, replacing.

use vstd::prelude::*;

verus! {

/// `String::push` appends one character to the end of the string.
pub assume_specification[ String::push ](s: &mut String, c: char)
    ensures
        final(s)@ == old(s)@.push(c),
;

/// `core::str::from_utf8` succeeds on exactly the valid UTF-8 sequences, and the text it returns
/// has the given bytes as its encoding.
#[verifier::external_body]
pub(crate) fn utf8_text(bytes: &[u8]) -> (r: Option<&str>)
    ensures
        r is Some <==> vstd::utf8::valid_utf8(bytes@),
        r matches Some(s) ==> vstd::utf8::encode_utf8(s@) == bytes@,
{
    core::str::from_utf8(bytes).ok()
}

/// The characters of `s`.
pub fn chars_of(s: &str) -> (r: Vec<char>)
    ensures
        r@ == s@,
{
    let mut out: Vec<char> = Vec::new();
    for c in it: s.chars()
        invariant
            out@ == it.seq().take(it.index()),
            it.seq() == s@,
    {
        out.push(c);
    }
    out
}

/// The text with the given characters.
pub fn string_of(chars: &[char]) -> (r: String)
    ensures
        r@ == chars@,
{
    let mut out = String::new();
    let mut i: usize = 0;
    while i < chars.len()
        invariant
            i <= chars@.len(),
            out@ == chars@.take(i as int),
        decreases chars@.len() - i,
    {
        out.push(chars[i]);
        i = i + 1;
        assert(chars@.take(i as int) =~= chars@.take(i - 1).push(chars@[i - 1]));
    }
    assert(chars@.take(i as int) =~= chars@);
    out
}

/// Whether `pattern` stands in `s` at position `i`.
pub open spec fn occurs_at<T>(s: Seq<T>, pattern: Seq<T>, i: int) -> bool {
    0 <= i <= s.len() - pattern.len() && s.subrange(i, i + pattern.len()) == pattern
}

/// Whether `pattern` stands anywhere in `s`.
pub open spec fn contains<T>(s: Seq<T>, pattern: Seq<T>) -> bool {
    exists|i: int| occurs_at(s, pattern, i)
}

/// The first position, from `from` on, at which `pattern` stands in `s`.
pub open spec fn find_from<T>(s: Seq<T>, pattern: Seq<T>, from: int) -> Option<int>
    decreases s.len() - from + 1,
{
    if from > s.len() {
        None
    } else if occurs_at(s, pattern, from) {
        Some(from)
    } else {
        find_from(s, pattern, from + 1)
    }
}

/// The search finds a place where the pattern stands, none before it is one, and it fails only
/// where there is none at all.
pub proof fn law_find_is_first<T>(s: Seq<T>, pattern: Seq<T>, from: int)
    requires
        0 <= from,
    ensures
        match find_from(s, pattern, from) {
            Some(i) => {
                &&& from <= i
                &&& occurs_at(s, pattern, i)
                &&& forall|j: int| from <= j < i ==> !occurs_at(s, pattern, j)
            },
            None => forall|j: int| from <= j ==> !occurs_at(s, pattern, j),
        },
    decreases s.len() - from + 1,
{
    if from <= s.len() && !occurs_at(s, pattern, from) {
        law_find_is_first(s, pattern, from + 1);
    }
}

fn stands_at(s: &[char], pattern: &[char], at: usize) -> (r: bool)
    requires
        at <= s@.len(),
    ensures
        r == occurs_at(s@, pattern@, at as int),
{
    let len: usize = s.len();
    if len - at < pattern.len() {
        return false;
    }
    let mut k: usize = 0;
    while k < pattern.len()
        invariant
            k <= pattern@.len(),
            at + pattern@.len() <= s@.len() == len,
            forall|j: int| 0 <= j < k ==> s@[at + j] == pattern@[j],
        decreases pattern@.len() - k,
    {
        if s[at + k] != pattern[k] {
            assert(s@.subrange(at as int, at + pattern@.len())[k as int] != pattern@[k as int]);
            return false;
        }
        k = k + 1;
    }
    assert(s@.subrange(at as int, at + pattern@.len()) =~= pattern@);
    true
}

/// The first position, from `from` on, at which `pattern` stands in `s`.
pub fn find(s: &[char], pattern: &[char], from: usize) -> (r: Option<usize>)
    ensures
        match r {
            Some(i) => find_from(s@, pattern@, from as int) == Some(i as int),
            None => find_from(s@, pattern@, from as int) is None,
        },
{
    let mut at: usize = from;
    if at > s.len() {
        return None;
    }
    loop
        invariant
            at <= s@.len(),
            find_from(s@, pattern@, from as int) == find_from(s@, pattern@, at as int),
        decreases s@.len() - at,
    {
        if stands_at(s, pattern, at) {
            return Some(at);
        }
        if at == s.len() {
            assert(find_from(s@, pattern@, at + 1) is None);
            return None;
        }
        at = at + 1;
    }
}

/// Whether the two texts are the same.
pub fn same(a: &[char], b: &[char]) -> (r: bool)
    ensures
        r == (a@ == b@),
{
    if a.len() != b.len() {
        return false;
    }
    let r = stands_at(a, b, 0);
    assert(a@.subrange(0, a@.len() as int) =~= a@);
    r
}

/// Whether the two texts are the same.
pub fn same_text(a: &str, b: &str) -> (r: bool)
    ensures
        r == (a@ == b@),
{
    let left = chars_of(a);
    let right = chars_of(b);
    same(&left, &right)
}

/// Whether `pattern` stands anywhere in `s`.
pub fn contains_text(s: &str, pattern: &str) -> (r: bool)
    ensures
        r == contains(s@, pattern@),
{
    let text = chars_of(s);
    let wanted = chars_of(pattern);
    proof {
        law_find_is_first(s@, pattern@, 0);
    }
    match find(&text, &wanted, 0) {
        Some(_) => true,
        None => {
            assert forall|i: int| !occurs_at(s@, pattern@, i) by {}
            false
        },
    }
}

/// Whether `s` starts with `prefix`.
pub open spec fn starts_with(s: Seq<char>, prefix: Seq<char>) -> bool {
    occurs_at(s, prefix, 0)
}

/// What comes before and after the first `separator` in `s`.
pub open spec fn split_once(s: Seq<char>, separator: Seq<char>) -> Option<(Seq<char>, Seq<char>)> {
    match find_from(s, separator, 0) {
        Some(i) => Some((s.take(i), s.skip(i + separator.len()))),
        None => None,
    }
}

/// The parts of `s` between its separators, in order; one more than there are separators.
pub open spec fn split(s: Seq<char>, separator: char) -> Seq<Seq<char>>
    decreases s.len(),
{
    match split_once(s, seq![separator]) {
        Some((head, tail)) => if tail.len() < s.len() {
            seq![head] + split(tail, separator)
        } else {
            seq![s]
        },
        None => seq![s],
    }
}

/// `s` with every occurrence of `from`, taken from left to right, replaced by `to`.
pub open spec fn replace(s: Seq<char>, from: Seq<char>, to: Seq<char>) -> Seq<char>
    decreases s.len(),
{
    match split_once(s, from) {
        Some((head, tail)) => if tail.len() < s.len() {
            head + to + replace(tail, from, to)
        } else {
            s
        },
        None => s,
    }
}

/// A copy of the characters from `from` up to `to`.
pub fn slice_chars(s: &[char], from: usize, to: usize) -> (r: Vec<char>)
    requires
        from <= to <= s@.len(),
    ensures
        r@ == s@.subrange(from as int, to as int),
{
    let mut out: Vec<char> = Vec::new();
    let mut i: usize = from;
    while i < to
        invariant
            from <= i <= to <= s@.len(),
            out@ == s@.subrange(from as int, i as int),
        decreases to - i,
    {
        out.push(s[i]);
        i = i + 1;
        assert(s@.subrange(from as int, i as int) =~= s@.subrange(from as int, i - 1).push(
            s@[i - 1],
        ));
    }
    out
}

/// What comes before and after the first `separator`.
pub fn split_once_at(s: &[char], separator: &[char]) -> (r: Option<(Vec<char>, Vec<char>)>)
    ensures
        match r {
            Some(p) => split_once(s@, separator@) == Some((p.0@, p.1@)),
            None => split_once(s@, separator@) is None,
        },
{
    proof {
        law_find_is_first(s@, separator@, 0);
    }
    match find(s, separator, 0) {
        Some(i) => {
            let len: usize = s.len();
            let head = slice_chars(s, 0, i);
            let tail = slice_chars(s, i + separator.len(), len);
            assert(head@ =~= s@.take(i as int));
            assert(tail@ =~= s@.skip(i + separator@.len()));
            Some((head, tail))
        },
        None => None,
    }
}

/// The parts between the separators.
pub fn split_at_char(s: &[char], separator: char) -> (r: Vec<Vec<char>>)
    ensures
        r@.len() == split(s@, separator).len(),
        forall|i: int| 0 <= i < r@.len() ==> #[trigger] r@[i]@ == split(s@, separator)[i],
{
    let mut parts: Vec<Vec<char>> = Vec::new();
    let mut rest: Vec<char> = slice_chars(s, 0, s.len());
    let pattern: Vec<char> = vec![separator];
    assert(s@.subrange(0, s@.len() as int) =~= s@);
    assert(pattern@ =~= seq![separator]);
    loop
        invariant
            pattern@ == seq![separator],
            parts@.len() + split(rest@, separator).len() == split(s@, separator).len(),
            forall|i: int|
                0 <= i < parts@.len() ==> #[trigger] parts@[i]@ == split(s@, separator)[i],
            forall|i: int|
                0 <= i < split(rest@, separator).len() ==> #[trigger] split(rest@, separator)[i]
                    == split(s@, separator)[parts@.len() + i],
        decreases rest@.len(),
    {
        match split_once_at(&rest, &pattern) {
            Some((head, tail)) => {
                proof {
                    law_find_is_first(rest@, pattern@, 0);
                    let all = split(rest@, separator);
                    assert(all =~= seq![head@] + split(tail@, separator));
                    assert(all[0] == head@);
                    assert forall|i: int| 0 <= i < split(tail@, separator).len() implies
                        #[trigger] split(tail@, separator)[i] == split(s@, separator)[parts@.len()
                        + 1 + i] by {
                        assert(all[i + 1] == split(tail@, separator)[i]);
                    }
                }
                parts.push(head);
                rest = tail;
            },
            None => {
                assert(split(rest@, separator)[0] == rest@);
                parts.push(rest);
                return parts;
            },
        }
    }
}

/// `s` with every occurrence of `from` replaced by `to`.
pub fn replace_all(s: &str, from: &str, to: &str) -> (r: String)
    requires
        from@.len() > 0,
    ensures
        r@ == replace(s@, from@, to@),
{
    let mut rest: Vec<char> = chars_of(s);
    let pattern: Vec<char> = chars_of(from);
    let mut out = String::new();
    loop
        invariant
            pattern@ == from@,
            from@.len() > 0,
            replace(s@, from@, to@) == out@ + replace(rest@, from@, to@),
        decreases rest@.len(),
    {
        match split_once_at(&rest, &pattern) {
            Some((head, tail)) => {
                proof {
                    law_find_is_first(rest@, pattern@, 0);
                    assert(out@ + (head@ + to@ + replace(tail@, from@, to@)) =~= (out@ + head@
                        + to@) + replace(tail@, from@, to@));
                }
                let head_text = string_of(&head);
                out.append(head_text.as_str());
                out.append(to);
                rest = tail;
            },
            None => {
                let rest_text = string_of(&rest);
                out.append(rest_text.as_str());
                return out;
            },
        }
    }
}

/// Text without the pattern is left as it is.
pub proof fn law_replace_keeps_other_text(s: Seq<char>, from: Seq<char>, to: Seq<char>)
    requires
        !contains(s, from),
    ensures
        replace(s, from, to) == s,
{
    law_find_is_first(s, from, 0);
}

/// The texts in order, with the separator between each two.
pub open spec fn join(parts: Seq<Seq<char>>, separator: char) -> Seq<char>
    decreases parts.len(),
{
    if parts.len() == 0 {
        Seq::empty()
    } else if parts.len() == 1 {
        parts[0]
    } else {
        parts[0] + seq![separator] + join(parts.skip(1), separator)
    }
}

/// Splitting loses nothing: joining the parts again gives the text back, and no part holds the
/// separator.
pub proof fn law_split_then_join(s: Seq<char>, separator: char)
    ensures
        join(split(s, separator), separator) == s,
        split(s, separator).len() >= 1,
        forall|i: int|
            0 <= i < split(s, separator).len() ==> !(#[trigger] split(s, separator)[i]).contains(
                separator,
            ),
    decreases s.len(),
{
    let pattern = seq![separator];
    law_find_is_first(s, pattern, 0);
    match find_from(s, pattern, 0) {
        Some(k) => {
            let head = s.take(k);
            let tail = s.skip(k + 1);
            law_split_then_join(tail, separator);
            let parts = seq![head] + split(tail, separator);
            assert(split(s, separator) == parts);
            assert(parts.skip(1) =~= split(tail, separator));
            assert(s.subrange(k, k + 1)[0] == separator);
            assert(head + seq![separator] + tail =~= s);
            assert forall|i: int| 0 <= i < parts.len() implies !(#[trigger] parts[i]).contains(
                separator,
            ) by {
                if i == 0 {
                    assert forall|j: int| 0 <= j < head.len() implies head[j] != separator by {
                        assert(!occurs_at(s, pattern, j));
                        if head[j] == separator {
                            assert(s.subrange(j, j + 1) =~= pattern);
                        }
                    }
                } else {
                    assert(parts[i] == split(tail, separator)[i - 1]);
                }
            }
        },
        None => {
            assert forall|j: int| 0 <= j < s.len() implies s[j] != separator by {
                assert(!occurs_at(s, pattern, j));
                if s[j] == separator {
                    assert(s.subrange(j, j + 1) =~= pattern);
                }
            }
        },
    }
}

/// Texts that end at the first `stop` can be told apart from what follows them.
pub(crate) proof fn lemma_cut_at_stop(
    a: Seq<char>,
    b: Seq<char>,
    stop: char,
    after_a: Seq<char>,
    after_b: Seq<char>,
)
    requires
        !a.contains(stop),
        !b.contains(stop),
        a + seq![stop] + after_a == b + seq![stop] + after_b,
    ensures
        a == b,
        after_a == after_b,
{
    let whole = a + seq![stop] + after_a;
    let other = b + seq![stop] + after_b;
    assert(whole[a.len() as int] == stop && other[b.len() as int] == stop);
    if a.len() < b.len() {
        assert(other[a.len() as int] == b[a.len() as int]);
        assert(b.contains(stop));
    }
    if b.len() < a.len() {
        assert(whole[b.len() as int] == a[b.len() as int]);
        assert(a.contains(stop));
    }
    assert(a =~= whole.take(a.len() as int));
    assert(b =~= other.take(b.len() as int));
    assert(after_a =~= whole.skip(a.len() as int + 1));
    assert(after_b =~= other.skip(b.len() as int + 1));
}

/// What follows the same beginning is the same.
pub(crate) proof fn lemma_same_beginning(start: Seq<char>, a: Seq<char>, b: Seq<char>)
    requires
        start + a == start + b,
    ensures
        a == b,
{
    assert(a =~= (start + a).skip(start.len() as int));
    assert(b =~= (start + b).skip(start.len() as int));
}

/// A text without the separator comes before the first separator.
pub proof fn law_split_once_cuts_at_the_first(head: Seq<char>, separator: char, tail: Seq<char>)
    requires
        !head.contains(separator),
    ensures
        split_once(head + seq![separator] + tail, seq![separator]) == Some((head, tail)),
        split_once(head, seq![separator]) is None,
{
    let pattern = seq![separator];
    let s = head + pattern + tail;
    let k = head.len() as int;
    law_find_is_first(s, pattern, 0);
    law_find_is_first(head, pattern, 0);
    assert(s.subrange(k, k + 1) =~= pattern);
    assert(occurs_at(s, pattern, k));
    assert forall|j: int| 0 <= j < k implies !occurs_at(s, pattern, j) by {
        assert(s.subrange(j, j + 1)[0] == head[j]);
        assert(head.contains(head[j]));
    }
    assert forall|j: int| 0 <= j implies !occurs_at(head, pattern, j) by {
        if occurs_at(head, pattern, j) {
            assert(head.subrange(j, j + 1)[0] == head[j]);
            assert(head.contains(head[j]));
        }
    }
    assert(s.take(k) =~= head);
    assert(s.skip(k + 1) =~= tail);
}

/// Replacing puts the new text in the place of the first occurrence and goes on behind it; what
/// stands before stays as it is.
pub proof fn law_replace_goes_from_left_to_right(
    head: Seq<char>,
    from: Seq<char>,
    tail: Seq<char>,
    to: Seq<char>,
)
    requires
        from.len() > 0,
        forall|i: int|
            0 <= i < head.len() ==> !#[trigger] occurs_at(head + from + tail, from, i),
    ensures
        replace(head + from + tail, from, to) == head + to + replace(tail, from, to),
{
    let s = head + from + tail;
    let k = head.len() as int;
    law_find_is_first(s, from, 0);
    assert(s.subrange(k, k + from.len()) =~= from);
    assert(occurs_at(s, from, k));
    assert(s.take(k) =~= head);
    assert(s.skip(k + from.len()) =~= tail);
}

/// A pattern stands in a text exactly where the text is something, the pattern, and something.
pub proof fn law_contains_means_in_between<T>(
    s: Seq<T>,
    pattern: Seq<T>,
    before: Seq<T>,
    after: Seq<T>,
)
    ensures
        contains(before + pattern + after, pattern),
        contains(s, pattern) ==> exists|i: int|
            #![trigger s.take(i)]
            0 <= i <= s.len() - pattern.len() && s == s.take(i) + pattern + s.skip(
                i + pattern.len(),
            ),
{
    let t = before + pattern + after;
    let k = before.len() as int;
    assert(t.subrange(k, k + pattern.len()) =~= pattern);
    assert(occurs_at(t, pattern, k));
    if contains(s, pattern) {
        let i = choose|i: int| occurs_at(s, pattern, i);
        assert(s =~= s.take(i) + pattern + s.skip(i + pattern.len()));
    }
}

} // verus!
