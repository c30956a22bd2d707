//! Reading a request off a socket and finding the path in it.

use crate::text::{contains, contains_text, find_from, law_find_is_first, occurs_at, utf8_text};
use vstd::prelude::*;
use vstd::string::StrSliceExecFns;
use vstd::utf8::{
    decode_utf8, encode_utf8, encode_utf8_decode_utf8, encode_utf8_valid_utf8, valid_utf8,
};

verus! {

/// How many bytes of a request are read.
pub const REQUEST_BYTES: usize = 1024;

/// The text of the bytes; nothing where they are not UTF-8.
pub open spec fn text_or_nothing(bytes: Seq<u8>) -> Seq<char> {
    if valid_utf8(bytes) {
        decode_utf8(bytes)
    } else {
        Seq::empty()
    }
}

/// The text of the bytes; nothing where they are not UTF-8.
pub fn request_text(bytes: &[u8]) -> (r: &str)
    ensures
        r@ == text_or_nothing(bytes@),
{
    match utf8_text(bytes) {
        Some(s) => {
            proof {
                encode_utf8_decode_utf8(s@);
            }
            s
        },
        None => {
            proof {
                reveal_strlit("");
            }
            assert(""@ =~= Seq::<char>::empty());
            ""
        },
    }
}

/// How reading a request goes on.
#[derive(Clone, Copy, PartialEq, Eq, Structural, Debug)]
pub enum ReadStep {
    /// The peer has closed the connection: nothing is answered.
    Closed,
    /// Read on, behind the bytes that were read.
    More,
    /// Answer the bytes that were read.
    Complete,
}

/// Whether the bytes hold the blank line behind a request's headers.
pub open spec fn has_blank_line(bytes: Seq<u8>) -> bool {
    contains(text_or_nothing(bytes), "\r\n\r\n"@)
}

/// How reading goes on after `n` more bytes were read into `buffer` behind the first `pos`.
pub open spec fn read_step(buffer: Seq<u8>, pos: int, n: int) -> ReadStep {
    if n == 0 {
        ReadStep::Closed
    } else if has_blank_line(buffer.take(pos + n)) || pos + n >= REQUEST_BYTES {
        ReadStep::Complete
    } else {
        ReadStep::More
    }
}

/// Decides how reading goes on after `n` more bytes were read into `buffer` behind the first
/// `pos`.
pub fn after_read(buffer: &[u8; REQUEST_BYTES], pos: usize, n: usize) -> (r: ReadStep)
    requires
        pos + n <= REQUEST_BYTES,
    ensures
        r == read_step(buffer@, pos as int, n as int),
        r is Closed <==> n == 0,
        n > 0 && has_blank_line(buffer@.take(pos + n)) ==> r is Complete,
        n > 0 && pos + n == 1024 ==> r is Complete,
{
    if n == 0 {
        return ReadStep::Closed;
    }
    let end: usize = pos + n;
    let all: &[u8] = buffer;
    let bytes = vstd::slice::slice_subrange(all, 0, end);
    assert(bytes@ =~= buffer@.take(pos + n));
    let request = request_text(bytes);
    if contains_text(request, "\r\n\r\n") || end >= REQUEST_BYTES {
        ReadStep::Complete
    } else {
        ReadStep::More
    }
}

/// Whether `c` is white space, by the Unicode property of that name.
pub open spec fn is_space(c: char) -> bool {
    ||| '\u{9}' <= c <= '\u{D}'
    ||| c == ' '
    ||| c == '\u{85}'
    ||| c == '\u{A0}'
    ||| c == '\u{1680}'
    ||| '\u{2000}' <= c <= '\u{200A}'
    ||| c == '\u{2028}'
    ||| c == '\u{2029}'
    ||| c == '\u{202F}'
    ||| c == '\u{205F}'
    ||| c == '\u{3000}'
}

/// Whether `c` is white space.
pub fn is_white_space(c: char) -> (r: bool)
    ensures
        r == is_space(c),
{
    ('\u{9}' <= c && c <= '\u{D}') || c == ' ' || c == '\u{85}' || c == '\u{A0}' || c == '\u{1680}'
        || ('\u{2000}' <= c && c <= '\u{200A}') || c == '\u{2028}' || c == '\u{2029}' || c
        == '\u{202F}' || c == '\u{205F}' || c == '\u{3000}'
}

/// The first position, from `from` on, whose character is white space, or is not; the end where
/// there is none.
pub open spec fn next_place(s: Seq<char>, from: int, space: bool) -> int
    decreases s.len() - from,
{
    if from >= s.len() || is_space(s[from]) == space {
        from
    } else {
        next_place(s, from + 1, space)
    }
}

/// The words of `s`: its longest pieces without white space.
pub open spec fn words(s: Seq<char>) -> Seq<Seq<char>>
    decreases s.len(),
{
    let start = next_place(s, 0, false);
    let end = next_place(s, start, true);
    if !(0 <= start < end <= s.len()) {
        Seq::empty()
    } else {
        seq![s.subrange(start, end)] + words(s.skip(end))
    }
}

/// The first line: what stands before the first line break.
pub open spec fn first_line(s: Seq<char>) -> Seq<char> {
    match find_from(s, "\r\n"@, 0) {
        Some(i) => s.take(i),
        None => s,
    }
}

/// The requested path: the second word of the first line, or `/`.
pub open spec fn request_path(request: Seq<char>) -> Seq<char> {
    let w = words(first_line(request));
    if w.len() >= 2 {
        w[1]
    } else {
        "/"@
    }
}

proof fn lemma_next_place(s: Seq<char>, from: int, space: bool)
    requires
        0 <= from <= s.len(),
    ensures
        from <= next_place(s, from, space) <= s.len(),
        next_place(s, from, space) < s.len() ==> is_space(s[next_place(s, from, space)]) == space,
        forall|i: int| from <= i < next_place(s, from, space) ==> is_space(#[trigger] s[i]) != space,
    decreases s.len() - from,
{
    if from < s.len() && is_space(s[from]) != space {
        lemma_next_place(s, from + 1, space);
    }
}

proof fn lemma_next_place_is(s: Seq<char>, from: int, space: bool, at: int)
    requires
        0 <= from <= at <= s.len(),
        at < s.len() ==> is_space(s[at]) == space,
        forall|i: int| from <= i < at ==> is_space(#[trigger] s[i]) != space,
    ensures
        next_place(s, from, space) == at,
    decreases at - from,
{
    if from < at {
        assert(is_space(s[from]) != space);
        lemma_next_place_is(s, from + 1, space, at);
    }
}

proof fn lemma_next_place_of_skip(s: Seq<char>, skipped: int, from: int, space: bool)
    requires
        0 <= skipped <= from <= s.len(),
    ensures
        next_place(s, from, space) == skipped + next_place(s.skip(skipped), from - skipped, space),
    decreases s.len() - from,
{
    if from < s.len() && is_space(s[from]) != space {
        lemma_next_place_of_skip(s, skipped, from + 1, space);
    }
}

fn place(s: &str, len: usize, from: usize, space: bool) -> (r: usize)
    requires
        len <= s@.len(),
        from <= len,
    ensures
        r == next_place(s@.take(len as int), from as int, space),
        from <= r <= len,
{
    let ghost line = s@.take(len as int);
    let mut at: usize = from;
    while at < len && is_white_space(s.get_char(at)) != space
        invariant
            from <= at <= len <= s@.len(),
            line == s@.take(len as int),
            next_place(line, from as int, space) == next_place(line, at as int, space),
        decreases len - at,
    {
        at = at + 1;
    }
    at
}

fn line_length(s: &str) -> (r: usize)
    ensures
        r <= s@.len(),
        first_line(s@) == s@.take(r as int),
{
    let len: usize = s.unicode_len();
    let mut at: usize = 0;
    proof {
        reveal_strlit("\r\n");
    }
    while at + 1 < len
        invariant
            0 <= at <= len == s@.len(),
            len > 0 ==> at < len,
            "\r\n"@ == seq!['\r', '\n'],
            find_from(s@, "\r\n"@, 0) == find_from(s@, "\r\n"@, at as int),
        decreases len - at,
    {
        let ghost here = s@.subrange(at as int, at + 2);
        if s.get_char(at) == '\r' && s.get_char(at + 1) == '\n' {
            assert(here =~= "\r\n"@);
            assert(occurs_at(s@, "\r\n"@, at as int));
            return at;
        }
        assert(!occurs_at(s@, "\r\n"@, at as int)) by {
            assert(here[0] == s@[at as int] && here[1] == s@[at + 1]);
        }
        at = at + 1;
    }
    proof {
        law_find_is_first(s@, "\r\n"@, at as int);
        assert(find_from(s@, "\r\n"@, at as int) is None);
    }
    assert(s@.take(len as int) =~= s@);
    len
}

/// Finds the path in a request such as `GET /path HTTP/1.1`.
pub fn extract_request_path(request: &str) -> (r: &str)
    ensures
        r@ == request_path(request@),
{
    let len: usize = line_length(request);
    let ghost line = request@.take(len as int);
    let start: usize = place(request, len, 0, false);
    let end: usize = place(request, len, start, true);
    proof {
        lemma_next_place(line, 0, false);
        lemma_next_place(line, start as int, true);
    }
    if start >= len {
        return "/";
    }
    let from: usize = place(request, len, end, false);
    let to: usize = place(request, len, from, true);
    proof {
        lemma_next_place(line, end as int, false);
        lemma_next_place(line, from as int, true);
        let rest = line.skip(end as int);
        lemma_next_place_of_skip(line, end as int, end as int, false);
        lemma_next_place_of_skip(line, end as int, from as int, true);
        assert(words(line) == seq![line.subrange(start as int, end as int)] + words(rest));
        if from < len {
            assert(rest.subrange(from - end, to - end) =~= request@.subrange(
                from as int,
                to as int,
            ));
            assert(words(rest)[0] == rest.subrange(from - end, to - end));
            assert(words(line)[1] == words(rest)[0]);
        } else {
            assert(words(rest).len() == 0);
        }
    }
    if from >= len {
        return "/";
    }
    request.substring_char(from, to)
}

/// The path of the request that was read.
pub fn path_of(bytes: &[u8]) -> (r: &str)
    ensures
        r@ == request_path(text_or_nothing(bytes@)),
{
    extract_request_path(request_text(bytes))
}

/// Whether `s` is a word: not empty and without white space.
pub open spec fn is_word(s: Seq<char>) -> bool {
    s.len() > 0 && forall|i: int| 0 <= i < s.len() ==> !is_space(#[trigger] s[i])
}

/// The path of a well-formed request is found, whatever follows it.
pub proof fn law_path_of_well_formed_request(method: Seq<char>, path: Seq<char>, rest: Seq<char>)
    requires
        is_word(method),
        is_word(path),
    ensures
        request_path(method + " "@ + path + " "@ + rest) == path,
{
    reveal_strlit(" ");
    reveal_strlit("\r\n");
    let request = method + " "@ + path + " "@ + rest;
    let line = first_line(request);
    let m = method.len() as int;
    let p = path.len() as int;
    law_find_is_first(request, "\r\n"@, 0);
    assert forall|i: int| 0 <= i < m implies request[i] == method[i] by {}
    assert(request[m] == ' ');
    assert forall|i: int| 0 <= i < p implies request[m + 1 + i] == path[i] by {}
    assert(request[m + 1 + p] == ' ');
    match find_from(request, "\r\n"@, 0) {
        Some(i) => {
            assert(request.subrange(i, i + 2)[0] == request[i]);
            assert(request[i] == '\r');
            if i < m {
                assert(!is_space(method[i]));
            } else if m < i < m + 1 + p {
                assert(!is_space(path[i - m - 1]));
            }
            assert(i > m + 1 + p);
        },
        None => {},
    }
    assert(line.len() > m + 1 + p);
    assert forall|i: int| 0 <= i <= m + 1 + p implies line[i] == request[i] by {}
    assert(!is_space(method[0]) && !is_space(path[0]));
    assert(line[0] == method[0] && line[m + 1] == path[0]);
    lemma_next_place_is(line, 0, false, 0);
    assert forall|i: int| 0 <= i < m implies !is_space(#[trigger] line[i]) by {
        assert(!is_space(method[i]));
    }
    lemma_next_place_is(line, 0, true, m);
    let tail = line.skip(m);
    assert(tail[0] == ' ');
    assert(tail[1] == path[0]);
    lemma_next_place_is(tail, 0, false, 1);
    assert forall|i: int| 1 <= i < p + 1 implies !is_space(#[trigger] tail[i]) by {
        assert(!is_space(path[i - 1]));
        assert(tail[i] == line[m + i]);
    }
    assert(tail[p + 1] == ' ');
    lemma_next_place_is(tail, 1, true, p + 1);
    assert(tail.subrange(1, p + 1) =~= path) by {
        assert forall|i: int| 0 <= i < p implies tail.subrange(1, p + 1)[i] == path[i] by {
            assert(tail[1 + i] == line[m + 1 + i]);
        }
    }
    assert(words(tail)[0] == path);
    assert(words(line)[1] == words(tail)[0]);
}

/// The path is never empty and never holds white space.
pub proof fn law_path_is_a_word(request: Seq<char>)
    ensures
        is_word(request_path(request)),
{
    reveal_strlit("/");
    let line = first_line(request);
    if words(line).len() >= 2 {
        lemma_words_are_words(line, 1);
    }
}

proof fn lemma_words_are_words(s: Seq<char>, k: int)
    requires
        0 <= k < words(s).len(),
    ensures
        is_word(words(s)[k]),
    decreases k,
{
    let start = next_place(s, 0, false);
    let end = next_place(s, start, true);
    lemma_next_place(s, 0, false);
    lemma_next_place(s, start, true);
    if k == 0 {
        let word = s.subrange(start, end);
        assert forall|i: int| 0 <= i < word.len() implies !is_space(#[trigger] word[i]) by {
            assert(word[i] == s[start + i]);
        }
    } else {
        lemma_words_are_words(s.skip(end), k - 1);
    }
}

/// Reading comes to an end: wherever it goes on, fewer bytes are left to read, and at least one is.
pub proof fn law_reading_ends(buffer: Seq<u8>, pos: int, n: int)
    requires
        0 <= pos,
        0 <= n,
        read_step(buffer, pos, n) is More,
    ensures
        0 < REQUEST_BYTES - (pos + n) < REQUEST_BYTES - pos,
{
}

/// Text that is encoded is read as it was, and bytes that are no text are read as nothing.
pub proof fn law_text_is_read_back(s: Seq<char>, bytes: Seq<u8>)
    ensures
        text_or_nothing(encode_utf8(s)) == s,
        !valid_utf8(bytes) ==> text_or_nothing(bytes).len() == 0,
{
    encode_utf8_valid_utf8(s);
    encode_utf8_decode_utf8(s);
}

/// A request is complete as soon as its blank line is there, wherever in it the blank line stands,
/// and whether it came with the first read or with a later one.
pub proof fn law_blank_line_completes(
    buffer: Seq<u8>,
    pos: int,
    n: int,
    head: Seq<char>,
    tail: Seq<char>,
)
    requires
        0 <= pos,
        0 < n,
        pos + n <= buffer.len(),
        buffer.take(pos + n) == encode_utf8(head + "\r\n\r\n"@ + tail),
    ensures
        read_step(buffer, pos, n) == ReadStep::Complete,
{
    let text = head + "\r\n\r\n"@ + tail;
    law_text_is_read_back(text, Seq::empty());
    let i = head.len() as int;
    assert(text.subrange(i, i + "\r\n\r\n"@.len()) =~= "\r\n\r\n"@);
    assert(occurs_at(text, "\r\n\r\n"@, i));
}

/// A request without a blank line, or of bytes that are no text, is read on, as long as there is
/// room for more.
pub proof fn law_unfinished_request_is_read_on(buffer: Seq<u8>, pos: int, n: int, text: Seq<char>)
    requires
        0 <= pos,
        0 < n,
        pos + n <= buffer.len(),
        pos + n < 1024,
        !valid_utf8(buffer.take(pos + n)) || {
            &&& buffer.take(pos + n) == encode_utf8(text)
            &&& forall|i: int|
                0 <= i < text.len() - 3 && text[i] == '\r' && #[trigger] text[i + 1] == '\n'
                    && text[i + 2] == '\r' ==> text[i + 3] != '\n'
        },
    ensures
        read_step(buffer, pos, n) == ReadStep::More,
{
    reveal_strlit("\r\n\r\n");
    let pattern = "\r\n\r\n"@;
    let bytes = buffer.take(pos + n);
    let read = text_or_nothing(bytes);
    if valid_utf8(bytes) {
        law_text_is_read_back(text, Seq::empty());
    }
    assert forall|i: int| !occurs_at(read, pattern, i) by {
        if occurs_at(read, pattern, i) {
            let here = read.subrange(i, i + 4);
            assert(here[0] == read[i] && here[1] == read[i + 1]);
            assert(here[2] == read[i + 2] && here[3] == read[i + 3]);
            assert(text[i + 1] == '\n');
        }
    }
}

/// What was read counts, not in how many pieces it came: any two ways in which the same bytes
/// arrive lead to the same step. Nothing read closes, and a full buffer is answered.
pub proof fn law_reading_does_not_depend_on_the_pieces(
    buffer: Seq<u8>,
    pos: int,
    n: int,
    other_pos: int,
    other_n: int,
)
    requires
        0 <= pos,
        0 < n,
        0 <= other_pos,
        0 < other_n,
        pos + n == other_pos + other_n,
    ensures
        read_step(buffer, pos, n) == read_step(buffer, other_pos, other_n),
        read_step(buffer, pos, n) != ReadStep::Closed,
        read_step(buffer, pos, 0) == ReadStep::Closed,
        pos + n >= 1024 ==> read_step(buffer, pos, n) == ReadStep::Complete,
{
}

/// Only the first line counts: what follows the first line break makes no difference to the path.
pub proof fn law_only_the_first_line_counts(line: Seq<char>, rest: Seq<char>)
    requires
        !contains(line, "\r\n"@),
    ensures
        request_path(line + "\r\n"@ + rest) == request_path(line),
{
    reveal_strlit("\r\n");
    let pattern = "\r\n"@;
    let s = line + pattern + rest;
    let k = line.len() as int;
    law_find_is_first(s, pattern, 0);
    law_find_is_first(line, pattern, 0);
    assert(s.subrange(k, k + 2) =~= pattern);
    assert(occurs_at(s, pattern, k));
    assert forall|j: int| 0 <= j < k implies !occurs_at(s, pattern, j) by {
        if occurs_at(s, pattern, j) {
            let here = s.subrange(j, j + 2);
            assert(here[0] == s[j] && here[1] == s[j + 1]);
            if j + 1 < k {
                assert(line.subrange(j, j + 2) =~= pattern);
                assert(occurs_at(line, pattern, j));
            }
        }
    }
    assert(s.take(k) =~= line);
}

/// Whether `s` is white space without line breaks.
pub open spec fn is_gap(s: Seq<char>) -> bool {
    forall|i: int| 0 <= i < s.len() ==> is_space(#[trigger] s[i]) && s[i] != '\r' && s[i] != '\n'
}

/// The path is the second word of the line, however wide the gaps before and between the words are,
/// and whether or not anything follows it; a line of fewer words asks for the index.
pub proof fn law_path_is_the_second_word(
    before: Seq<char>,
    method: Seq<char>,
    gap: Seq<char>,
    path: Seq<char>,
    rest: Seq<char>,
)
    requires
        is_gap(before),
        is_gap(gap),
        gap.len() > 0,
        is_word(method),
        is_word(path),
        rest.len() > 0 ==> is_space(rest[0]),
        !contains(before + method + gap + path + rest, "\r\n"@),
    ensures
        request_path(before + method + gap + path + rest) == path,
        request_path(before + method + gap) == "/"@,
        request_path(before) == "/"@,
{
    let line = before + method + gap + path + rest;
    assert(before + method + gap + (path + rest) =~= line);
    lemma_beginning_has_no_break(before + method + gap, path + rest);
    assert(before + (method + gap + path + rest) =~= line);
    lemma_beginning_has_no_break(before, method + gap + path + rest);
    law_find_is_first(line, "\r\n"@, 0);
    law_find_is_first(before + method + gap, "\r\n"@, 0);
    law_find_is_first(before, "\r\n"@, 0);
    assert(first_line(line) == line);
    lemma_first_word(before, method, gap + path + rest);
    assert(before + method + (gap + path + rest) =~= line);
    let tail = gap + path + rest;
    lemma_first_word(gap, path, rest);
    assert(words(line)[1] == words(tail)[0]);
    lemma_first_word(before, method, gap);
    lemma_no_words(gap);
    lemma_no_words(before);
}

proof fn lemma_beginning_has_no_break(s: Seq<char>, more: Seq<char>)
    requires
        !contains(s + more, "\r\n"@),
    ensures
        !contains(s, "\r\n"@),
{
    let pattern = "\r\n"@;
    assert forall|i: int| !occurs_at(s, pattern, i) by {
        if occurs_at(s, pattern, i) {
            assert((s + more).subrange(i, i + pattern.len()) =~= s.subrange(i, i + pattern.len()));
            assert(occurs_at(s + more, pattern, i));
        }
    }
}

proof fn lemma_no_words(s: Seq<char>)
    requires
        is_gap(s),
    ensures
        words(s).len() == 0,
{
    lemma_next_place_is(s, 0, false, s.len() as int);
}

proof fn lemma_first_word(before: Seq<char>, word: Seq<char>, rest: Seq<char>)
    requires
        is_gap(before),
        is_word(word),
        rest.len() > 0 ==> is_space(rest[0]),
    ensures
        words(before + word + rest) == seq![word] + words(rest),
{
    let s = before + word + rest;
    let a = before.len() as int;
    let b = a + word.len();
    assert forall|i: int| 0 <= i < a implies is_space(#[trigger] s[i]) by {
        assert(s[i] == before[i]);
    }
    assert forall|i: int| a <= i < b implies !is_space(#[trigger] s[i]) by {
        assert(s[i] == word[i - a]);
    }
    assert(s[a] == word[0]);
    lemma_next_place_is(s, 0, false, a);
    if rest.len() > 0 {
        assert(s[b] == rest[0]);
    }
    lemma_next_place_is(s, a, true, b);
    assert(s.subrange(a, b) =~= word);
    assert(s.skip(b) =~= rest);
}

/// White space is what Unicode lists as such: seventeen spaces of different widths, the tabulator,
/// and what breaks a line or a paragraph.
pub proof fn law_white_space_is_that_of_unicode(c: char)
    ensures
        is_space(c) <==> seq![
            0x09u32, 0x0A, 0x0B, 0x0C, 0x0D, 0x20, 0x85, 0xA0, 0x1680, 0x2000, 0x2001, 0x2002,
            0x2003, 0x2004, 0x2005, 0x2006, 0x2007, 0x2008, 0x2009, 0x200A, 0x2028, 0x2029, 0x202F,
            0x205F, 0x3000,
        ].contains(c as u32),
{
    let list = seq![
        0x09u32, 0x0A, 0x0B, 0x0C, 0x0D, 0x20, 0x85, 0xA0, 0x1680, 0x2000, 0x2001, 0x2002,
        0x2003, 0x2004, 0x2005, 0x2006, 0x2007, 0x2008, 0x2009, 0x200A, 0x2028, 0x2029, 0x202F,
        0x205F, 0x3000,
    ];
    let n = c as u32;
    if is_space(c) {
        let i: int = if n <= 0x0D {
            n - 0x09
        } else if n == 0x20 {
            5
        } else if n == 0x85 {
            6
        } else if n == 0xA0 {
            7
        } else if n == 0x1680 {
            8
        } else if n <= 0x200A {
            n - 0x2000 + 9
        } else if n == 0x2028 {
            20
        } else if n == 0x2029 {
            21
        } else if n == 0x202F {
            22
        } else if n == 0x205F {
            23
        } else {
            24
        };
        assert(list[i] == n);
    }
}

} // verus!
