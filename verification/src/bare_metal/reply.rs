//! The replies of the server: which page goes out for which path, and the count as JSON.

use super::request::{
    is_word, law_path_of_well_formed_request, path_of, request_path, text_or_nothing,
};
use crate::number::{decimal, to_decimal};
use crate::peripherals::button::count_text;
use crate::text::{same_text, utf8_text};
use vstd::prelude::*;
use vstd::utf8::{
    encode_utf8, encode_utf8_decode_utf8, is_ascii_chars, is_ascii_chars_concat,
    is_ascii_chars_encode_utf8,
};

verus! {

/// What goes out for a request: the headers, then the body.
#[derive(Clone, Copy, Debug)]
pub struct Reply<'a> {
    pub header: &'static str,
    pub body: &'a str,
}

/// The headers of the reply to a path.
pub open spec fn reply_header(path: Seq<char>) -> Seq<char> {
    if path == "/"@ {
        "HTTP/1.1 200 OK\r\nContent-Type: text/html; charset=utf-8\r\nConnection: close\r\n\r\n"@
    } else if path == "/style.css"@ {
        "HTTP/1.1 200 OK\r\nContent-Type: text/css; charset=utf-8\r\nConnection: close\r\n\r\n"@
    } else if path == "/api/count"@ {
        "HTTP/1.1 200 OK\r\nContent-Type: application/json\r\nCache-Control: no-cache\r\nConnection: close\r\n\r\n"@
    } else {
        "HTTP/1.1 404 Not Found\r\nContent-Type: text/plain\r\nConnection: close\r\n\r\n"@
    }
}

/// The body of the reply to a path.
pub open spec fn reply_body(
    path: Seq<char>,
    index_html: Seq<char>,
    style_css: Seq<char>,
    count_json: Seq<char>,
) -> Seq<char> {
    if path == "/"@ {
        index_html
    } else if path == "/style.css"@ {
        style_css
    } else if path == "/api/count"@ {
        count_json
    } else {
        "404 - Not Found"@
    }
}

/// Chooses the reply to a path.
pub fn route<'a>(
    path: &str,
    index_html: &'a str,
    style_css: &'a str,
    count_json: &'a str,
) -> (r: Reply<'a>)
    ensures
        r.header@ == reply_header(path@),
        r.body@ == reply_body(path@, index_html@, style_css@, count_json@),
{
    if same_text(path, "/") {
        Reply {
            header: "HTTP/1.1 200 OK\r\nContent-Type: text/html; charset=utf-8\r\nConnection: close\r\n\r\n",
            body: index_html,
        }
    } else if same_text(path, "/style.css") {
        Reply {
            header: "HTTP/1.1 200 OK\r\nContent-Type: text/css; charset=utf-8\r\nConnection: close\r\n\r\n",
            body: style_css,
        }
    } else if same_text(path, "/api/count") {
        Reply {
            header: "HTTP/1.1 200 OK\r\nContent-Type: application/json\r\nCache-Control: no-cache\r\nConnection: close\r\n\r\n",
            body: count_json,
        }
    } else {
        Reply {
            header: "HTTP/1.1 404 Not Found\r\nContent-Type: text/plain\r\nConnection: close\r\n\r\n",
            body: "404 - Not Found",
        }
    }
}

/// What of the count as JSON fits into `room` bytes: its three pieces, as long as they fit whole.
pub open spec fn count_text_in(count: u32, room: nat) -> Seq<char> {
    let head = "{\"count\":"@;
    let number = decimal(count as nat);
    let tail = "}"@;
    if head.len() > room {
        Seq::empty()
    } else if head.len() + number.len() > room {
        head
    } else if head.len() + number.len() + tail.len() > room {
        head + number
    } else {
        head + number + tail
    }
}

/// `after` is `before` with `text` written at its beginning.
pub open spec fn written_over(before: Seq<u8>, text: Seq<u8>, after: Seq<u8>) -> bool {
    &&& text.len() <= before.len() == after.len()
    &&& after.take(text.len() as int) == text
    &&& after.skip(text.len() as int) == before.skip(text.len() as int)
}

/// Writes `text` behind the first `pos` bytes and returns the end, where it fits.
fn write_piece(buffer: &mut [u8], pos: usize, text: &str) -> (r: Option<usize>)
    requires
        pos <= old(buffer)@.len(),
    ensures
        match r {
            Some(end) => {
                &&& end == pos + encode_utf8(text@).len() <= old(buffer)@.len()
                &&& final(buffer)@ == old(buffer)@.take(pos as int) + encode_utf8(text@) + old(
                    buffer,
                )@.skip(end as int)
            },
            None => {
                &&& pos + encode_utf8(text@).len() > old(buffer)@.len()
                &&& final(buffer)@ == old(buffer)@
            },
        },
{
    let bytes = text.as_bytes();
    let size: usize = buffer.len();
    let room: usize = size - pos;
    let count: usize = bytes.len();
    if count > room {
        return None;
    }
    let mut i: usize = 0;
    while i < count
        invariant
            i <= count == bytes@.len(),
            pos + count <= size == buffer@.len() == old(buffer)@.len(),
            forall|j: int|
                0 <= j < buffer@.len() ==> #[trigger] buffer@[j] == (if pos <= j < pos + i {
                    bytes@[j - pos]
                } else {
                    old(buffer)@[j]
                }),
        decreases count - i,
    {
        buffer[pos + i] = bytes[i];
        i = i + 1;
    }
    assert(buffer@ =~= old(buffer)@.take(pos as int) + bytes@ + old(buffer)@.skip(pos + count));
    Some(pos + count)
}

proof fn lemma_decimal_is_ascii(n: nat)
    ensures
        is_ascii_chars(decimal(n)),
        decimal(n).len() >= 1,
    decreases n,
{
    if n >= 10 {
        lemma_decimal_is_ascii(n / 10);
    }
}

proof fn lemma_count_pieces_are_ascii(count: u32)
    ensures
        is_ascii_chars("{\"count\":"@),
        is_ascii_chars(decimal(count as nat)),
        is_ascii_chars("}"@),
{
    reveal_strlit("{\"count\":");
    reveal_strlit("}");
    lemma_decimal_is_ascii(count as nat);
}

proof fn lemma_ascii_encoding_joins(a: Seq<char>, b: Seq<char>)
    requires
        is_ascii_chars(a),
        is_ascii_chars(b),
    ensures
        is_ascii_chars(a + b),
        encode_utf8(a + b) == encode_utf8(a) + encode_utf8(b),
{
    is_ascii_chars_concat(a + b, a, b);
    is_ascii_chars_encode_utf8(a);
    is_ascii_chars_encode_utf8(b);
    is_ascii_chars_encode_utf8(a + b);
    let whole = encode_utf8(a + b);
    let parts = encode_utf8(a) + encode_utf8(b);
    assert forall|i: int| 0 <= i < whole.len() implies whole[i] == parts[i] by {
        assert((a + b)[i] as u8 == whole[i]);
        if i < a.len() {
            assert(a[i] as u8 == encode_utf8(a)[i]);
        } else {
            assert(b[i - a.len()] as u8 == encode_utf8(b)[i - a.len()]);
        }
    }
    assert(whole =~= parts);
}

/// Writes the count as JSON into `buffer` and returns what was written.
pub fn format_count_json<'a>(count: u32, buffer: &'a mut [u8]) -> (r: &'a str)
    ensures
        r@ == count_text_in(count, old(buffer)@.len()),
        written_over(old(buffer)@, encode_utf8(r@), final(buffer)@),
{
    let ghost head = "{\"count\":"@;
    let ghost number = decimal(count as nat);
    let ghost tail = "}"@;
    let ghost before = buffer@;
    proof {
        lemma_count_pieces_are_ascii(count);
        is_ascii_chars_encode_utf8(head);
        is_ascii_chars_encode_utf8(number);
        is_ascii_chars_encode_utf8(tail);
    }
    let digits = to_decimal(count as u64);
    let mut end: usize = 0;
    let ghost mut text: Seq<char> = Seq::empty();
    proof {
        is_ascii_chars_encode_utf8(text);
        assert(buffer@.take(0) =~= encode_utf8(text));
        assert(buffer@.skip(0) =~= before.skip(0));
    }
    let first = write_piece(buffer, 0, "{\"count\":");
    if let Some(e) = first {
        end = e;
        proof {
            text = head;
            assert(buffer@.take(end as int) =~= encode_utf8(text));
            assert(buffer@.skip(end as int) =~= before.skip(end as int));
        }
        let second = write_piece(buffer, e, digits.as_str());
        if let Some(e) = second {
            end = e;
            proof {
                text = head + number;
                lemma_ascii_encoding_joins(head, number);
                assert(buffer@.take(end as int) =~= encode_utf8(text));
                assert(buffer@.skip(end as int) =~= before.skip(end as int));
            }
            let third = write_piece(buffer, e, "}");
            if let Some(e) = third {
                end = e;
                proof {
                    text = head + number + tail;
                    lemma_ascii_encoding_joins(head + number, tail);
                    assert(buffer@.take(end as int) =~= encode_utf8(text));
                    assert(buffer@.skip(end as int) =~= before.skip(end as int));
                }
            }
        }
    }
    let all: &'a [u8] = buffer;
    let written = vstd::slice::slice_subrange(all, 0, end);
    assert(written@ =~= all@.take(end as int));
    proof {
        vstd::utf8::encode_utf8_valid_utf8(text);
    }
    match utf8_text(written) {
        Some(s) => {
            proof {
                encode_utf8_decode_utf8(s@);
                encode_utf8_decode_utf8(text);
            }
            s
        },
        None => "{\"count\":0}",
    }
}

/// The reply to the request that was read; the count is written into `json_buffer`.
pub fn reply_to<'a>(
    request: &[u8],
    count: u32,
    json_buffer: &'a mut [u8],
    index_html: &'a str,
    style_css: &'a str,
) -> (r: Reply<'a>)
    ensures
        r.header@ == reply_header(request_path(text_or_nothing(request@))),
        r.body@ == reply_body(
            request_path(text_or_nothing(request@)),
            index_html@,
            style_css@,
            count_text_in(count, old(json_buffer)@.len()),
        ),
        written_over(
            old(json_buffer)@,
            encode_utf8(count_text_in(count, old(json_buffer)@.len())),
            final(json_buffer)@,
        ),
{
    let path = path_of(request);
    let json = format_count_json(count, json_buffer);
    route(path, index_html, style_css, json)
}

proof fn lemma_decimal_length(n: nat, digits: nat)
    requires
        n < vstd::arithmetic::power::pow(10, digits),
        digits >= 1,
    ensures
        decimal(n).len() <= digits,
    decreases digits,
{
    vstd::arithmetic::power::lemma_pow1(10);
    if n >= 10 {
        assert(digits >= 2);
        reveal(vstd::arithmetic::power::pow);
        assert(vstd::arithmetic::power::pow(10, digits) == 10 * vstd::arithmetic::power::pow(
            10,
            (digits - 1) as nat,
        ));
        lemma_decimal_length(n / 10, (digits - 1) as nat);
    }
}

/// Twenty bytes are enough for any count: the JSON then comes out whole.
pub proof fn law_count_fits_twenty_bytes(count: u32, room: nat)
    requires
        room >= 20,
    ensures
        count_text_in(count, room) == count_text(count),
{
    reveal_strlit("{\"count\":");
    reveal_strlit("}");
    reveal_with_fuel(vstd::arithmetic::power::pow, 11);
    assert(vstd::arithmetic::power::pow(10, 10) == 10_000_000_000);
    lemma_decimal_length(count as nat, 10);
}

/// Every reply is a status line of HTTP/1.1, and its status is 200 exactly for the paths that are
/// served.
pub proof fn law_only_known_paths_are_served(path: Seq<char>)
    ensures
        path == "/"@ || path == "/style.css"@ || path == "/api/count"@ <==> reply_header(
            path,
        ).subrange(0, 15) == "HTTP/1.1 200 OK"@,
        !(path == "/"@ || path == "/style.css"@ || path == "/api/count"@) <==> reply_header(
            path,
        ).subrange(0, 22) == "HTTP/1.1 404 Not Found"@,
{
    reveal_strlit("HTTP/1.1 200 OK");
    reveal_strlit("HTTP/1.1 404 Not Found");
    reveal_strlit(
        "HTTP/1.1 200 OK\r\nContent-Type: text/html; charset=utf-8\r\nConnection: close\r\n\r\n",
    );
    reveal_strlit(
        "HTTP/1.1 200 OK\r\nContent-Type: text/css; charset=utf-8\r\nConnection: close\r\n\r\n",
    );
    reveal_strlit(
        "HTTP/1.1 200 OK\r\nContent-Type: application/json\r\nCache-Control: no-cache\r\nConnection: close\r\n\r\n",
    );
    reveal_strlit(
        "HTTP/1.1 404 Not Found\r\nContent-Type: text/plain\r\nConnection: close\r\n\r\n",
    );
    let start = reply_header(path).subrange(0, 15);
    let long_start = reply_header(path).subrange(0, 22);
    if path == "/"@ || path == "/style.css"@ || path == "/api/count"@ {
        assert(start =~= "HTTP/1.1 200 OK"@);
        assert(long_start[9] != "HTTP/1.1 404 Not Found"@[9]);
    } else {
        assert(start[9] != "HTTP/1.1 200 OK"@[9]);
        assert(long_start =~= "HTTP/1.1 404 Not Found"@);
    }
}

/// Whoever asks for the count gets the count: a request for it, whatever its method and headers,
/// is answered with the whole JSON object, as long as twenty bytes are there to write it.
pub proof fn law_count_request_is_answered(
    method: Seq<char>,
    rest: Seq<char>,
    count: u32,
    room: nat,
    index_html: Seq<char>,
    style_css: Seq<char>,
)
    requires
        is_word(method),
        room >= 20,
    ensures
        ({
            let request = method + " "@ + "/api/count"@ + " "@ + rest;
            reply_body(
                request_path(request),
                index_html,
                style_css,
                count_text_in(count, room),
            ) == count_text(count)
        }),
{
    reveal_strlit("/api/count");
    reveal_strlit("/");
    reveal_strlit("/style.css");
    assert("/api/count"@[1] != "/style.css"@[1]);
    law_path_of_well_formed_request(method, "/api/count"@, rest);
    law_count_fits_twenty_bytes(count, room);
}

/// Every path has its page: the index, the stylesheet and the count go out as they are, whatever
/// they hold, and every other path is answered that there is nothing.
pub proof fn law_each_path_has_its_page(
    path: Seq<char>,
    index_html: Seq<char>,
    style_css: Seq<char>,
    count_json: Seq<char>,
)
    ensures
        reply_body("/"@, index_html, style_css, count_json) == index_html,
        reply_body("/style.css"@, index_html, style_css, count_json) == style_css,
        reply_body("/api/count"@, index_html, style_css, count_json) == count_json,
        path != "/"@ && path != "/style.css"@ && path != "/api/count"@ ==> reply_body(
            path,
            index_html,
            style_css,
            count_json,
        ) == "404 - Not Found"@,
{
    reveal_strlit("/");
    reveal_strlit("/style.css");
    reveal_strlit("/api/count");
    assert("/api/count"@[1] != "/style.css"@[1]);
    assert("/"@.len() == 1);
}

/// Whoever asks for a page gets that page, whatever the method and the headers of the request are,
/// and a request that names no path gets the index.
pub proof fn law_page_request_is_answered(
    method: Seq<char>,
    path: Seq<char>,
    rest: Seq<char>,
    index_html: Seq<char>,
    style_css: Seq<char>,
    count_json: Seq<char>,
)
    requires
        is_word(method),
        is_word(path),
        path != "/"@ && path != "/style.css"@ && path != "/api/count"@,
    ensures
        reply_body(
            request_path(method + " "@ + "/"@ + " "@ + rest),
            index_html,
            style_css,
            count_json,
        ) == index_html,
        reply_body(
            request_path(method + " "@ + "/style.css"@ + " "@ + rest),
            index_html,
            style_css,
            count_json,
        ) == style_css,
        reply_body(
            request_path(method + " "@ + path + " "@ + rest),
            index_html,
            style_css,
            count_json,
        ) == "404 - Not Found"@,
        reply_body(request_path(Seq::empty()), index_html, style_css, count_json) == index_html,
{
    reveal_strlit("/");
    reveal_strlit("/style.css");
    law_each_path_has_its_page(path, index_html, style_css, count_json);
    law_path_of_well_formed_request(method, "/"@, rest);
    law_path_of_well_formed_request(method, "/style.css"@, rest);
    law_path_of_well_formed_request(method, path, rest);
    let nothing = Seq::<char>::empty();
    reveal_strlit("\r\n");
    crate::text::law_find_is_first(nothing, "\r\n"@, 0);
    assert(super::request::words(nothing).len() == 0);
}

/// A buffer that is too small gets the beginning of the count, as much as fits, and never more than
/// the buffer holds; the whole goes out exactly where it fits.
pub proof fn law_small_buffer_gets_the_beginning(count: u32, room: nat)
    ensures
        count_text_in(count, room).len() <= room,
        count_text_in(count, room).len() <= count_text(count).len(),
        count_text(count).take(count_text_in(count, room).len() as int) == count_text_in(
            count,
            room,
        ),
        count_text_in(count, room) == count_text(count) <==> count_text(count).len() <= room,
{
    reveal_strlit("{\"count\":");
    reveal_strlit("}");
    let part = count_text_in(count, room);
    assert(count_text(count).take(part.len() as int) =~= part);
}

} // verus!
