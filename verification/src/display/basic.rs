//! The basic display mode: a line of text or a solid colour.

use super::frame::{on_screen, pixel_index, solid, H, PIXELS, W};
use super::panel::{
    fill_ops, law_fill_shows_the_colour, law_set_pixel_changes_one_pixel, lemma_after_all_joins,
    pixel_ops, OpView, Panel, RawST7735,
};
use crate::number::{from_hex_pair, hex_digit, hex_digit_value, hex_pair_value, law_hex_pairs};
use crate::query::{
    as_text, law_encoded_text_is_read_back, law_later_value_is_found, param_value, percent_decode,
    percent_decoded, percent_encoded, query_param,
};
use embedded_graphics::draw_target::DrawTarget;
use embedded_graphics::geometry::{OriginDimensions, Point, Size};
use embedded_graphics::mono_font::ascii::FONT_10X20;
use embedded_graphics::mono_font::MonoTextStyle;
use embedded_graphics::pixelcolor::{IntoStorage, Rgb565, Rgb888, RgbColor};
use embedded_graphics::text::{Baseline, Text};
use embedded_graphics::{Drawable, Pixel};
use vstd::prelude::*;
use vstd::string::StrSliceExecFns;
use vstd::utf8::{encode_utf8, is_char_boundary};

verus! {

/// White.
pub const WHITE: u16 = 0xFFFF;

/// Black.
pub const BLACK: u16 = 0x0000;

/// Where a line of text starts, in pixels from the left edge.
pub const TEXT_X: i32 = 4;

/// Where the middle of a line of text is, in pixels from the upper edge.
pub const TEXT_Y: i32 = 36;

/// The largest number of characters that are drawn. A line is twenty pixels high and a character
/// ten pixels wide, so that the place of every character of such a text is a 32-bit number.
pub const MAX_TEXT: usize = 100_000_000;

/// An 8-bit channel scaled to the range up to `max` and rounded.
pub open spec fn scaled_channel(v: u8, max: int) -> int {
    (2 * v * max + 255) / 510
}

/// A colour as RGB565.
pub open spec fn rounded_rgb565(r: u8, g: u8, b: u8) -> u16 {
    (scaled_channel(r, 31) * 2048 + scaled_channel(g, 63) * 32 + scaled_channel(b, 31)) as u16
}

/// `embedded_graphics`' `From<Rgb888> for Rgb565` and `IntoStorage::into_storage`: each channel is
/// scaled to its new range and rounded to the nearest value, and the channels are packed with red
/// in the highest bits.
#[verifier::external_body]
fn to_rgb565(r: u8, g: u8, b: u8) -> (color: u16)
    ensures
        color == rounded_rgb565(r, g, b),
{
    Rgb565::from(Rgb888::new(r, g, b)).into_storage()
}

/// `s` without the number signs in front.
pub open spec fn without_signs(s: Seq<char>) -> Seq<char>
    decreases s.len(),
{
    if s.len() > 0 && s[0] == '#' {
        without_signs(s.skip(1))
    } else {
        s
    }
}

/// The value of the two hexadecimal digits at `at`; 255 where there are none.
pub open spec fn channel_at(bytes: Seq<u8>, at: int) -> u8 {
    match hex_pair_value(bytes[at], bytes[at + 1]) {
        Some(v) => v,
        None => 255,
    }
}

/// The colour that a text of six hexadecimal digits stands for; white for texts of another
/// length.
pub open spec fn hex_color(s: Seq<char>) -> u16 {
    let bytes = encode_utf8(without_signs(s));
    if bytes.len() != 6 {
        WHITE
    } else {
        rounded_rgb565(channel_at(bytes, 0), channel_at(bytes, 2), channel_at(bytes, 4))
    }
}

/// Whether a text of six bytes can be cut into three texts of two bytes.
pub open spec fn splits_into_channels(s: Seq<char>) -> bool {
    let bytes = encode_utf8(without_signs(s));
    bytes.len() == 6 ==> is_char_boundary(bytes, 2) && is_char_boundary(bytes, 4)
}

fn trim_signs(s: &str) -> (r: &str)
    ensures
        r@ == without_signs(s@),
{
    let len: usize = s.unicode_len();
    let mut start: usize = 0;
    assert(s@.skip(0) =~= s@);
    while start < len && s.get_char(start) == '#'
        invariant
            start <= len == s@.len(),
            without_signs(s@) == without_signs(s@.skip(start as int)),
        decreases len - start,
    {
        assert(s@.skip(start as int).skip(1) =~= s@.skip(start + 1));
        start = start + 1;
    }
    assert(s@.subrange(start as int, len as int) =~= s@.skip(start as int));
    s.substring_char(start, len)
}

/// Decides whether [`parse_hex_color`] can read the text.
pub fn is_color_text(hex: &str) -> (r: bool)
    ensures
        r == splits_into_channels(hex@),
{
    let digits = trim_signs(hex);
    digits.as_bytes().len() != 6 || (digits.is_char_boundary(2) && digits.is_char_boundary(4))
}

fn channel(bytes: &[u8], at: usize) -> (r: u8)
    requires
        at + 1 < bytes@.len(),
    ensures
        r == channel_at(bytes@, at as int),
{
    match from_hex_pair(bytes[at], bytes[at + 1]) {
        Some(v) => v,
        None => 255,
    }
}

/// Reads a colour such as `#FF8559`, with or without the sign.
pub fn parse_hex_color(hex: &str) -> (r: u16)
    requires
        splits_into_channels(hex@),
    ensures
        r == hex_color(hex@),
{
    let digits = trim_signs(hex);
    let bytes = digits.as_bytes();
    if bytes.len() != 6 {
        return WHITE;
    }
    to_rgb565(channel(bytes, 0), channel(bytes, 2), channel(bytes, 4))
}

/// The colour that a request asks for.
pub open spec fn requested_color(uri: Seq<char>, default: u16) -> u16 {
    match param_value(uri, "color"@) {
        Some(s) => hex_color(s),
        None => default,
    }
}

/// Whether the colour of a request can be read.
pub open spec fn color_is_readable(uri: Seq<char>) -> bool {
    param_value(uri, "color"@) matches Some(s) ==> splits_into_channels(s)
}

/// Decides whether the colour of a request can be read.
pub fn has_readable_color(uri: &str) -> (r: bool)
    ensures
        r == color_is_readable(uri@),
{
    match query_param(uri, "color") {
        Some(s) => is_color_text(s.as_str()),
        None => true,
    }
}

fn color_of(uri: &str, default: u16) -> (r: u16)
    requires
        color_is_readable(uri@),
    ensures
        r == requested_color(uri@, default),
{
    match query_param(uri, "color") {
        Some(s) => parse_hex_color(s.as_str()),
        None => default,
    }
}

/// The message that a request asks for.
pub open spec fn requested_message(uri: Seq<char>) -> Seq<char> {
    match param_value(uri, "msg"@) {
        Some(s) => percent_decoded(encode_utf8(s)),
        None => "Hello"@,
    }
}

/// Reads the message and the colour of `GET /api/display/text`.
pub fn text_request(uri: &str) -> (r: (String, u16))
    requires
        color_is_readable(uri@),
    ensures
        r.0@ == requested_message(uri@),
        r.1 == requested_color(uri@, WHITE),
{
    let message = match query_param(uri, "msg") {
        Some(s) => percent_decode(s.as_str()),
        None => "Hello".to_owned(),
    };
    (message, color_of(uri, WHITE))
}

/// Reads the colour of `GET /api/display/clear`.
pub fn clear_request(uri: &str) -> (r: u16)
    requires
        color_is_readable(uri@),
    ensures
        r == requested_color(uri@, BLACK),
{
    color_of(uri, BLACK)
}

/// What goes out for `GET /api/display/text` and `GET /api/display/clear`.
pub fn ok_json() -> (r: &'static str)
    ensures
        r@ == "{\"ok\":true}"@,
{
    "{\"ok\":true}"
}

/// `embedded_graphics`' colour of 16 bits.
#[verifier::external_type_specification]
#[verifier::external_body]
pub struct ExRgb565(Rgb565);

/// `embedded_graphics`' size of an area.
#[verifier::external_type_specification]
#[verifier::external_body]
pub struct ExSize(Size);

/// A target for `embedded_graphics` that notes which points are drawn, in the order of drawing.
struct PointList {
    points: Vec<(i32, i32)>,
}

impl OriginDimensions for PointList {
    /// The size of the screen, as an `embedded_graphics` `Size`.
    #[verifier::external_body]
    fn size(&self) -> Size {
        Size::new(W as u32, H as u32)
    }
}

impl DrawTarget for PointList {
    type Color = Rgb565;

    type Error = core::convert::Infallible;

    /// Takes the points out of the `embedded_graphics` `Pixel`s that are drawn.
    #[verifier::external_body]
    fn draw_iter<I>(&mut self, pixels: I) -> Result<(), core::convert::Infallible> where
        I: IntoIterator<Item = Pixel<Rgb565>>,
     {
        self.points.extend(pixels.into_iter().map(|p| (p.0.x, p.0.y)));
        Ok(())
    }
}

/// The points that `embedded_graphics` draws for the text, in its font of ten by twenty pixels with
/// the middle of the first line at `(x, y)`, in the order in which it draws them.
pub uninterp spec fn text_points(text: Seq<char>, x: int, y: int) -> Seq<(i32, i32)>;

/// `embedded_graphics`' `Text::with_baseline` and `Drawable::draw`, on a target that notes the
/// points. What is drawn is given the name `text_points`; which points a character has, and where a
/// character stands, is not stated.
#[verifier::external_body]
fn points_of_text(text: &str, x: i32, y: i32) -> (r: Vec<(i32, i32)>)
    requires
        text@.len() <= MAX_TEXT,
        on_screen(x as int, y as int),
    ensures
        r@ == text_points(text@, x as int, y as int),
{
    let mut target = PointList { points: Vec::new() };
    let style = MonoTextStyle::new(&FONT_10X20, Rgb565::WHITE);
    let _ = Text::with_baseline(text, Point::new(x, y), style, Baseline::Middle).draw(&mut target);
    target.points
}

/// Sends a pixel to the panel, where it lies on the screen.
pub fn draw_point(panel: &mut RawST7735, x: i32, y: i32, color: u16)
    ensures
        final(panel)@ == (if on_screen(x as int, y as int) {
            old(panel)@ + pixel_ops(x as int, y as int, color)
        } else {
            old(panel)@
        }),
{
    if x >= 0 && (x as usize) < W && y >= 0 && (y as usize) < H {
        panel.set_pixel(x as u16, y as u16, color);
    }
}

/// The operations that send those of the first `n` points that lie on the screen, in order.
pub open spec fn point_ops(points: Seq<(i32, i32)>, color: u16, n: int) -> Seq<OpView>
    decreases n,
{
    if n <= 0 {
        Seq::empty()
    } else {
        let (x, y) = points[n - 1];
        point_ops(points, color, n - 1) + if on_screen(x as int, y as int) {
            pixel_ops(x as int, y as int, color)
        } else {
            Seq::empty()
        }
    }
}

/// Clears the screen to black and sends points in one colour, in order. Points that do not lie on
/// the screen are left out.
pub fn draw_points(panel: &mut RawST7735, points: &[(i32, i32)], color: u16)
    ensures
        final(panel)@ == old(panel)@ + fill_ops(BLACK) + point_ops(
            points@,
            color,
            points@.len() as int,
        ),
{
    panel.fill_solid(BLACK);
    let ghost before = panel@;
    let mut i: usize = 0;
    assert(before + point_ops(points@, color, 0) =~= before);
    while i < points.len()
        invariant
            i <= points@.len(),
            panel@ == before + point_ops(points@, color, i as int),
        decreases points@.len() - i,
    {
        let (x, y) = points[i];
        draw_point(panel, x, y, color);
        i = i + 1;
        assert(panel@ =~= before + point_ops(points@, color, i as int));
    }
}

/// Clears the screen to black and draws one line of text.
pub fn draw_text(panel: &mut RawST7735, message: &str, color: u16)
    requires
        message@.len() <= MAX_TEXT,
    ensures
        ({
            let points = text_points(message@, TEXT_X as int, TEXT_Y as int);
            final(panel)@ == old(panel)@ + fill_ops(BLACK) + point_ops(
                points,
                color,
                points.len() as int,
            )
        }),
        ({
            let points = text_points(message@, 4, 36);
            final(panel)@ == old(panel)@ + fill_ops(0) + point_ops(
                points,
                color,
                points.len() as int,
            )
        }),
{
    let points = points_of_text(message, TEXT_X, TEXT_Y);
    draw_points(panel, &points, color);
}

/// Whether one of the first `n` points is pixel `i` of the screen.
pub open spec fn has_pixel(points: Seq<(i32, i32)>, n: int, i: int) -> bool {
    exists|k: int|
        0 <= k < n && on_screen((#[trigger] points[k]).0 as int, points[k].1 as int)
            && pixel_index(points[k].0 as int, points[k].1 as int) == i
}

/// After points were drawn, the panel shows the colour at those of them that lie on the screen, and
/// black everywhere else.
pub proof fn law_points_are_shown(p: Panel, points: Seq<(i32, i32)>, color: u16, i: int)
    requires
        0 <= i < PIXELS,
    ensures
        ({
            let n = points.len() as int;
            let after = p.after_all(fill_ops(BLACK) + point_ops(points, color, n));
            after.visible[i] == if has_pixel(points, n, i) {
                color
            } else {
                BLACK
            }
        }),
{
    let n = points.len() as int;
    let q = p.after_all(fill_ops(BLACK));
    law_fill_shows_the_colour(p, BLACK);
    lemma_after_all_joins(p, fill_ops(BLACK), point_ops(points, color, n));
    lemma_point_ops(q, points, color, n, i);
}

proof fn lemma_point_ops(q: Panel, points: Seq<(i32, i32)>, color: u16, n: int, i: int)
    requires
        q.visible == solid(BLACK),
        0 <= n <= points.len(),
        0 <= i < PIXELS,
    ensures
        q.after_all(point_ops(points, color, n)).visible.len() == PIXELS,
        q.after_all(point_ops(points, color, n)).visible[i] == (if has_pixel(points, n, i) {
            color
        } else {
            BLACK
        }),
    decreases n,
{
    if n > 0 {
        lemma_point_ops(q, points, color, n - 1, i);
        let before = q.after_all(point_ops(points, color, n - 1));
        let (x, y) = points[n - 1];
        if on_screen(x as int, y as int) {
            let one = pixel_ops(x as int, y as int, color);
            lemma_after_all_joins(q, point_ops(points, color, n - 1), one);
            law_set_pixel_changes_one_pixel(before, x as int, y as int, color);
        } else {
            assert(point_ops(points, color, n) =~= point_ops(points, color, n - 1));
        }
        assert(has_pixel(points, n, i) == (has_pixel(points, n - 1, i) || (on_screen(
            x as int,
            y as int,
        ) && pixel_index(x as int, y as int) == i))) by {
            if has_pixel(points, n - 1, i) {
                let k = choose|k: int|
                    0 <= k < n - 1 && on_screen((#[trigger] points[k]).0 as int, points[k].1 as int)
                        && pixel_index(points[k].0 as int, points[k].1 as int) == i;
                assert(points[k] == points[k]);
            }
        }
    } else {
        assert(q.after_all(Seq::empty()) == q);
    }
}

/// White and black come out as white and black, and a brighter channel never comes out darker.
pub proof fn law_channels_keep_their_order(a: u8, b: u8, max: int)
    requires
        a <= b,
        0 <= max,
    ensures
        scaled_channel(0, max) == 0,
        scaled_channel(255, max) == max,
        scaled_channel(a, max) <= scaled_channel(b, max),
{
    assert(2 * a * max <= 2 * b * max) by (nonlinear_arith)
        requires
            a <= b,
            0 <= max,
    ;
    assert(2 * 0 * max == 0) by (nonlinear_arith);
    assert(2 * 255 * max == 510 * max) by (nonlinear_arith);
}

/// The message that is shown is the one that was sent: text whose characters all have codes below
/// 256, sent percent-encoded, comes back as it was.
pub proof fn law_sent_message_is_shown(codes: Seq<u8>)
    ensures
        requested_message("/api/display/text?msg="@ + as_text(percent_encoded(codes))) == as_text(
            codes,
        ),
{
    reveal_strlit("/api/display/text?msg=");
    reveal_strlit("/api/display/text");
    reveal_strlit("msg");
    law_encoded_text_is_read_back("/api/display/text"@, "msg"@, codes);
    assert("/api/display/text?msg="@ + as_text(percent_encoded(codes)) =~= "/api/display/text"@
        + seq!['?'] + ("msg"@ + seq!['='] + as_text(percent_encoded(codes))));
}

/// Each channel comes out as the nearest value that its new range has.
pub proof fn law_channels_are_rounded_to_the_nearest(v: u8, max: int)
    requires
        0 <= max,
    ensures
        -255 <= 2 * (v * max - 255 * scaled_channel(v, max)) < 255,
{
    let c = scaled_channel(v, max);
    assert(2 * v * max == 2 * (v * max)) by (nonlinear_arith);
    let m = 2 * v * max + 255;
    assert(510 * c <= m < 510 * c + 510);
}

/// A colour keeps its channels apart: red, green and blue can be read off it.
pub proof fn law_channels_are_packed(r: u8, g: u8, b: u8)
    ensures
        rounded_rgb565(r, g, b) as int / 2048 == scaled_channel(r, 31),
        (rounded_rgb565(r, g, b) as int / 32) % 64 == scaled_channel(g, 63),
        rounded_rgb565(r, g, b) as int % 32 == scaled_channel(b, 31),
{
    let (x, y, z) = (scaled_channel(r, 31), scaled_channel(g, 63), scaled_channel(b, 31));
    assert(0 <= x <= 31 && 0 <= y <= 63 && 0 <= z <= 31);
    let c = x * 2048 + y * 32 + z;
    assert(0 <= c < 65536);
    assert(c / 2048 == x);
    assert(c / 32 == x * 64 + y);
    assert((c / 32) % 64 == y);
    assert(c % 32 == z);
}

/// The six hexadecimal digits of a colour, each in the wanted case.
pub open spec fn color_digits(r: u8, g: u8, b: u8, upper: bool) -> Seq<char> {
    seq![
        hex_digit(r as int / 16, upper),
        hex_digit(r as int % 16, upper),
        hex_digit(g as int / 16, upper),
        hex_digit(g as int % 16, upper),
        hex_digit(b as int / 16, upper),
        hex_digit(b as int % 16, upper),
    ]
}

/// `signs` number signs.
pub open spec fn number_signs(signs: nat) -> Seq<char> {
    Seq::new(signs, |i: int| '#')
}

proof fn lemma_signs_are_dropped(signs: nat, s: Seq<char>)
    requires
        s.len() == 0 || s[0] != '#',
    ensures
        without_signs(number_signs(signs) + s) == s,
    decreases signs,
{
    let t = number_signs(signs) + s;
    if signs > 0 {
        lemma_signs_are_dropped((signs - 1) as nat, s);
        assert(t[0] == '#');
        assert(t.skip(1) =~= number_signs((signs - 1) as nat) + s);
    } else {
        assert(t =~= s);
    }
}

/// A colour that is written in six hexadecimal digits is read back, in either case of the digits
/// and with or without number signs before them.
pub proof fn law_color_is_read_back(r: u8, g: u8, b: u8, upper: bool, signs: nat)
    ensures
        hex_color(number_signs(signs) + color_digits(r, g, b, upper)) == rounded_rgb565(r, g, b),
        splits_into_channels(number_signs(signs) + color_digits(r, g, b, upper)),
{
    let digits = color_digits(r, g, b, upper);
    assert(hex_digit_value('#' as u8) is None);
    assert(hex_digit_value(digits[0] as u8) == Some((r / 16) as u8));
    lemma_signs_are_dropped(signs, digits);
    assert forall|i: int| 0 <= i < 6 implies '\0' <= #[trigger] digits[i] <= '\u{7f}' by {}
    vstd::utf8::is_ascii_chars_encode_utf8(digits);
    let bytes = encode_utf8(digits);
    assert(bytes.len() == 6);
    assert(digits[0] as u8 == bytes[0] && digits[1] as u8 == bytes[1]);
    assert(digits[2] as u8 == bytes[2] && digits[3] as u8 == bytes[3]);
    assert(digits[4] as u8 == bytes[4] && digits[5] as u8 == bytes[5]);
    law_hex_pairs(r as int / 16, r as int % 16, upper, upper);
    law_hex_pairs(g as int / 16, g as int % 16, upper, upper);
    law_hex_pairs(b as int / 16, b as int % 16, upper, upper);
    assert(channel_at(bytes, 0) == r && channel_at(bytes, 2) == g && channel_at(bytes, 4) == b);
    assert forall|i: int| 0 <= i < 6 implies bytes[i] < 128 by {
        assert(digits[i] as u8 == bytes[i]);
    }
    vstd::utf8::encode_utf8_valid_utf8(digits);
    vstd::utf8::is_char_boundary_iff_is_leading_byte(bytes, 2);
    vstd::utf8::is_char_boundary_iff_is_leading_byte(bytes, 4);
}

/// A text of another length is white.
pub proof fn law_other_texts_are_white(s: Seq<char>)
    requires
        encode_utf8(without_signs(s)).len() != 6,
    ensures
        hex_color(s) == 0xFFFF,
{
}

/// A request gets the colour that it asks for, before or behind other parameters, and the default
/// where it asks for none.
pub proof fn law_requested_color_is_taken(
    path: Seq<char>,
    key: Seq<char>,
    other: Seq<char>,
    r: u8,
    g: u8,
    b: u8,
    upper: bool,
    default: u16,
)
    requires
        !path.contains('?'),
        !key.contains('='),
        !key.contains('&'),
        !other.contains('&'),
        key != "color"@,
    ensures
        ({
            let pair = "color"@ + seq!['='] + color_digits(r, g, b, upper);
            let first = key + seq!['='] + other;
            &&& requested_color(path + seq!['?'] + (pair + seq!['&'] + first), default)
                == rounded_rgb565(r, g, b)
            &&& requested_color(path + seq!['?'] + (first + seq!['&'] + pair), default)
                == rounded_rgb565(r, g, b)
            &&& requested_color(path + seq!['?'] + first, default) == default
        }),
        requested_color(path, default) == default,
{
    reveal_strlit("color");
    let digits = color_digits(r, g, b, upper);
    let name = "color"@;
    assert(!name.contains('=') && !name.contains('&')) by {
        assert forall|i: int| 0 <= i < name.len() implies name[i] != '=' && name[i] != '&' by {}
    }
    assert(!digits.contains('&')) by {
        assert forall|i: int| 0 <= i < digits.len() implies digits[i] != '&' by {}
    }
    let first = key + seq!['='] + other;
    law_later_value_is_found(path, key, other, name, digits, first);
    law_color_is_read_back(r, g, b, upper, 0);
    assert(number_signs(0) + digits =~= digits);
}

/// A request without a message says Hello.
pub proof fn law_default_message(path: Seq<char>)
    requires
        !path.contains('?'),
    ensures
        requested_message(path) == "Hello"@,
{
    crate::text::law_split_once_cuts_at_the_first(path, '?', Seq::empty());
}

/// In a colour of six characters a channel that is no number is at its largest, and does not
/// disturb the others.
pub proof fn law_unreadable_channel_is_full(s: Seq<char>, r: u8, g: u8, b: u8)
    requires
        s.len() == 6,
        s[0] != '#',
        forall|i: int| 0 <= i < 6 ==> '\0' <= #[trigger] s[i] <= '\u{7f}',
        hex_pair_value(s[0] as u8, s[1] as u8) == Some(r) || (r == 255 && hex_pair_value(
            s[0] as u8,
            s[1] as u8,
        ) is None),
        hex_pair_value(s[2] as u8, s[3] as u8) == Some(g) || (g == 255 && hex_pair_value(
            s[2] as u8,
            s[3] as u8,
        ) is None),
        hex_pair_value(s[4] as u8, s[5] as u8) == Some(b) || (b == 255 && hex_pair_value(
            s[4] as u8,
            s[5] as u8,
        ) is None),
    ensures
        splits_into_channels(s),
        hex_color(s) == rounded_rgb565(r, g, b),
{
    vstd::utf8::is_ascii_chars_encode_utf8(s);
    let bytes = encode_utf8(s);
    assert(s[0] as u8 == bytes[0] && s[1] as u8 == bytes[1]);
    assert(s[2] as u8 == bytes[2] && s[3] as u8 == bytes[3]);
    assert(s[4] as u8 == bytes[4] && s[5] as u8 == bytes[5]);
    vstd::utf8::encode_utf8_valid_utf8(s);
    vstd::utf8::is_char_boundary_iff_is_leading_byte(bytes, 2);
    vstd::utf8::is_char_boundary_iff_is_leading_byte(bytes, 4);
}

/// Every text of ASCII characters, and every text of another length than six bytes, can be read as
/// a colour.
pub proof fn law_plain_colors_are_readable(s: Seq<char>)
    requires
        encode_utf8(without_signs(s)).len() != 6 || (forall|i: int|
            0 <= i < without_signs(s).len() ==> '\0' <= #[trigger] without_signs(s)[i]
                <= '\u{7f}'),
    ensures
        splits_into_channels(s),
{
    let text = without_signs(s);
    let bytes = encode_utf8(text);
    if bytes.len() == 6 {
        vstd::utf8::is_ascii_chars_encode_utf8(text);
        assert(text[2] as u8 == bytes[2] && text[4] as u8 == bytes[4]);
        vstd::utf8::encode_utf8_valid_utf8(text);
        vstd::utf8::is_char_boundary_iff_is_leading_byte(bytes, 2);
        vstd::utf8::is_char_boundary_iff_is_leading_byte(bytes, 4);
    }
}

/// A request is readable where it asks for no colour, and where it asks for one in six hexadecimal
/// digits.
pub proof fn law_ordinary_requests_are_readable(
    path: Seq<char>,
    r: u8,
    g: u8,
    b: u8,
    upper: bool,
)
    requires
        !path.contains('?'),
    ensures
        color_is_readable(path),
        color_is_readable(
            path + seq!['?'] + ("color"@ + seq!['='] + color_digits(r, g, b, upper)),
        ),
{
    reveal_strlit("color");
    let digits = color_digits(r, g, b, upper);
    let name = "color"@;
    crate::text::law_split_once_cuts_at_the_first(path, '?', Seq::empty());
    assert(!name.contains('=') && !name.contains('&')) by {
        assert forall|i: int| 0 <= i < name.len() implies name[i] != '=' && name[i] != '&' by {}
    }
    assert(!digits.contains('&')) by {
        assert forall|i: int| 0 <= i < digits.len() implies digits[i] != '&' by {}
    }
    crate::query::law_first_value_is_found(path, name, digits);
    law_color_is_read_back(r, g, b, upper, 0);
    assert(number_signs(0) + digits =~= digits);
}

} // verus!
