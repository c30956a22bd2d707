//! Display geometry and the big-endian RGB565 framebuffer.

use vstd::prelude::*;

verus! {

/// Visible width in pixels.
pub const W: usize = 160;

/// Visible height in pixels.
pub const H: usize = 80;

/// Number of visible pixels.
pub const PIXELS: usize = 12800;

/// Bytes of a framebuffer: two per pixel, high byte first.
pub const FB_BYTES: usize = 25600;

/// The index of the pixel `(x, y)` in row-major order.
pub open spec fn pixel_index(x: int, y: int) -> int {
    y * W + x
}

/// Whether `(x, y)` lies on the screen.
pub open spec fn on_screen(x: int, y: int) -> bool {
    0 <= x < W && 0 <= y < H
}

/// The pixels that a framebuffer of bytes holds: pixel `i` is made of bytes `2 i` (high) and
/// `2 i + 1` (low).
pub open spec fn pixels(fb: Seq<u8>) -> Seq<u16> {
    Seq::new(fb.len() / 2, |i: int| (fb[2 * i] * 256 + fb[2 * i + 1]) as u16)
}

/// A screen of `PIXELS` pixels of one colour.
pub open spec fn solid(color: u16) -> Seq<u16> {
    Seq::new(PIXELS as nat, |i: int| color)
}

/// The geometry constants fit together.
pub proof fn law_geometry()
    ensures
        PIXELS == W * H,
        FB_BYTES == 2 * PIXELS,
        forall|x: int, y: int| on_screen(x, y) ==> 0 <= #[trigger] pixel_index(x, y) < PIXELS,
{
}

/// Two framebuffers that show the same pixels hold the same bytes.
pub proof fn law_pixels_determine_bytes(a: Seq<u8>, b: Seq<u8>)
    requires
        a.len() == FB_BYTES,
        b.len() == FB_BYTES,
        pixels(a) == pixels(b),
    ensures
        a == b,
{
    assert forall|j: int| 0 <= j < a.len() implies a[j] == b[j] by {
        let i = j / 2;
        assert(pixels(a)[i] == pixels(b)[i]);
        assert(pixels(a)[i] == (a[2 * i] * 256 + a[2 * i + 1]) as u16);
        assert(pixels(b)[i] == (b[2 * i] * 256 + b[2 * i + 1]) as u16);
        assert(0 <= a[2 * i] * 256 + a[2 * i + 1] < 65536);
        assert(a[2 * i] * 256 + a[2 * i + 1] == b[2 * i] * 256 + b[2 * i + 1]);
        assert(j == 2 * i || j == 2 * i + 1);
    }
    assert(a =~= b);
}

/// Different places on the screen have different pixel indices.
pub proof fn law_pixel_index_injective(x0: int, y0: int, x1: int, y1: int)
    requires
        on_screen(x0, y0),
        on_screen(x1, y1),
        pixel_index(x0, y0) == pixel_index(x1, y1),
    ensures
        x0 == x1,
        y0 == y1,
{
}

/// The high and the low byte of `color`.
pub fn split_color(color: u16) -> (r: (u8, u8))
    ensures
        r.0 * 256 + r.1 == color,
        r.0 == color / 256,
        r.1 == color % 256,
{
    let hi: u8 = (color >> 8) as u8;
    let lo: u8 = (color & 0xff) as u8;
    assert((color >> 8) == color / 256 && (color >> 8) <= 255 && (color & 0xff) == color % 256
        && (color & 0xff) <= 255) by (bit_vector);
    (hi, lo)
}

/// Packs 8-bit red, green and blue into RGB565 by dropping the low bits.
pub fn rgb565(r: u8, g: u8, b: u8) -> (color: u16)
    ensures
        color == (r / 8) * 2048 + (g / 4) * 32 + b / 8,
{
    let color: u16 = ((r as u16 & 0xF8) << 8) | ((g as u16 & 0xFC) << 3) | (b as u16 >> 3);
    assert(((r as u16 & 0xF8) << 8) | ((g as u16 & 0xFC) << 3) | (b as u16 >> 3) == (r / 8) * 2048 + (
    g / 4) * 32 + b / 8) by (bit_vector);
    color
}

/// Writes one pixel, high byte first.
pub fn put_pixel(fb: &mut [u8; FB_BYTES], x: usize, y: usize, color: u16)
    requires
        x < W,
        y < H,
    ensures
        pixels(final(fb)@) == pixels(old(fb)@).update(pixel_index(x as int, y as int), color),
{
    let idx: usize = (y * W + x) * 2;
    let (hi, lo) = split_color(color);
    fb[idx] = hi;
    fb[idx + 1] = lo;
    assert(pixels(fb@) =~= pixels(old(fb)@).update(pixel_index(x as int, y as int), color));
}

/// Sets every pixel to black.
pub fn clear(fb: &mut [u8; FB_BYTES])
    ensures
        pixels(final(fb)@) == solid(0),
{
    let mut i: usize = 0;
    while i < FB_BYTES
        invariant
            i <= FB_BYTES,
            forall|j: int| 0 <= j < i ==> fb@[j] == 0,
        decreases FB_BYTES - i,
    {
        fb[i] = 0;
        i = i + 1;
    }
    assert(pixels(fb@) =~= solid(0));
}

/// A pixel is two bytes, the high one first, and no other bytes.
pub proof fn law_pixel_is_two_bytes(fb: Seq<u8>, i: int)
    requires
        fb.len() == FB_BYTES,
        0 <= i < PIXELS,
    ensures
        pixels(fb).len() == PIXELS,
        pixels(fb)[i] / 256 == fb[2 * i],
        pixels(fb)[i] % 256 == fb[2 * i + 1],
{
    assert(0 <= fb[2 * i] * 256 + fb[2 * i + 1] < 65536);
}

/// Pixels lie row by row: one to the right is the next, one down is 160 further.
pub proof fn law_pixels_lie_row_by_row(x: int, y: int)
    ensures
        pixel_index(0, 0) == 0,
        pixel_index(x + 1, y) == pixel_index(x, y) + 1,
        pixel_index(x, y + 1) == pixel_index(x, y) + 160,
        on_screen(x, y) <==> 0 <= x && x <= 159 && 0 <= y && y <= 79,
{
}

} // verus!
