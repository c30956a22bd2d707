//! The triangle rasteriser: integer edge functions, Q16.16 interpolation and a depth buffer.
//!
//! Edge functions and colours are 32-bit values. Depths are wider: a depth of up to 65535 with
//! sixteen bits behind the point needs all of an unsigned 32-bit number, and a ramp leaves that
//! range outside its triangle.

use super::frame::{on_screen, pixel_index, pixels, put_pixel, FB_BYTES, H, PIXELS, W};
use super::wrap::{
    lemma_wrap_keeps, lemma_wrap_product, lemma_wrap_sum, wrap32, wrapping_difference,
    wrapping_product, wrapping_sum,
};
use vstd::prelude::*;

verus! {

/// A quantity that changes linearly over the pixels of a box: its value at the top left corner
/// and what it gains with each pixel to the right and with each row down.
#[derive(Clone, Copy)]
pub struct Ramp {
    pub start: i32,
    pub dx: i32,
    pub dy: i32,
}

impl Ramp {
    /// The value `i` pixels to the right of the corner and `j` rows below it.
    pub open spec fn at(self, i: int, j: int) -> int {
        wrap32(self.start + i * self.dx + j * self.dy)
    }
}

/// A depth that changes linearly over the pixels of a box, with sixteen bits behind the point.
#[derive(Clone, Copy)]
pub struct DepthRamp {
    pub start: i64,
    pub dx: i64,
    pub dy: i64,
}

impl DepthRamp {
    /// The value `i` pixels to the right of the corner and `j` rows below it.
    pub open spec fn at(self, i: int, j: int) -> int {
        self.start + i * self.dx + j * self.dy
    }
}

/// A triangle on the pixel grid: the part of its bounding box that is on the screen, and its
/// three edge functions over that box.
#[derive(Clone, Copy)]
pub struct Triangle {
    pub min_x: i32,
    pub max_x: i32,
    pub min_y: i32,
    pub max_y: i32,
    pub w0: Ramp,
    pub w1: Ramp,
    pub w2: Ramp,
}

/// The edge function of the edge from `p` to `q`: positive on one side of the edge, negative on
/// the other, zero on it.
pub open spec fn edge(p: (int, int), q: (int, int), x: int, y: int) -> int {
    (p.1 - q.1) * x + (q.0 - p.0) * y + (p.0 * q.1 - q.0 * p.1)
}

/// The larger of two numbers.
pub open spec fn max_of(a: int, b: int) -> int {
    if a >= b {
        a
    } else {
        b
    }
}

/// The smaller of two numbers.
pub open spec fn min_of(a: int, b: int) -> int {
    if a <= b {
        a
    } else {
        b
    }
}

/// The edge function of the edge from `p` to `q` over a box with the corner `(x, y)`.
pub open spec fn is_edge_ramp(r: Ramp, p: (i32, i32), q: (i32, i32), x: int, y: int) -> bool {
    &&& r.dx == wrap32(p.1 - q.1)
    &&& r.dy == wrap32(q.0 - p.0)
    &&& r.start == wrap32(edge((p.0 as int, p.1 as int), (q.0 as int, q.1 as int), x, y))
}

impl Triangle {
    /// The box is not empty and lies on the screen.
    pub open spec fn wf(self) -> bool {
        &&& 0 <= self.min_x <= self.max_x < W
        &&& 0 <= self.min_y <= self.max_y < H
    }

    /// Whether `(x, y)` lies in the box.
    pub open spec fn in_box(self, x: int, y: int) -> bool {
        self.min_x <= x <= self.max_x && self.min_y <= y <= self.max_y
    }

    /// The value of the ramp `r` at the pixel `(x, y)`.
    pub open spec fn value(self, r: Ramp, x: int, y: int) -> int {
        r.at(x - self.min_x, y - self.min_y)
    }

    /// The value of the depth ramp `r` at the pixel `(x, y)`.
    pub open spec fn depth_value(self, r: DepthRamp, x: int, y: int) -> int {
        r.at(x - self.min_x, y - self.min_y)
    }

    /// Whether the pixel `(x, y)` is in the box and on the inner side of all three edges.
    pub open spec fn covers(self, x: int, y: int) -> bool {
        &&& self.in_box(x, y)
        &&& self.value(self.w0, x, y) >= 0
        &&& self.value(self.w1, x, y) >= 0
        &&& self.value(self.w2, x, y) >= 0
    }

    /// Whether this is the triangle with the corners `v0`, `v1` and `v2`, clipped to the box that
    /// reaches from `lo` to `hi`.
    pub open spec fn is_of(
        self,
        v0: (i32, i32),
        v1: (i32, i32),
        v2: (i32, i32),
        lo: (i32, i32),
        hi: (i32, i32),
    ) -> bool {
        &&& self.min_x == max_of(lo.0 as int, 0)
        &&& self.max_x == min_of(hi.0 as int, W - 1)
        &&& self.min_y == max_of(lo.1 as int, 0)
        &&& self.max_y == min_of(hi.1 as int, H - 1)
        &&& is_edge_ramp(self.w0, v1, v2, self.min_x as int, self.min_y as int)
        &&& is_edge_ramp(self.w1, v2, v0, self.min_x as int, self.min_y as int)
        &&& is_edge_ramp(self.w2, v0, v1, self.min_x as int, self.min_y as int)
    }
}

/// An edge ramp takes, at every pixel of the plane, the value of its edge function.
pub proof fn law_edge_ramp_is_edge_function(
    r: Ramp,
    p: (i32, i32),
    q: (i32, i32),
    x0: int,
    y0: int,
    x: int,
    y: int,
)
    requires
        is_edge_ramp(r, p, q, x0, y0),
    ensures
        r.at(x - x0, y - y0) == wrap32(
            edge((p.0 as int, p.1 as int), (q.0 as int, q.1 as int), x, y),
        ),
{
    let pp = (p.0 as int, p.1 as int);
    let qq = (q.0 as int, q.1 as int);
    let a = pp.1 - qq.1;
    let b = qq.0 - pp.0;
    let c = pp.0 * qq.1 - qq.0 * pp.1;
    let i = x - x0;
    let j = y - y0;
    let e0 = a * x0 + b * y0 + c;
    assert(edge(pp, qq, x0, y0) == e0);
    assert(edge(pp, qq, x, y) == e0 + i * a + j * b) by (nonlinear_arith)
        requires
            edge(pp, qq, x, y) == a * x + b * y + c,
            e0 == a * x0 + b * y0 + c,
            i == x - x0,
            j == y - y0,
    ;
    let s1 = i * r.dx;
    let s2 = j * r.dy;
    lemma_wrap_product(i, a);
    lemma_wrap_product(j, b);
    assert(wrap32(s1) == wrap32(i * a));
    assert(wrap32(s2) == wrap32(j * b));
    lemma_wrap_sum(e0, s1 + s2);
    assert(r.at(i, j) == wrap32(wrap32(e0) + (s1 + s2)));
    assert(r.at(i, j) == wrap32(e0 + s1 + s2));
    lemma_wrap_sum(e0 + s2, s1);
    lemma_wrap_sum(e0 + s2, i * a);
    assert(wrap32(e0 + s2 + s1) == wrap32(e0 + s2 + i * a));
    lemma_wrap_sum(e0 + i * a, s2);
    lemma_wrap_sum(e0 + i * a, j * b);
}

/// Where no edge function leaves the 32-bit range, the pixels that a triangle covers are those of
/// its box at which all three edge functions are non-negative.
pub proof fn law_covers_is_half_space_test(
    t: Triangle,
    v0: (i32, i32),
    v1: (i32, i32),
    v2: (i32, i32),
    lo: (i32, i32),
    hi: (i32, i32),
    x: int,
    y: int,
)
    requires
        t.is_of(v0, v1, v2, lo, hi),
        ({
            let p0 = (v0.0 as int, v0.1 as int);
            let p1 = (v1.0 as int, v1.1 as int);
            let p2 = (v2.0 as int, v2.1 as int);
            &&& i32::MIN <= edge(p1, p2, x, y) <= i32::MAX
            &&& i32::MIN <= edge(p2, p0, x, y) <= i32::MAX
            &&& i32::MIN <= edge(p0, p1, x, y) <= i32::MAX
        }),
    ensures
        ({
            let p0 = (v0.0 as int, v0.1 as int);
            let p1 = (v1.0 as int, v1.1 as int);
            let p2 = (v2.0 as int, v2.1 as int);
            t.covers(x, y) <==> (t.in_box(x, y) && edge(p1, p2, x, y) >= 0 && edge(p2, p0, x, y)
                >= 0 && edge(p0, p1, x, y) >= 0)
        }),
{
    law_edge_ramp_is_edge_function(t.w0, v1, v2, t.min_x as int, t.min_y as int, x, y);
    law_edge_ramp_is_edge_function(t.w1, v2, v0, t.min_x as int, t.min_y as int, x, y);
    law_edge_ramp_is_edge_function(t.w2, v0, v1, t.min_x as int, t.min_y as int, x, y);
}

fn edge_ramp(p: (i32, i32), q: (i32, i32), x: i32, y: i32) -> (r: Ramp)
    ensures
        is_edge_ramp(r, p, q, x as int, y as int),
{
    let a: i32 = wrapping_difference(p.1, q.1);
    let b: i32 = wrapping_difference(q.0, p.0);
    let pq: i32 = wrapping_product(p.0, q.1);
    let qp: i32 = wrapping_product(q.0, p.1);
    let c: i32 = wrapping_difference(pq, qp);
    let ax: i32 = wrapping_product(a, x);
    let by: i32 = wrapping_product(b, y);
    let ab: i32 = wrapping_sum(ax, by);
    let start: i32 = wrapping_sum(ab, c);
    proof {
        let (p0, p1, q0, q1) = (p.0 as int, p.1 as int, q.0 as int, q.1 as int);
        let (xx, yy) = (x as int, y as int);
        lemma_wrap_product(p1 - q1, xx);
        lemma_wrap_product(q0 - p0, yy);
        assert(ax == wrap32((p1 - q1) * xx));
        assert(by == wrap32((q0 - p0) * yy));
        lemma_wrap_sum((p1 - q1) * xx, by as int);
        lemma_wrap_sum((p1 - q1) * xx, (q0 - p0) * yy);
        assert(ab == wrap32((p1 - q1) * xx + (q0 - p0) * yy));
        lemma_wrap_sum(p0 * q1, -qp);
        assert(c == wrap32(p0 * q1 - qp));
        lemma_wrap_product(-1, q0 * p1);
        lemma_wrap_sum(p0 * q1, -(qp as int));
        lemma_wrap_sum(p0 * q1, -(q0 * p1));
        assert(wrap32(-(qp as int)) == wrap32(-(q0 * p1)));
        assert(c == wrap32(p0 * q1 - q0 * p1));
        lemma_wrap_sum((p1 - q1) * xx + (q0 - p0) * yy, c as int);
        lemma_wrap_sum((p1 - q1) * xx + (q0 - p0) * yy, p0 * q1 - q0 * p1);
    }
    Ramp { start, dx: a, dy: b }
}

/// Clips the box from `lo` to `hi` to the screen and sets up the edge functions of the triangle
/// `v0`, `v1`, `v2` over what remains; `None` where nothing remains.
pub fn setup_triangle(
    v0: (i32, i32),
    v1: (i32, i32),
    v2: (i32, i32),
    lo: (i32, i32),
    hi: (i32, i32),
) -> (r: Option<Triangle>)
    ensures
        match r {
            Some(t) => t.wf() && t.is_of(v0, v1, v2, lo, hi),
            None => max_of(lo.0 as int, 0) > min_of(hi.0 as int, W - 1) || max_of(lo.1 as int, 0)
                > min_of(hi.1 as int, H - 1),
        },
{
    let min_x: i32 = if lo.0 >= 0 {
        lo.0
    } else {
        0
    };
    let max_x: i32 = if hi.0 <= W as i32 - 1 {
        hi.0
    } else {
        W as i32 - 1
    };
    let min_y: i32 = if lo.1 >= 0 {
        lo.1
    } else {
        0
    };
    let max_y: i32 = if hi.1 <= H as i32 - 1 {
        hi.1
    } else {
        H as i32 - 1
    };
    if min_x > max_x || min_y > max_y {
        return None;
    }
    let w0 = edge_ramp(v1, v2, min_x, min_y);
    let w1 = edge_ramp(v2, v0, min_x, min_y);
    let w2 = edge_ramp(v0, v1, min_x, min_y);
    Some(Triangle { min_x, max_x, min_y, max_y, w0, w1, w2 })
}

/// The integer part of the Q16.16 value `v`, brought into the range from 0 to `top`.
pub open spec fn fixed_part(v: int, top: int) -> int {
    let whole = v / 65536;
    if whole < 0 {
        0
    } else if whole > top {
        top
    } else {
        whole
    }
}

/// The colour of a fragment from its Q16.16 texture coordinates and light: red is `u` and green
/// is `v`, each dimmed by the light, with a blue tint of a quarter of the light.
pub open spec fn fragment_color(u: int, v: int, l: int) -> u16 {
    let light = fixed_part(l, 255);
    let red = fixed_part(u, 255) * light / 256;
    let green = fixed_part(v, 255) * light / 256;
    let blue = light / 4;
    ((red / 8) * 2048 + (green / 4) * 32 + blue / 8) as u16
}

/// What is interpolated over a triangle besides its edge functions.
#[derive(Clone, Copy)]
pub struct Attributes {
    pub z: DepthRamp,
    pub u: Ramp,
    pub v: Ramp,
    pub light: Ramp,
}

/// The 16-bit depth of the triangle at `(x, y)`.
pub open spec fn depth(t: Triangle, at: Attributes, x: int, y: int) -> u16 {
    fixed_part(t.depth_value(at.z, x, y), 65535) as u16
}

/// The colour of the triangle at `(x, y)`.
pub open spec fn color(t: Triangle, at: Attributes, x: int, y: int) -> u16 {
    fragment_color(t.value(at.u, x, y), t.value(at.v, x, y), t.value(at.light, x, y))
}

/// Whether the triangle shows at pixel `i` of a screen with the depths `zb`: it covers the pixel
/// and is nearer there than what was drawn before.
pub open spec fn shows(t: Triangle, at: Attributes, zb: Seq<u16>, i: int) -> bool {
    let x = i % (W as int);
    let y = i / (W as int);
    t.covers(x, y) && depth(t, at, x, y) < zb[i]
}

/// The depths after the triangle is drawn into the first `n` pixels.
pub open spec fn depths_after(t: Triangle, at: Attributes, zb: Seq<u16>, n: int) -> Seq<u16> {
    Seq::new(
        zb.len(),
        |i: int|
            if i < n && shows(t, at, zb, i) {
                depth(t, at, i % (W as int), i / (W as int))
            } else {
                zb[i]
            },
    )
}

/// The colours after the triangle is drawn into the first `n` pixels of the screen `px` with the
/// depths `zb`.
pub open spec fn colors_after(
    t: Triangle,
    at: Attributes,
    px: Seq<u16>,
    zb: Seq<u16>,
    n: int,
) -> Seq<u16> {
    Seq::new(
        px.len(),
        |i: int|
            if i < n && shows(t, at, zb, i) {
                color(t, at, i % (W as int), i / (W as int))
            } else {
                px[i]
            },
    )
}

/// At how many of the first `n` pixels the triangle shows.
pub open spec fn shown_count(t: Triangle, at: Attributes, zb: Seq<u16>, n: int) -> nat
    decreases n,
{
    if n <= 0 {
        0
    } else {
        shown_count(t, at, zb, n - 1) + if shows(t, at, zb, n - 1) {
            1nat
        } else {
            0nat
        }
    }
}

/// Pixels at which the triangle does not show change nothing.
proof fn lemma_skip(t: Triangle, at: Attributes, px: Seq<u16>, zb: Seq<u16>, m: int, n: int)
    requires
        0 <= m <= n,
        forall|i: int| m <= i < n ==> !shows(t, at, zb, i),
    ensures
        depths_after(t, at, zb, m) == depths_after(t, at, zb, n),
        colors_after(t, at, px, zb, m) == colors_after(t, at, px, zb, n),
        shown_count(t, at, zb, m) == shown_count(t, at, zb, n),
    decreases n - m,
{
    if m < n {
        lemma_skip(t, at, px, zb, m, n - 1);
    }
    assert(depths_after(t, at, zb, m) =~= depths_after(t, at, zb, n));
    assert(colors_after(t, at, px, zb, m) =~= colors_after(t, at, px, zb, n));
}

proof fn lemma_shown_count_bound(t: Triangle, at: Attributes, zb: Seq<u16>, n: int)
    requires
        0 <= n,
    ensures
        shown_count(t, at, zb, n) <= n,
    decreases n,
{
    if n > 0 {
        lemma_shown_count_bound(t, at, zb, n - 1);
    }
}

proof fn lemma_ramp_steps(r: Ramp, i: int, j: int)
    ensures
        wrap32(r.at(i, j) + r.dx) == r.at(i + 1, j),
        wrap32(r.at(i, j) + r.dy) == r.at(i, j + 1),
        r.at(0, 0) == r.start,
{
    let v = r.start + i * r.dx + j * r.dy;
    lemma_wrap_sum(v, r.dx as int);
    lemma_wrap_sum(v, r.dy as int);
    assert((i + 1) * r.dx == i * r.dx + r.dx) by (nonlinear_arith);
    assert((j + 1) * r.dy == j * r.dy + r.dy) by (nonlinear_arith);
    assert(0 * r.dx == 0 && 0 * r.dy == 0);
    lemma_wrap_keeps(r.start as int);
}

fn whole_part(v: i32, top: i32) -> (r: i32)
    requires
        0 <= top,
    ensures
        r == fixed_part(v as int, top as int),
        0 <= r <= top,
{
    let whole: i32 = v >> 16;
    assert((v >> 16) * 65536 <= v && v < (v >> 16) * 65536 + 65536) by (bit_vector);
    assert(whole == v as int / 65536);
    if whole < 0 {
        0
    } else if whole > top {
        top
    } else {
        whole
    }
}

fn whole_depth(v: i128) -> (r: u16)
    ensures
        r == fixed_part(v as int, 65535),
{
    if v < 0 {
        0
    } else if v >= 0x1_0000_0000 {
        65535
    } else {
        (v as u64 / 65536) as u16
    }
}

/// The fragment shader.
pub fn shade(u: i32, v: i32, l: i32) -> (color: u16)
    ensures
        color == fragment_color(u as int, v as int, l as int),
{
    let u8_v: u32 = whole_part(u, 255) as u32;
    let v8_v: u32 = whole_part(v, 255) as u32;
    let l8_v: u32 = whole_part(l, 255) as u32;
    assert(u8_v * l8_v <= 255 * 255) by (nonlinear_arith)
        requires
            u8_v <= 255,
            l8_v <= 255,
    ;
    assert(v8_v * l8_v <= 255 * 255) by (nonlinear_arith)
        requires
            v8_v <= 255,
            l8_v <= 255,
    ;
    let ul: u32 = u8_v * l8_v;
    let vl: u32 = v8_v * l8_v;
    let r: u32 = ul >> 8;
    let g: u32 = vl >> 8;
    let b: u32 = l8_v >> 2;
    assert(ul >> 8 == ul / 256) by (bit_vector);
    assert(vl >> 8 == vl / 256) by (bit_vector);
    assert(l8_v >> 2 == l8_v / 4) by (bit_vector);
    let color: u16 = (((r & 0xF8) as u16) << 8) | (((g & 0xFC) as u16) << 3) | ((b as u16 & 0xF8)
        >> 3);
    assert((((r & 0xF8) as u16) << 8) | (((g & 0xFC) as u16) << 3) | ((b as u16 & 0xF8) >> 3) == (r
        / 8) * 2048 + (g / 4) * 32 + b / 8) by (bit_vector)
        requires
            r <= 255,
            g <= 255,
            b <= 63,
    ;
    color
}

proof fn lemma_all_non_negative(a: i32, b: i32, c: i32)
    ensures
        (a | b | c) >= 0 <==> (a >= 0 && b >= 0 && c >= 0),
{
    assert((a | b | c) >= 0 <==> (a >= 0 && b >= 0 && c >= 0)) by (bit_vector);
}

/// The values of all ramps at one pixel.
struct Cursor {
    w0: i32,
    w1: i32,
    w2: i32,
    z: i128,
    u: i32,
    v: i32,
    l: i32,
}

impl Cursor {
    /// Whether these are the values `i` pixels to the right of the corner and `j` rows below it.
    spec fn is_at(self, t: Triangle, at: Attributes, i: int, j: int) -> bool {
        &&& self.w0 == t.w0.at(i, j)
        &&& self.w1 == t.w1.at(i, j)
        &&& self.w2 == t.w2.at(i, j)
        &&& self.z == at.z.at(i, j)
        &&& self.u == at.u.at(i, j)
        &&& self.v == at.v.at(i, j)
        &&& self.l == at.light.at(i, j)
    }

    fn at_corner(t: &Triangle, at: &Attributes) -> (c: Cursor)
        ensures
            c.is_at(*t, *at, 0, 0),
    {
        proof {
            lemma_cursor_steps(0, 0);
        }
        Cursor {
            w0: t.w0.start,
            w1: t.w1.start,
            w2: t.w2.start,
            z: at.z.start as i128,
            u: at.u.start,
            v: at.v.start,
            l: at.light.start,
        }
    }

    fn right(&self, t: &Triangle, at: &Attributes, Ghost(i): Ghost<int>, Ghost(j): Ghost<int>) -> (c:
        Cursor)
        requires
            self.is_at(*t, *at, i, j),
            0 <= i < W,
            0 <= j < H,
        ensures
            c.is_at(*t, *at, i + 1, j),
    {
        proof {
            lemma_cursor_steps(i, j);
            lemma_depth_steps(at.z, i, j);
        }
        Cursor {
            w0: wrapping_sum(self.w0, t.w0.dx),
            w1: wrapping_sum(self.w1, t.w1.dx),
            w2: wrapping_sum(self.w2, t.w2.dx),
            z: self.z + at.z.dx as i128,
            u: wrapping_sum(self.u, at.u.dx),
            v: wrapping_sum(self.v, at.v.dx),
            l: wrapping_sum(self.l, at.light.dx),
        }
    }

    fn down(&self, t: &Triangle, at: &Attributes, Ghost(i): Ghost<int>, Ghost(j): Ghost<int>) -> (c:
        Cursor)
        requires
            self.is_at(*t, *at, i, j),
            0 <= i < W,
            0 <= j < H,
        ensures
            c.is_at(*t, *at, i, j + 1),
    {
        proof {
            lemma_cursor_steps(i, j);
            lemma_depth_steps(at.z, i, j);
        }
        Cursor {
            w0: wrapping_sum(self.w0, t.w0.dy),
            w1: wrapping_sum(self.w1, t.w1.dy),
            w2: wrapping_sum(self.w2, t.w2.dy),
            z: self.z + at.z.dy as i128,
            u: wrapping_sum(self.u, at.u.dy),
            v: wrapping_sum(self.v, at.v.dy),
            l: wrapping_sum(self.l, at.light.dy),
        }
    }
}

/// A depth ramp stays far within 128 bits over the screen.
proof fn lemma_depth_steps(r: DepthRamp, i: int, j: int)
    requires
        0 <= i < W,
        0 <= j < H,
    ensures
        r.at(i + 1, j) == r.at(i, j) + r.dx,
        r.at(i, j + 1) == r.at(i, j) + r.dy,
        -0x100_0000_0000_0000_0000 <= r.at(i, j) <= 0x100_0000_0000_0000_0000,
{
    let (dx, dy) = (r.dx as int, r.dy as int);
    assert((i + 1) * dx == i * dx + dx) by (nonlinear_arith);
    assert((j + 1) * dy == j * dy + dy) by (nonlinear_arith);
    assert(-160 * 0x8000_0000_0000_0000 <= i * dx <= 160 * 0x8000_0000_0000_0000)
        by (nonlinear_arith)
        requires
            0 <= i < 160,
            -0x8000_0000_0000_0000 <= dx <= 0x8000_0000_0000_0000,
    ;
    assert(-80 * 0x8000_0000_0000_0000 <= j * dy <= 80 * 0x8000_0000_0000_0000)
        by (nonlinear_arith)
        requires
            0 <= j < 80,
            -0x8000_0000_0000_0000 <= dy <= 0x8000_0000_0000_0000,
    ;
}

proof fn lemma_cursor_steps(i: int, j: int)
    ensures
        forall|r: Ramp| #[trigger] r.at(0, 0) == r.start,
        forall|r: Ramp| #[trigger] r.at(i + 1, j) == wrap32(r.at(i, j) + r.dx),
        forall|r: Ramp| #[trigger] r.at(i, j + 1) == wrap32(r.at(i, j) + r.dy),
{
    assert forall|r: Ramp| #[trigger] r.at(0, 0) == r.start by {
        lemma_ramp_steps(r, 0, 0);
    }
    assert forall|r: Ramp| #[trigger] r.at(i + 1, j) == wrap32(r.at(i, j) + r.dx) by {
        lemma_ramp_steps(r, i, j);
    }
    assert forall|r: Ramp| #[trigger] r.at(i, j + 1) == wrap32(r.at(i, j) + r.dy) by {
        lemma_ramp_steps(r, i, j);
    }
}

/// Drawing the pixel `(x, y)`, after all pixels before it.
proof fn lemma_pixel(
    t: Triangle,
    at: Attributes,
    px: Seq<u16>,
    zb: Seq<u16>,
    x: int,
    y: int,
)
    requires
        px.len() == PIXELS,
        zb.len() == PIXELS,
        on_screen(x, y),
    ensures
        ({
            let i = pixel_index(x, y);
            &&& 0 <= i < PIXELS
            &&& i % (W as int) == x
            &&& i / (W as int) == y
            &&& depths_after(t, at, zb, i)[i] == zb[i]
            &&& shows(t, at, zb, i) ==> {
                &&& depths_after(t, at, zb, i + 1) == depths_after(t, at, zb, i).update(
                    i,
                    depth(t, at, x, y),
                )
                &&& colors_after(t, at, px, zb, i + 1) == colors_after(t, at, px, zb, i).update(
                    i,
                    color(t, at, x, y),
                )
                &&& shown_count(t, at, zb, i + 1) == shown_count(t, at, zb, i) + 1
            }
            &&& !shows(t, at, zb, i) ==> {
                &&& depths_after(t, at, zb, i + 1) == depths_after(t, at, zb, i)
                &&& colors_after(t, at, px, zb, i + 1) == colors_after(t, at, px, zb, i)
                &&& shown_count(t, at, zb, i + 1) == shown_count(t, at, zb, i)
            }
        }),
{
    let i = pixel_index(x, y);
    assert(i % (W as int) == x && i / (W as int) == y);
    if shows(t, at, zb, i) {
        assert(depths_after(t, at, zb, i + 1) =~= depths_after(t, at, zb, i).update(
            i,
            depth(t, at, x, y),
        ));
        assert(colors_after(t, at, px, zb, i + 1) =~= colors_after(t, at, px, zb, i).update(
            i,
            color(t, at, x, y),
        ));
    } else {
        lemma_skip(t, at, px, zb, i, i + 1);
    }
}

/// Draws one row of the triangle and returns how many pixels were written.
fn rasterise_row(
    framebuffer: &mut [u8; FB_BYTES],
    z_buffer: &mut [u16; PIXELS],
    t: &Triangle,
    at: &Attributes,
    py: i32,
    row: Cursor,
    Ghost(px0): Ghost<Seq<u16>>,
    Ghost(zb0): Ghost<Seq<u16>>,
    count: u32,
) -> (r: u32)
    requires
        t.wf(),
        t.min_y <= py <= t.max_y,
        row.is_at(*t, *at, 0, py - t.min_y),
        px0.len() == PIXELS,
        zb0.len() == PIXELS,
        old(z_buffer)@ == depths_after(*t, *at, zb0, pixel_index(t.min_x as int, py as int)),
        pixels(old(framebuffer)@) == colors_after(
            *t,
            *at,
            px0,
            zb0,
            pixel_index(t.min_x as int, py as int),
        ),
        count == shown_count(*t, *at, zb0, pixel_index(t.min_x as int, py as int)),
    ensures
        final(z_buffer)@ == depths_after(*t, *at, zb0, pixel_index(t.max_x + 1, py as int)),
        pixels(final(framebuffer)@) == colors_after(
            *t,
            *at,
            px0,
            zb0,
            pixel_index(t.max_x + 1, py as int),
        ),
        r == shown_count(*t, *at, zb0, pixel_index(t.max_x + 1, py as int)),
{
    let mut px: i32 = t.min_x;
    let mut c = row;
    let mut n: u32 = count;
    let row_start: usize = py as usize * W;
    while px <= t.max_x
        invariant
            t.wf(),
            t.min_y <= py <= t.max_y,
            t.min_x <= px <= t.max_x + 1,
            row_start == py * W,
            c.is_at(*t, *at, px - t.min_x, py - t.min_y),
            px0.len() == PIXELS,
            zb0.len() == PIXELS,
            z_buffer@ == depths_after(*t, *at, zb0, pixel_index(px as int, py as int)),
            pixels(framebuffer@) == colors_after(
                *t,
                *at,
                px0,
                zb0,
                pixel_index(px as int, py as int),
            ),
            n == shown_count(*t, *at, zb0, pixel_index(px as int, py as int)),
        decreases t.max_x + 1 - px,
    {
        proof {
            lemma_pixel(*t, *at, px0, zb0, px as int, py as int);
            lemma_all_non_negative(c.w0, c.w1, c.w2);
            lemma_shown_count_bound(*t, *at, zb0, pixel_index(px as int, py as int));
        }
        if (c.w0 | c.w1 | c.w2) >= 0 {
            let idx: usize = row_start + px as usize;
            let z16: u16 = whole_depth(c.z);
            let prev_z: u16 = z_buffer[idx];
            if z16 < prev_z {
                z_buffer[idx] = z16;
                let color: u16 = shade(c.u, c.v, c.l);
                put_pixel(framebuffer, px as usize, py as usize, color);
                n = n + 1;
            }
        }
        c = c.right(t, at, Ghost(px - t.min_x), Ghost(py - t.min_y));
        px = px + 1;
    }
    n
}

/// Draws one triangle. A pixel that the triangle covers, and at which it is nearer than what the
/// depth buffer holds, gets the colour and the depth of the triangle there; all other pixels stay
/// as they are. `pixels_filled` grows by the number of pixels written and wraps around.
pub fn rasterise_triangle(
    framebuffer: &mut [u8; FB_BYTES],
    z_buffer: &mut [u16; PIXELS],
    t: &Triangle,
    at: &Attributes,
    pixels_filled: &mut u32,
)
    requires
        t.wf(),
    ensures
        final(z_buffer)@ == depths_after(*t, *at, old(z_buffer)@, PIXELS as int),
        pixels(final(framebuffer)@) == colors_after(
            *t,
            *at,
            pixels(old(framebuffer)@),
            old(z_buffer)@,
            PIXELS as int,
        ),
        *final(pixels_filled) == (*old(pixels_filled) + shown_count(
            *t,
            *at,
            old(z_buffer)@,
            PIXELS as int,
        )) % 0x1_0000_0000,
{
    let ghost px0 = pixels(framebuffer@);
    let ghost zb0 = z_buffer@;
    let mut py: i32 = t.min_y;
    let mut row = Cursor::at_corner(t, at);
    let mut local_pixels: u32 = 0;
    proof {
        lemma_skip(*t, *at, px0, zb0, 0, pixel_index(t.min_x as int, py as int));
        assert(depths_after(*t, *at, zb0, 0) =~= zb0);
        assert(colors_after(*t, *at, px0, zb0, 0) =~= px0);
    }
    while py <= t.max_y
        invariant
            t.wf(),
            t.min_y <= py <= t.max_y + 1,
            row.is_at(*t, *at, 0, py - t.min_y),
            px0.len() == PIXELS,
            zb0.len() == PIXELS,
            z_buffer@ == depths_after(*t, *at, zb0, pixel_index(t.min_x as int, py as int)),
            pixels(framebuffer@) == colors_after(
                *t,
                *at,
                px0,
                zb0,
                pixel_index(t.min_x as int, py as int),
            ),
            local_pixels == shown_count(*t, *at, zb0, pixel_index(t.min_x as int, py as int)),
        decreases t.max_y + 1 - py,
    {
        let next_row = row.down(t, at, Ghost(0), Ghost(py - t.min_y));
        local_pixels = rasterise_row(
            framebuffer,
            z_buffer,
            t,
            at,
            py,
            row,
            Ghost(px0),
            Ghost(zb0),
            local_pixels,
        );
        proof {
            let m = pixel_index(t.max_x + 1, py as int);
            let n = pixel_index(t.min_x as int, py + 1);
            assert forall|i: int| m <= i < n implies !shows(*t, *at, zb0, i) by {
                let x = i % (W as int);
                let y = i / (W as int);
                assert(i == y * W + x && 0 <= x < W);
            }
            lemma_skip(*t, *at, px0, zb0, m, n);
        }
        row = next_row;
        py = py + 1;
    }
    proof {
        let m = pixel_index(t.min_x as int, py as int);
        if m <= PIXELS {
            lemma_skip(*t, *at, px0, zb0, m, PIXELS as int);
        } else {
            lemma_skip(*t, *at, px0, zb0, PIXELS as int, m);
        }
    }
    *pixels_filled = pixels_filled.wrapping_add(local_pixels);
}

/// The depth buffer keeps what is nearest: where the triangle covers a pixel, the new depth is the
/// smaller of the two, and nowhere does a depth grow.
pub proof fn law_nearest_depth_is_kept(t: Triangle, at: Attributes, zb: Seq<u16>, i: int)
    requires
        zb.len() == PIXELS,
        0 <= i < PIXELS,
    ensures
        ({
            let x = i % (W as int);
            let y = i / (W as int);
            let z = depths_after(t, at, zb, PIXELS as int)[i];
            &&& z <= zb[i]
            &&& t.covers(x, y) ==> z == min_of(zb[i] as int, depth(t, at, x, y) as int)
            &&& !t.covers(x, y) ==> z == zb[i]
        }),
{
}

/// Depths keep their order over the whole range of the depth buffer: the depth of a triangle is the
/// integer part of its ramp, brought into the range from 0 to 65535, so that of two triangles the
/// nearer one never has the larger depth.
pub proof fn law_depths_keep_their_order(
    t1: Triangle,
    at1: Attributes,
    t2: Triangle,
    at2: Attributes,
    x: int,
    y: int,
)
    requires
        t1.depth_value(at1.z, x, y) <= t2.depth_value(at2.z, x, y),
    ensures
        depth(t1, at1, x, y) <= depth(t2, at2, x, y),
        0 <= t1.depth_value(at1.z, x, y) < 65536 * 65536 ==> depth(t1, at1, x, y)
            == t1.depth_value(at1.z, x, y) / 65536,
{
}

/// Hidden surfaces are removed: where two triangles cover a pixel, and one is nearer than the other
/// and than what was drawn before, that one shows, whichever of the two is drawn first.
pub proof fn law_nearer_triangle_hides_the_other(
    near: Triangle,
    at_near: Attributes,
    far: Triangle,
    at_far: Attributes,
    px: Seq<u16>,
    zb: Seq<u16>,
    i: int,
)
    requires
        px.len() == PIXELS,
        zb.len() == PIXELS,
        0 <= i < PIXELS,
        near.covers(i % (W as int), i / (W as int)),
        far.covers(i % (W as int), i / (W as int)),
        depth(near, at_near, i % (W as int), i / (W as int)) < depth(
            far,
            at_far,
            i % (W as int),
            i / (W as int),
        ),
        depth(near, at_near, i % (W as int), i / (W as int)) < zb[i],
    ensures
        ({
            let n = PIXELS as int;
            let shown = color(near, at_near, i % (W as int), i / (W as int));
            let near_first = colors_after(
                far,
                at_far,
                colors_after(near, at_near, px, zb, n),
                depths_after(near, at_near, zb, n),
                n,
            );
            let far_first = colors_after(
                near,
                at_near,
                colors_after(far, at_far, px, zb, n),
                depths_after(far, at_far, zb, n),
                n,
            );
            near_first[i] == shown && far_first[i] == shown
        }),
{
    law_nearest_depth_is_kept(near, at_near, zb, i);
    law_nearest_depth_is_kept(far, at_far, zb, i);
}

/// The depths that two triangles leave do not depend on the order in which they are drawn.
pub proof fn law_depths_commute(
    t1: Triangle,
    at1: Attributes,
    t2: Triangle,
    at2: Attributes,
    zb: Seq<u16>,
)
    requires
        zb.len() == PIXELS,
    ensures
        ({
            let n = PIXELS as int;
            depths_after(t2, at2, depths_after(t1, at1, zb, n), n) == depths_after(
                t1,
                at1,
                depths_after(t2, at2, zb, n),
                n,
            )
        }),
{
    let n = PIXELS as int;
    let a = depths_after(t2, at2, depths_after(t1, at1, zb, n), n);
    let b = depths_after(t1, at1, depths_after(t2, at2, zb, n), n);
    assert forall|i: int| 0 <= i < PIXELS implies a[i] == b[i] by {
        law_nearest_depth_is_kept(t1, at1, zb, i);
        law_nearest_depth_is_kept(t2, at2, zb, i);
        law_nearest_depth_is_kept(t2, at2, depths_after(t1, at1, zb, n), i);
        law_nearest_depth_is_kept(t1, at1, depths_after(t2, at2, zb, n), i);
    }
    assert(a =~= b);
}

/// A triangle that was just drawn hides itself: drawing it again writes no pixel.
pub proof fn law_redrawing_writes_nothing(t: Triangle, at: Attributes, zb: Seq<u16>, i: int)
    requires
        zb.len() == PIXELS,
        0 <= i < PIXELS,
    ensures
        !shows(t, at, depths_after(t, at, zb, PIXELS as int), i),
{
    law_nearest_depth_is_kept(t, at, zb, i);
}

/// No pixel outside the box of a triangle is written.
pub proof fn law_only_the_box_is_written(
    t: Triangle,
    at: Attributes,
    px: Seq<u16>,
    zb: Seq<u16>,
    i: int,
)
    requires
        px.len() == PIXELS,
        zb.len() == PIXELS,
        0 <= i < PIXELS,
        !t.in_box(i % (W as int), i / (W as int)),
    ensures
        colors_after(t, at, px, zb, PIXELS as int)[i] == px[i],
        depths_after(t, at, zb, PIXELS as int)[i] == zb[i],
{
}

/// At most `PIXELS` pixels are written.
pub proof fn law_shown_count_is_bounded(t: Triangle, at: Attributes, zb: Seq<u16>)
    ensures
        shown_count(t, at, zb, PIXELS as int) <= PIXELS,
{
    lemma_shown_count_bound(t, at, zb, PIXELS as int);
}

/// The edge function is the cross product of the edge with the way from its start to the point: it
/// vanishes at both ends and changes its sign with the direction of the edge.
pub proof fn law_edge_function_is_a_cross_product(p: (int, int), q: (int, int), x: int, y: int)
    ensures
        edge(p, q, x, y) == (q.0 - p.0) * (y - p.1) - (q.1 - p.1) * (x - p.0),
        edge(p, q, p.0, p.1) == 0,
        edge(p, q, q.0, q.1) == 0,
        edge(q, p, x, y) == -edge(p, q, x, y),
{
    let (a, b, c, d) = (p.0, p.1, q.0, q.1);
    assert((c - a) * (y - b) == (c - a) * y - c * b + a * b) by (nonlinear_arith);
    assert((d - b) * (x - a) == -((b - d) * x) - a * d + a * b) by (nonlinear_arith);
    assert((b - d) * a == a * b - a * d) by (nonlinear_arith);
    assert((c - a) * b == c * b - a * b) by (nonlinear_arith);
    assert((b - d) * c == c * b - c * d) by (nonlinear_arith);
    assert((c - a) * d == c * d - a * d) by (nonlinear_arith);
    assert((d - b) * x == -((b - d) * x)) by (nonlinear_arith);
    assert((a - c) * y == -((c - a) * y)) by (nonlinear_arith);
}

/// The box of a triangle is the part of the wanted box that is on the screen.
pub proof fn law_box_is_what_is_on_the_screen(
    t: Triangle,
    v0: (i32, i32),
    v1: (i32, i32),
    v2: (i32, i32),
    lo: (i32, i32),
    hi: (i32, i32),
    x: int,
    y: int,
)
    requires
        t.is_of(v0, v1, v2, lo, hi),
    ensures
        t.in_box(x, y) <==> lo.0 <= x <= hi.0 && lo.1 <= y <= hi.1 && 0 <= x < 160 && 0 <= y < 80,
{
}

/// A triangle covers what lies between its corners: a pixel of its box is covered exactly where it
/// lies on no edge's outer side, and each corner on the screen is covered where the corners run in
/// the direction of the area. Coordinates are those of pictures, so that nothing overflows.
pub proof fn law_triangle_covers_its_corners(
    t: Triangle,
    v0: (i32, i32),
    v1: (i32, i32),
    v2: (i32, i32),
    lo: (i32, i32),
    hi: (i32, i32),
)
    requires
        t.is_of(v0, v1, v2, lo, hi),
        -10_000 <= v0.0 <= 10_000 && -10_000 <= v0.1 <= 10_000,
        -10_000 <= v1.0 <= 10_000 && -10_000 <= v1.1 <= 10_000,
        -10_000 <= v2.0 <= 10_000 && -10_000 <= v2.1 <= 10_000,
        edge(
            (v0.0 as int, v0.1 as int),
            (v1.0 as int, v1.1 as int),
            v2.0 as int,
            v2.1 as int,
        ) >= 0,
    ensures
        t.in_box(v0.0 as int, v0.1 as int) ==> t.covers(v0.0 as int, v0.1 as int),
        t.in_box(v1.0 as int, v1.1 as int) ==> t.covers(v1.0 as int, v1.1 as int),
        t.in_box(v2.0 as int, v2.1 as int) ==> t.covers(v2.0 as int, v2.1 as int),
{
    let p0 = (v0.0 as int, v0.1 as int);
    let p1 = (v1.0 as int, v1.1 as int);
    let p2 = (v2.0 as int, v2.1 as int);
    lemma_corner_is_covered(t, v0, v1, v2, lo, hi, p0);
    lemma_corner_is_covered(t, v0, v1, v2, lo, hi, p1);
    lemma_corner_is_covered(t, v0, v1, v2, lo, hi, p2);
}

proof fn lemma_edge_is_bounded(p: (int, int), q: (int, int), c: (int, int))
    requires
        -10_000 <= p.0 <= 10_000 && -10_000 <= p.1 <= 10_000,
        -10_000 <= q.0 <= 10_000 && -10_000 <= q.1 <= 10_000,
        -10_000 <= c.0 <= 10_000 && -10_000 <= c.1 <= 10_000,
    ensures
        i32::MIN <= edge(p, q, c.0, c.1) <= i32::MAX,
{
    law_edge_function_is_a_cross_product(p, q, c.0, c.1);
    let (a, b) = (q.0 - p.0, c.1 - p.1);
    let (d, e) = (q.1 - p.1, c.0 - p.0);
    assert(-400_000_000 <= a * b <= 400_000_000) by (nonlinear_arith)
        requires
            -20_000 <= a <= 20_000,
            -20_000 <= b <= 20_000,
    ;
    assert(-400_000_000 <= d * e <= 400_000_000) by (nonlinear_arith)
        requires
            -20_000 <= d <= 20_000,
            -20_000 <= e <= 20_000,
    ;
}

proof fn lemma_corner_is_covered(
    t: Triangle,
    v0: (i32, i32),
    v1: (i32, i32),
    v2: (i32, i32),
    lo: (i32, i32),
    hi: (i32, i32),
    c: (int, int),
)
    requires
        t.is_of(v0, v1, v2, lo, hi),
        -10_000 <= v0.0 <= 10_000 && -10_000 <= v0.1 <= 10_000,
        -10_000 <= v1.0 <= 10_000 && -10_000 <= v1.1 <= 10_000,
        -10_000 <= v2.0 <= 10_000 && -10_000 <= v2.1 <= 10_000,
        edge(
            (v0.0 as int, v0.1 as int),
            (v1.0 as int, v1.1 as int),
            v2.0 as int,
            v2.1 as int,
        ) >= 0,
        c == (v0.0 as int, v0.1 as int) || c == (v1.0 as int, v1.1 as int) || c == (
            v2.0 as int,
            v2.1 as int,
        ),
    ensures
        t.in_box(c.0, c.1) ==> t.covers(c.0, c.1),
{
    let p0 = (v0.0 as int, v0.1 as int);
    let p1 = (v1.0 as int, v1.1 as int);
    let p2 = (v2.0 as int, v2.1 as int);
    lemma_edge_is_bounded(p1, p2, c);
    lemma_edge_is_bounded(p2, p0, c);
    lemma_edge_is_bounded(p0, p1, c);
    law_edge_function_is_a_cross_product(p1, p2, c.0, c.1);
    law_edge_function_is_a_cross_product(p2, p0, c.0, c.1);
    law_edge_function_is_a_cross_product(p0, p1, c.0, c.1);
    assert(edge(p1, p2, p0.0, p0.1) == edge(p0, p1, p2.0, p2.1) && edge(p2, p0, p1.0, p1.1) == edge(
        p0,
        p1,
        p2.0,
        p2.1,
    )) by (nonlinear_arith)
        requires
            edge(p1, p2, p0.0, p0.1) == (p1.1 - p2.1) * p0.0 + (p2.0 - p1.0) * p0.1 + (p1.0 * p2.1
                - p2.0 * p1.1),
            edge(p0, p1, p2.0, p2.1) == (p0.1 - p1.1) * p2.0 + (p1.0 - p0.0) * p2.1 + (p0.0 * p1.1
                - p1.0 * p0.1),
            edge(p2, p0, p1.0, p1.1) == (p2.1 - p0.1) * p1.0 + (p0.0 - p2.0) * p1.1 + (p2.0 * p0.1
                - p0.0 * p2.1),
    ;
    law_covers_is_half_space_test(t, v0, v1, v2, lo, hi, c.0, c.1);
}

/// The shader's colour, channel by channel: red is the first texture coordinate and green the
/// second, each times the light, in the five and six bits of their channels, and blue is a quarter
/// of the light. Values outside their range are taken as the nearest in it.
pub proof fn law_fragment_channels(u: int, v: int, l: int)
    requires
        0 <= u < 256 * 65536,
        0 <= v < 256 * 65536,
        0 <= l < 256 * 65536,
    ensures
        ({
            let c = fragment_color(u, v, l);
            let (red, green, blue) = (c as int / 2048, (c as int / 32) % 64, c as int % 32);
            let (uu, vv, ll) = (u / 65536, v / 65536, l / 65536);
            &&& 2048 * red <= uu * ll < 2048 * (red + 1)
            &&& 1024 * green <= vv * ll < 1024 * (green + 1)
            &&& 32 * blue <= ll < 32 * (blue + 1)
        }),
{
    let (uu, vv, ll) = (u / 65536, v / 65536, l / 65536);
    assert(0 <= uu * ll <= 65025) by (nonlinear_arith)
        requires
            0 <= uu <= 255,
            0 <= ll <= 255,
    ;
    assert(0 <= vv * ll <= 65025) by (nonlinear_arith)
        requires
            0 <= vv <= 255,
            0 <= ll <= 255,
    ;
    lemma_packed_channels(uu * ll, vv * ll, ll);
    assert(fragment_color(u, v, l) == packed(uu * ll, vv * ll, ll));
}

/// The channels packed into a colour, from the two products and the light.
spec fn packed(a: int, b: int, l: int) -> int {
    (a / 256 / 8) * 2048 + (b / 256 / 4) * 32 + l / 4 / 8
}

proof fn lemma_packed_channels(a: int, b: int, l: int)
    requires
        0 <= a <= 65025,
        0 <= b <= 65025,
        0 <= l <= 255,
    ensures
        ({
            let c = packed(a, b, l);
            let (red, green, blue) = (c / 2048, (c / 32) % 64, c % 32);
            &&& 0 <= c < 65536
            &&& 2048 * red <= a < 2048 * (red + 1)
            &&& 1024 * green <= b < 1024 * (green + 1)
            &&& 32 * blue <= l < 32 * (blue + 1)
        }),
{
    let r = a / 256 / 8;
    let g = b / 256 / 4;
    let bl = l / 4 / 8;
    let c = packed(a, b, l);
    assert(0 <= r < 32 && 0 <= g < 64 && 0 <= bl < 32);
    assert(c == r * 2048 + g * 32 + bl);
    assert(c / 2048 == r);
    assert(c / 32 == r * 64 + g);
    assert((c / 32) % 64 == g);
    assert(c % 32 == bl);
}

/// A colour value below its range counts as the smallest in it, one above as the largest.
pub proof fn law_colours_are_brought_into_range(u: int, v: int, l: int)
    ensures
        u < 0 ==> fragment_color(u, v, l) == fragment_color(0, v, l),
        u >= 255 * 65536 ==> fragment_color(u, v, l) == fragment_color(255 * 65536int, v, l),
        v < 0 ==> fragment_color(u, v, l) == fragment_color(u, 0, l),
        v >= 255 * 65536 ==> fragment_color(u, v, l) == fragment_color(u, 255 * 65536int, l),
        l < 0 ==> fragment_color(u, v, l) == fragment_color(u, v, 0),
        l >= 255 * 65536 ==> fragment_color(u, v, l) == fragment_color(u, v, 255 * 65536int),
{
}

/// A depth below the range counts as the nearest there is, one above as the farthest.
pub proof fn law_depths_are_brought_into_range(t: Triangle, at: Attributes, x: int, y: int)
    ensures
        ({
            let z = t.depth_value(at.z, x, y);
            &&& z < 65536 ==> depth(t, at, x, y) == 0
            &&& z >= 65535 * 65536 ==> depth(t, at, x, y) == 65535
            &&& 0 <= z < 65536 * 65536 ==> depth(t, at, x, y) * 65536 <= z < (depth(t, at, x, y)
                + 1) * 65536
        }),
{
}

/// A ramp gains the same with every pixel, along each axis.
pub proof fn law_depth_ramp_is_linear(t: Triangle, r: DepthRamp, x: int, y: int)
    ensures
        t.depth_value(r, t.min_x as int, t.min_y as int) == r.start,
        t.depth_value(r, x + 1, y) == t.depth_value(r, x, y) + r.dx,
        t.depth_value(r, x, y + 1) == t.depth_value(r, x, y) + r.dy,
{
    let (i, j) = (x - t.min_x, y - t.min_y);
    let (dx, dy) = (r.dx as int, r.dy as int);
    assert((i + 1) * dx == i * dx + dx) by (nonlinear_arith);
    assert((j + 1) * dy == j * dy + dy) by (nonlinear_arith);
    assert(0 * dx == 0 && 0 * dy == 0) by (nonlinear_arith);
}

/// What becomes of a pixel: it takes the colour and the depth of the triangle where the triangle
/// covers it and is nearer there, and keeps both everywhere else.
pub proof fn law_pixel_after_triangle(
    t: Triangle,
    at: Attributes,
    px: Seq<u16>,
    zb: Seq<u16>,
    x: int,
    y: int,
)
    requires
        px.len() == PIXELS,
        zb.len() == PIXELS,
        0 <= x < 160,
        0 <= y < 80,
    ensures
        ({
            let i = y * 160 + x;
            let colors = colors_after(t, at, px, zb, PIXELS as int);
            let depths = depths_after(t, at, zb, PIXELS as int);
            let wins = t.covers(x, y) && depth(t, at, x, y) < zb[i];
            &&& wins ==> colors[i] == color(t, at, x, y) && depths[i] == depth(t, at, x, y)
            &&& !wins ==> colors[i] == px[i] && depths[i] == zb[i]
        }),
{
    let i = y * 160 + x;
    assert(i % (W as int) == x && i / (W as int) == y);
}

/// At how many of the first `n` places two sequences differ.
pub open spec fn changes(a: Seq<u16>, b: Seq<u16>, n: int) -> nat
    decreases n,
{
    if n <= 0 {
        0
    } else {
        changes(a, b, n - 1) + if a[n - 1] != b[n - 1] {
            1nat
        } else {
            0nat
        }
    }
}

/// The pixels that are counted as written are those whose depth changed.
pub proof fn law_written_pixels_are_counted(t: Triangle, at: Attributes, zb: Seq<u16>, n: int)
    requires
        zb.len() == PIXELS,
        0 <= n <= PIXELS,
    ensures
        shown_count(t, at, zb, n) == changes(zb, depths_after(t, at, zb, PIXELS as int), n),
    decreases n,
{
    if n > 0 {
        law_written_pixels_are_counted(t, at, zb, n - 1);
        law_nearest_depth_is_kept(t, at, zb, n - 1);
    }
}

/// A ramp gains the same with every pixel, along each axis, in the 32 bits of its values.
pub proof fn law_ramp_is_linear(t: Triangle, r: Ramp, x: int, y: int)
    ensures
        t.value(r, t.min_x as int, t.min_y as int) == r.start,
        t.value(r, x + 1, y) == wrap32(t.value(r, x, y) + r.dx),
        t.value(r, x, y + 1) == wrap32(t.value(r, x, y) + r.dy),
{
    lemma_ramp_steps(r, x - t.min_x, y - t.min_y);
}

/// The colour of a triangle at a pixel comes of its three ramps there: the first texture ramp makes
/// the red, the second the green, each times the light, and the light alone the blue.
pub proof fn law_colour_comes_of_the_ramps(t: Triangle, at: Attributes, x: int, y: int)
    requires
        0 <= t.value(at.u, x, y) < 256 * 65536,
        0 <= t.value(at.v, x, y) < 256 * 65536,
        0 <= t.value(at.light, x, y) < 256 * 65536,
    ensures
        ({
            let c = color(t, at, x, y);
            let (red, green, blue) = (c as int / 2048, (c as int / 32) % 64, c as int % 32);
            let uu = t.value(at.u, x, y) / 65536;
            let vv = t.value(at.v, x, y) / 65536;
            let ll = t.value(at.light, x, y) / 65536;
            &&& 2048 * red <= uu * ll < 2048 * (red + 1)
            &&& 1024 * green <= vv * ll < 1024 * (green + 1)
            &&& 32 * blue <= ll < 32 * (blue + 1)
        }),
{
    law_fragment_channels(t.value(at.u, x, y), t.value(at.v, x, y), t.value(at.light, x, y));
}

} // verus!
