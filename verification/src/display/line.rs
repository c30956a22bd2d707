//! Straight lines on the pixel grid, and drawing them with integer steps.

use super::frame::{on_screen, pixel_index, pixels, put_pixel, FB_BYTES, H, PIXELS, W};
use vstd::arithmetic::div_mod::{lemma_fundamental_div_mod, lemma_mod_pos_bound};
use vstd::prelude::*;

verus! {

/// The distance between `a` and `b`.
pub open spec fn span(a: int, b: int) -> int {
    if a <= b {
        b - a
    } else {
        a - b
    }
}

/// The direction in which a line goes from `a` to `b`.
pub open spec fn direction(a: int, b: int) -> int {
    if a < b {
        1
    } else {
        -1
    }
}

/// How many steps a line takes: the larger of its two spans.
pub open spec fn line_steps(x0: int, y0: int, x1: int, y1: int) -> int {
    let dx = span(x0, x1);
    let dy = span(y0, y1);
    if dx >= dy {
        dx
    } else {
        dy
    }
}

/// How far along an axis of span `d` the line is after `k` of `n` steps: `k * d / n`, rounded to
/// the nearest integer, halves up.
pub open spec fn offset(k: int, d: int, n: int) -> int {
    if n <= 0 {
        0
    } else {
        (2 * k * d + n) / (2 * n)
    }
}

/// The coordinate `q` pixels from `a` in the direction of `b`.
pub open spec fn toward(a: int, b: int, q: int) -> int {
    if a < b {
        a + q
    } else {
        a - q
    }
}

/// The `k`-th point of the line from `(x0, y0)` to `(x1, y1)`.
pub open spec fn line_point(x0: int, y0: int, x1: int, y1: int, k: int) -> (int, int) {
    let n = line_steps(x0, y0, x1, y1);
    (
        toward(x0, x1, offset(k, span(x0, x1), n)),
        toward(y0, y1, offset(k, span(y0, y1), n)),
    )
}

/// Whether one of the first `count` points of the line is `(x, y)`.
pub open spec fn line_reaches(
    x0: int,
    y0: int,
    x1: int,
    y1: int,
    count: int,
    x: int,
    y: int,
) -> bool {
    exists|k: int| 0 <= k < count && #[trigger] line_point(x0, y0, x1, y1, k) == (x, y)
}

/// Whether the line from `(x0, y0)` to `(x1, y1)` passes through `(x, y)`.
pub open spec fn line_covers(x0: int, y0: int, x1: int, y1: int, x: int, y: int) -> bool {
    line_reaches(x0, y0, x1, y1, line_steps(x0, y0, x1, y1) + 1, x, y)
}

/// The screen `px` after the first `count` points of the line are painted.
pub open spec fn with_line_prefix(
    px: Seq<u16>,
    x0: int,
    y0: int,
    x1: int,
    y1: int,
    count: int,
    color: u16,
) -> Seq<u16> {
    Seq::new(
        px.len(),
        |i: int|
            if line_reaches(x0, y0, x1, y1, count, i % (W as int), i / (W as int)) {
                color
            } else {
                px[i]
            },
    )
}

/// The screen `px` after the line from `(x0, y0)` to `(x1, y1)` is painted: the pixels that the
/// line passes through have the colour, all others are as they were. Points of the line that are
/// off the screen leave no trace.
pub open spec fn with_line(px: Seq<u16>, x0: int, y0: int, x1: int, y1: int, color: u16) -> Seq<
    u16,
> {
    with_line_prefix(px, x0, y0, x1, y1, line_steps(x0, y0, x1, y1) + 1, color)
}

/// The error term that the integer walk carries at its `k`-th point.
pub open spec fn line_error(x0: int, y0: int, x1: int, y1: int, k: int) -> int {
    let dx = span(x0, x1);
    let dy = span(y0, y1);
    let n = line_steps(x0, y0, x1, y1);
    (offset(k, dy, n) + 1) * dx - (offset(k, dx, n) + 1) * dy
}

/// Whether the step that leaves the `k`-th point stays within 32-bit arithmetic.
pub open spec fn line_step_fits(x0: int, y0: int, x1: int, y1: int, k: int) -> bool {
    let e = line_error(x0, y0, x1, y1, k);
    let dy = span(y0, y1);
    &&& i32::MIN <= 2 * e <= i32::MAX
    &&& 2 * e >= -dy ==> e - dy >= i32::MIN
    &&& i32::MIN <= line_error(x0, y0, x1, y1, k + 1) <= i32::MAX
}

/// Whether the whole walk from `(x0, y0)` to `(x1, y1)` stays within 32-bit arithmetic.
pub open spec fn line_fits(x0: int, y0: int, x1: int, y1: int) -> bool {
    &&& span(x0, x1) <= i32::MAX
    &&& span(y0, y1) <= i32::MAX
    &&& forall|k: int|
        0 <= k < line_steps(x0, y0, x1, y1) ==> #[trigger] line_step_fits(x0, y0, x1, y1, k)
}

proof fn lemma_offset(k: int, d: int, n: int)
    requires
        n > 0,
        0 <= k,
        0 <= d <= n,
    ensures
        2 * n * offset(k, d, n) <= 2 * k * d + n < 2 * n * offset(k, d, n) + 2 * n,
        0 <= offset(k, d, n),
{
    let m = 2 * k * d + n;
    lemma_fundamental_div_mod(m, 2 * n);
    lemma_mod_pos_bound(m, 2 * n);
    assert(2 * n * offset(k, d, n) == (2 * n) * (m / (2 * n)));
    assert(m >= 0) by (nonlinear_arith)
        requires
            m == 2 * k * d + n,
            k >= 0,
            d >= 0,
            n > 0,
    ;
    let q = offset(k, d, n);
    assert(q >= 0) by (nonlinear_arith)
        requires
            0 <= m < 2 * n * q + 2 * n,
            n > 0,
    ;
}

/// One more step moves an axis by one exactly where the rounded position passes a half.
proof fn lemma_offset_step(k: int, d: int, n: int)
    requires
        n > 0,
        0 <= k,
        0 <= d <= n,
    ensures
        ({
            let q = offset(k, d, n);
            offset(k + 1, d, n) == if (2 * q + 1) * n <= 2 * (k + 1) * d {
                q + 1
            } else {
                q
            }
        }),
{
    lemma_offset(k, d, n);
    lemma_offset(k + 1, d, n);
    let q = offset(k, d, n);
    let r = offset(k + 1, d, n);
    assert(2 * (k + 1) * d == 2 * k * d + 2 * d) by (nonlinear_arith);
    assert((2 * q + 1) * n == 2 * n * q + n) by (nonlinear_arith);
    let a = 2 * k * d;
    assert(q <= r <= q + 1) by (nonlinear_arith)
        requires
            2 * n * q <= a + n < 2 * n * q + 2 * n,
            2 * n * r <= a + 2 * d + n < 2 * n * r + 2 * n,
            0 <= d <= n,
            n > 0,
    ;
    if r == q + 1 {
        assert(2 * n * r == 2 * n * q + 2 * n) by (nonlinear_arith)
            requires
                r == q + 1,
        ;
    }
}

proof fn lemma_offset_ends(k: int, d: int, n: int)
    requires
        n > 0,
        0 <= k,
        0 <= d <= n,
    ensures
        offset(0, d, n) == 0,
        offset(n, d, n) == d,
        offset(k, n, n) == k,
{
    lemma_offset(0, d, n);
    let q0 = offset(0, d, n);
    assert(2 * 0 * d == 0);
    assert(q0 == 0) by (nonlinear_arith)
        requires
            2 * n * q0 <= n < 2 * n * q0 + 2 * n,
            n > 0,
    ;
    lemma_offset(n, d, n);
    let q1 = offset(n, d, n);
    assert(q1 == d) by (nonlinear_arith)
        requires
            2 * n * q1 <= 2 * n * d + n < 2 * n * q1 + 2 * n,
            n > 0,
    ;
    lemma_offset(k, n, n);
    let q2 = offset(k, n, n);
    assert(q2 == k) by (nonlinear_arith)
        requires
            2 * n * q2 <= 2 * k * n + n < 2 * n * q2 + 2 * n,
            n > 0,
    ;
}

proof fn lemma_offset_within(k: int, d: int, n: int)
    requires
        n > 0,
        0 <= k <= n,
        0 <= d <= n,
    ensures
        0 <= offset(k, d, n) <= d,
{
    lemma_offset(k, d, n);
    let q = offset(k, d, n);
    assert(q <= d) by (nonlinear_arith)
        requires
            2 * n * q <= 2 * k * d + n,
            k <= n,
            0 <= d,
            n > 0,
    ;
}

/// A line starts at its first end and, after as many steps as it takes, is at the other.
pub proof fn law_line_joins_its_ends(x0: int, y0: int, x1: int, y1: int)
    ensures
        line_point(x0, y0, x1, y1, 0) == (x0, y0),
        line_point(x0, y0, x1, y1, line_steps(x0, y0, x1, y1)) == (x1, y1),
        line_covers(x0, y0, x1, y1, x0, y0),
        line_covers(x0, y0, x1, y1, x1, y1),
{
    let n = line_steps(x0, y0, x1, y1);
    if n > 0 {
        lemma_offset_ends(0, span(x0, x1), n);
        lemma_offset_ends(0, span(y0, y1), n);
    }
    assert(line_point(x0, y0, x1, y1, 0) == (x0, y0));
    assert(line_point(x0, y0, x1, y1, n) == (x1, y1));
}

/// A line has no gaps: each point is one of the eight neighbours of the one before, and at least
/// one coordinate moves.
pub proof fn law_line_is_connected(x0: int, y0: int, x1: int, y1: int, k: int)
    requires
        0 <= k < line_steps(x0, y0, x1, y1),
    ensures
        ({
            let p = line_point(x0, y0, x1, y1, k);
            let q = line_point(x0, y0, x1, y1, k + 1);
            &&& span(p.0, q.0) <= 1
            &&& span(p.1, q.1) <= 1
            &&& p != q
        }),
{
    let n = line_steps(x0, y0, x1, y1);
    let dx = span(x0, x1);
    let dy = span(y0, y1);
    lemma_offset_step(k, dx, n);
    lemma_offset_step(k, dy, n);
    lemma_offset_ends(k, dx, n);
    lemma_offset_ends(k + 1, dx, n);
}

/// A line stays within the box that its two ends span.
pub proof fn law_line_stays_in_its_box(x0: int, y0: int, x1: int, y1: int, k: int)
    requires
        0 <= k <= line_steps(x0, y0, x1, y1),
    ensures
        ({
            let p = line_point(x0, y0, x1, y1, k);
            &&& x0 <= p.0 <= x1 || x1 <= p.0 <= x0
            &&& y0 <= p.1 <= y1 || y1 <= p.1 <= y0
        }),
{
    let n = line_steps(x0, y0, x1, y1);
    if n > 0 {
        lemma_offset_within(k, span(x0, x1), n);
        lemma_offset_within(k, span(y0, y1), n);
    }
}

/// Every point of a line is as close to the ideal segment as the grid allows: along either axis
/// it is off by at most half a pixel.
pub proof fn law_line_is_accurate(x0: int, y0: int, x1: int, y1: int, k: int)
    requires
        0 <= k <= line_steps(x0, y0, x1, y1),
    ensures
        ({
            let n = line_steps(x0, y0, x1, y1);
            let p = line_point(x0, y0, x1, y1, k);
            &&& -n <= 2 * (n * (p.0 - x0) - k * (x1 - x0)) <= n
            &&& -n <= 2 * (n * (p.1 - y0) - k * (y1 - y0)) <= n
        }),
{
    let n = line_steps(x0, y0, x1, y1);
    if n > 0 {
        lemma_accurate_axis(x0, x1, n, k);
        lemma_accurate_axis(y0, y1, n, k);
    }
}

proof fn lemma_accurate_axis(a: int, b: int, n: int, k: int)
    requires
        n > 0,
        0 <= k,
        span(a, b) <= n,
    ensures
        -n <= 2 * (n * (toward(a, b, offset(k, span(a, b), n)) - a) - k * (b - a)) <= n,
{
    let d = span(a, b);
    let q = offset(k, d, n);
    lemma_offset(k, d, n);
    assert(2 * n * q - 2 * k * d == 2 * (n * q - k * d)) by (nonlinear_arith);
    if a >= b {
        assert(n * (-q) == -(n * q)) by (nonlinear_arith);
        assert(k * (b - a) == -(k * d)) by (nonlinear_arith)
            requires
                d == a - b,
        ;
    }
}

proof fn lemma_error_bound(x0: int, y0: int, x1: int, y1: int, k: int)
    requires
        0 <= k,
        line_steps(x0, y0, x1, y1) > 0,
    ensures
        ({
            let n = line_steps(x0, y0, x1, y1);
            -3 * n <= 2 * line_error(x0, y0, x1, y1, k) <= 3 * n
        }),
{
    let n = line_steps(x0, y0, x1, y1);
    let dx = span(x0, x1);
    let dy = span(y0, y1);
    let i = offset(k, dx, n);
    let j = offset(k, dy, n);
    lemma_offset(k, dx, n);
    lemma_offset(k, dy, n);
    lemma_offset_ends(k, dx, n);
    lemma_offset_ends(k, dy, n);
    assert((j + 1) * dx - (i + 1) * dy == j * dx - i * dy + dx - dy) by (nonlinear_arith);
    if dx >= dy {
        assert(2 * n * j == 2 * (j * dx) && 2 * k * dy == 2 * (i * dy)) by (nonlinear_arith)
            requires
                n == dx,
                i == k,
        ;
    } else {
        assert(2 * n * i == 2 * (i * dy) && 2 * k * dx == 2 * (j * dx)) by (nonlinear_arith)
            requires
                n == dy,
                j == k,
        ;
    }
}

/// Lines whose spans are at most 700 million pixels stay within 32-bit arithmetic.
pub proof fn law_short_lines_fit(x0: int, y0: int, x1: int, y1: int)
    requires
        span(x0, x1) <= 700_000_000,
        span(y0, y1) <= 700_000_000,
    ensures
        line_fits(x0, y0, x1, y1),
{
    assert forall|k: int| 0 <= k < line_steps(x0, y0, x1, y1) implies #[trigger] line_step_fits(
        x0,
        y0,
        x1,
        y1,
        k,
    ) by {
        lemma_error_bound(x0, y0, x1, y1, k);
        lemma_error_bound(x0, y0, x1, y1, k + 1);
    }
}

/// Which axes move when the walk leaves its `k`-th point, told from the error term alone.
proof fn lemma_walk_step(x0: int, y0: int, x1: int, y1: int, k: int)
    requires
        0 <= k < line_steps(x0, y0, x1, y1),
    ensures
        ({
            let dx = span(x0, x1);
            let dy = span(y0, y1);
            let n = line_steps(x0, y0, x1, y1);
            let e = line_error(x0, y0, x1, y1, k);
            let i = offset(k, dx, n);
            let j = offset(k, dy, n);
            let mx: int = if 2 * e >= -dy {
                1
            } else {
                0
            };
            let my: int = if 2 * e <= dx {
                1
            } else {
                0
            };
            &&& offset(k + 1, dx, n) == i + mx
            &&& offset(k + 1, dy, n) == j + my
            &&& line_error(x0, y0, x1, y1, k + 1) == e - mx * dy + my * dx
        }),
{
    let dx = span(x0, x1);
    let dy = span(y0, y1);
    let n = line_steps(x0, y0, x1, y1);
    let e = line_error(x0, y0, x1, y1, k);
    let i = offset(k, dx, n);
    let j = offset(k, dy, n);
    lemma_offset(k, dx, n);
    lemma_offset(k, dy, n);
    lemma_offset_ends(k, dx, n);
    lemma_offset_ends(k, dy, n);
    lemma_offset_step(k, dx, n);
    lemma_offset_step(k, dy, n);
    if dx >= dy {
        assert(i == k);
        assert(2 * e == 2 * n * j + 2 * dx - 2 * k * dy - 2 * dy) by (nonlinear_arith)
            requires
                e == (j + 1) * dx - (i + 1) * dy,
                n == dx,
                i == k,
        ;
        assert((2 * j + 1) * n == 2 * n * j + n) by (nonlinear_arith);
        assert(2 * (k + 1) * dy == 2 * k * dy + 2 * dy) by (nonlinear_arith);
        assert((2 * i + 1) * n <= 2 * (k + 1) * dx) by (nonlinear_arith)
            requires
                n == dx,
                i == k,
                n > 0,
        ;
    } else {
        assert(j == k);
        assert(2 * e == 2 * k * dx + 2 * dx - 2 * n * i - 2 * dy) by (nonlinear_arith)
            requires
                e == (j + 1) * dx - (i + 1) * dy,
                n == dy,
                j == k,
        ;
        assert((2 * i + 1) * n == 2 * n * i + n) by (nonlinear_arith);
        assert(2 * (k + 1) * dx == 2 * k * dx + 2 * dx) by (nonlinear_arith);
        assert((2 * j + 1) * n <= 2 * (k + 1) * dy) by (nonlinear_arith)
            requires
                n == dy,
                j == k,
                n > 0,
        ;
    }
    let mx: int = if 2 * e >= -dy {
        1
    } else {
        0
    };
    let my: int = if 2 * e <= dx {
        1
    } else {
        0
    };
    assert((j + my + 1) * dx - (i + mx + 1) * dy == (j + 1) * dx - (i + 1) * dy - mx * dy + my * dx)
        by (nonlinear_arith);
}

/// Painting one more point of a line.
proof fn lemma_paint_point(
    px: Seq<u16>,
    x0: int,
    y0: int,
    x1: int,
    y1: int,
    k: int,
    color: u16,
)
    requires
        px.len() == PIXELS,
        0 <= k,
    ensures
        ({
            let p = line_point(x0, y0, x1, y1, k);
            let before = with_line_prefix(px, x0, y0, x1, y1, k, color);
            with_line_prefix(px, x0, y0, x1, y1, k + 1, color) == if on_screen(p.0, p.1) {
                before.update(pixel_index(p.0, p.1), color)
            } else {
                before
            }
        }),
{
    let p = line_point(x0, y0, x1, y1, k);
    let before = with_line_prefix(px, x0, y0, x1, y1, k, color);
    let after = with_line_prefix(px, x0, y0, x1, y1, k + 1, color);
    assert forall|i: int| 0 <= i < PIXELS implies after[i] == (if on_screen(p.0, p.1) {
        before.update(pixel_index(p.0, p.1), color)
    } else {
        before
    })[i] by {
        let x = i % (W as int);
        let y = i / (W as int);
        assert(on_screen(x, y) && pixel_index(x, y) == i);
        if line_reaches(x0, y0, x1, y1, k, x, y) {
            let m = choose|m: int| 0 <= m < k && #[trigger] line_point(x0, y0, x1, y1, m) == (x, y);
            assert(0 <= m < k + 1 && line_point(x0, y0, x1, y1, m) == (x, y));
        }
        if p == (x, y) {
            assert(line_reaches(x0, y0, x1, y1, k + 1, x, y));
        }
    }
    if on_screen(p.0, p.1) {
        assert(after =~= before.update(pixel_index(p.0, p.1), color));
    } else {
        assert(after =~= before);
    }
}

/// The fixed quantities of a walk along a line.
pub(crate) struct LineWalk {
    pub(crate) delta_x: i32,
    pub(crate) delta_y: i32,
    pub(crate) step_x: i32,
    pub(crate) step_y: i32,
}

impl LineWalk {
    /// Whether these are the quantities of the line from `(x0, y0)` to `(x1, y1)`.
    pub(crate) open spec fn walks(self, x0: int, y0: int, x1: int, y1: int) -> bool {
        &&& self.delta_x == span(x0, x1)
        &&& self.delta_y == -span(y0, y1)
        &&& self.step_x == direction(x0, x1)
        &&& self.step_y == direction(y0, y1)
    }

    pub(crate) fn new(x0: i32, y0: i32, x1: i32, y1: i32) -> (walk: Self)
        requires
            span(x0 as int, x1 as int) <= i32::MAX,
            span(y0 as int, y1 as int) <= i32::MAX,
        ensures
            walk.walks(x0 as int, y0 as int, x1 as int, y1 as int),
    {
        let delta_x: i32 = if x0 <= x1 {
            x1 - x0
        } else {
            x0 - x1
        };
        let delta_y: i32 = if y0 <= y1 {
            y0 - y1
        } else {
            y1 - y0
        };
        let step_x: i32 = if x0 < x1 {
            1
        } else {
            -1
        };
        let step_y: i32 = if y0 < y1 {
            1
        } else {
            -1
        };
        LineWalk { delta_x, delta_y, step_x, step_y }
    }

    /// Goes from the `k`-th point to the next; the third component is the error term.
    pub(crate) fn advance(
        &self,
        x: i32,
        y: i32,
        error: i32,
        Ghost(x0): Ghost<int>,
        Ghost(y0): Ghost<int>,
        Ghost(x1): Ghost<int>,
        Ghost(y1): Ghost<int>,
        Ghost(k): Ghost<int>,
    ) -> (next: (i32, i32, i32))
        requires
            self.walks(x0, y0, x1, y1),
            i32::MIN <= x0 <= i32::MAX,
            i32::MIN <= y0 <= i32::MAX,
            i32::MIN <= x1 <= i32::MAX,
            i32::MIN <= y1 <= i32::MAX,
            0 <= k < line_steps(x0, y0, x1, y1),
            line_step_fits(x0, y0, x1, y1, k),
            line_point(x0, y0, x1, y1, k) == (x as int, y as int),
            error == line_error(x0, y0, x1, y1, k),
        ensures
            line_point(x0, y0, x1, y1, k + 1) == (next.0 as int, next.1 as int),
            next.2 == line_error(x0, y0, x1, y1, k + 1),
    {
        proof {
            lemma_walk_step(x0, y0, x1, y1, k);
            law_line_stays_in_its_box(x0, y0, x1, y1, k + 1);
        }
        let mut x_next: i32 = x;
        let mut y_next: i32 = y;
        let mut error_next: i32 = error;
        let error_doubled: i32 = 2 * error;
        if error_doubled >= self.delta_y {
            error_next = error_next + self.delta_y;
            x_next = x_next + self.step_x;
        }
        if error_doubled <= self.delta_x {
            error_next = error_next + self.delta_x;
            y_next = y_next + self.step_y;
        }
        (x_next, y_next, error_next)
    }
}

/// The walk is at its end only after its last step.
proof fn lemma_end_only_at_last(x0: int, y0: int, x1: int, y1: int, k: int)
    requires
        0 <= k <= line_steps(x0, y0, x1, y1),
    ensures
        line_point(x0, y0, x1, y1, k) == (x1, y1) <==> k == line_steps(x0, y0, x1, y1),
{
    let n = line_steps(x0, y0, x1, y1);
    law_line_joins_its_ends(x0, y0, x1, y1);
    if n > 0 {
        lemma_offset_ends(k, span(x0, x1), n);
        lemma_offset_ends(k, span(y0, y1), n);
        if span(x0, x1) >= span(y0, y1) {
            assert(offset(k, span(x0, x1), n) == k);
        } else {
            assert(offset(k, span(y0, y1), n) == k);
        }
    }
}

proof fn lemma_walk_start(x0: int, y0: int, x1: int, y1: int)
    ensures
        line_point(x0, y0, x1, y1, 0) == (x0, y0),
        line_error(x0, y0, x1, y1, 0) == span(x0, x1) - span(y0, y1),
{
    let n = line_steps(x0, y0, x1, y1);
    if n > 0 {
        lemma_offset_ends(0, span(x0, x1), n);
        lemma_offset_ends(0, span(y0, y1), n);
    }
}

fn span_i64(a: i32, b: i32) -> (d: i64)
    ensures
        d == span(a as int, b as int),
{
    if a <= b {
        b as i64 - a as i64
    } else {
        a as i64 - b as i64
    }
}

/// Decides whether the walk from `(x0, y0)` to `(x1, y1)` stays within 32-bit arithmetic, as
/// [`draw_line`] needs it to.
pub fn line_is_drawable(x0: i32, y0: i32, x1: i32, y1: i32) -> (r: bool)
    ensures
        r == line_fits(x0 as int, y0 as int, x1 as int, y1 as int),
{
    let dx: i64 = span_i64(x0, x1);
    let dy: i64 = span_i64(y0, y1);
    let max: i64 = i32::MAX as i64;
    let min: i64 = i32::MIN as i64;
    if dx > max || dy > max {
        return false;
    }
    if dx <= 700_000_000 && dy <= 700_000_000 {
        proof {
            law_short_lines_fit(x0 as int, y0 as int, x1 as int, y1 as int);
        }
        return true;
    }
    let steps: i64 = if dx >= dy {
        dx
    } else {
        dy
    };
    let mut e: i64 = dx - dy;
    let mut k: i64 = 0;
    proof {
        lemma_walk_start(x0 as int, y0 as int, x1 as int, y1 as int);
    }
    while k < steps
        invariant
            0 <= k <= steps <= max,
            max == i32::MAX,
            min == i32::MIN,
            dx == span(x0 as int, x1 as int),
            dy == span(y0 as int, y1 as int),
            0 <= dx <= max,
            0 <= dy <= max,
            steps == line_steps(x0 as int, y0 as int, x1 as int, y1 as int),
            e == line_error(x0 as int, y0 as int, x1 as int, y1 as int, k as int),
            forall|m: int|
                0 <= m < k ==> #[trigger] line_step_fits(
                    x0 as int,
                    y0 as int,
                    x1 as int,
                    y1 as int,
                    m,
                ),
        decreases steps - k,
    {
        proof {
            lemma_error_bound(x0 as int, y0 as int, x1 as int, y1 as int, k as int);
            lemma_walk_step(x0 as int, y0 as int, x1 as int, y1 as int, k as int);
        }
        let doubled: i64 = 2 * e;
        let mut next: i64 = e;
        let mut fits: bool = min <= doubled && doubled <= max;
        if doubled >= -dy {
            next = next - dy;
            fits = fits && next >= min;
        }
        if doubled <= dx {
            next = next + dx;
        }
        fits = fits && min <= next && next <= max;
        assert(fits == line_step_fits(x0 as int, y0 as int, x1 as int, y1 as int, k as int));
        if !fits {
            return false;
        }
        e = next;
        k = k + 1;
    }
    true
}

/// Draws the line from `(x_curr, y_curr)` to `(x_end, y_end)` into a framebuffer of bytes.
/// Points outside the framebuffer are silently clipped.
pub fn draw_line(
    fb: &mut [u8; FB_BYTES],
    x_curr: i32,
    y_curr: i32,
    x_end: i32,
    y_end: i32,
    color: u16,
)
    requires
        line_fits(x_curr as int, y_curr as int, x_end as int, y_end as int),
    ensures
        pixels(final(fb)@) == with_line(
            pixels(old(fb)@),
            x_curr as int,
            y_curr as int,
            x_end as int,
            y_end as int,
            color,
        ),
{
    let ghost x0 = x_curr as int;
    let ghost y0 = y_curr as int;
    let ghost x1 = x_end as int;
    let ghost y1 = y_end as int;
    let ghost px = pixels(fb@);
    let ghost n = line_steps(x0, y0, x1, y1);
    let walk = LineWalk::new(x_curr, y_curr, x_end, y_end);
    let mut x: i32 = x_curr;
    let mut y: i32 = y_curr;
    let mut error: i32 = walk.delta_x + walk.delta_y;
    let ghost mut k: int = 0;
    proof {
        lemma_walk_start(x0, y0, x1, y1);
        assert(with_line_prefix(px, x0, y0, x1, y1, 0, color) =~= px);
    }
    loop
        invariant_except_break
            0 <= k <= n,
            pixels(fb@) == with_line_prefix(px, x0, y0, x1, y1, k, color),
            line_point(x0, y0, x1, y1, k) == (x as int, y as int),
            error == line_error(x0, y0, x1, y1, k),
        invariant
            walk.walks(x0, y0, x1, y1),
            x1 == x_end,
            y1 == y_end,
            i32::MIN <= x0 <= i32::MAX,
            i32::MIN <= y0 <= i32::MAX,
            n == line_steps(x0, y0, x1, y1),
            line_fits(x0, y0, x1, y1),
            px.len() == PIXELS,
        ensures
            pixels(fb@) == with_line(px, x0, y0, x1, y1, color),
        decreases n - k,
    {
        proof {
            lemma_paint_point(px, x0, y0, x1, y1, k, color);
            lemma_end_only_at_last(x0, y0, x1, y1, k);
        }
        if x >= 0 && x < W as i32 && y >= 0 && y < H as i32 {
            put_pixel(fb, x as usize, y as usize, color);
        }
        if x == x_end && y == y_end {
            break;
        }
        assert(line_step_fits(x0, y0, x1, y1, k));
        let (x_next, y_next, error_next) = walk.advance(
            x,
            y,
            error,
            Ghost(x0),
            Ghost(y0),
            Ghost(x1),
            Ghost(y1),
            Ghost(k),
        );
        x = x_next;
        y = y_next;
        error = error_next;
        proof {
            k = k + 1;
        }
    }
}

/// Draws the line from `(x_curr, y_curr)` to `(x_end, y_end)` into a framebuffer of
/// 16-bit pixels.
/// Points outside the framebuffer are silently clipped.
pub fn draw_line_words(
    fb: &mut [u16; PIXELS],
    x_curr: i32,
    y_curr: i32,
    x_end: i32,
    y_end: i32,
    color: u16,
)
    requires
        line_fits(x_curr as int, y_curr as int, x_end as int, y_end as int),
    ensures
        final(fb)@ == with_line(
            old(fb)@,
            x_curr as int,
            y_curr as int,
            x_end as int,
            y_end as int,
            color,
        ),
{
    let ghost x0 = x_curr as int;
    let ghost y0 = y_curr as int;
    let ghost x1 = x_end as int;
    let ghost y1 = y_end as int;
    let ghost px = fb@;
    let ghost n = line_steps(x0, y0, x1, y1);
    let walk = LineWalk::new(x_curr, y_curr, x_end, y_end);
    let mut x: i32 = x_curr;
    let mut y: i32 = y_curr;
    let mut error: i32 = walk.delta_x + walk.delta_y;
    let ghost mut k: int = 0;
    proof {
        lemma_walk_start(x0, y0, x1, y1);
        assert(with_line_prefix(px, x0, y0, x1, y1, 0, color) =~= px);
    }
    loop
        invariant_except_break
            0 <= k <= n,
            fb@ == with_line_prefix(px, x0, y0, x1, y1, k, color),
            line_point(x0, y0, x1, y1, k) == (x as int, y as int),
            error == line_error(x0, y0, x1, y1, k),
        invariant
            walk.walks(x0, y0, x1, y1),
            x1 == x_end,
            y1 == y_end,
            i32::MIN <= x0 <= i32::MAX,
            i32::MIN <= y0 <= i32::MAX,
            n == line_steps(x0, y0, x1, y1),
            line_fits(x0, y0, x1, y1),
            px.len() == PIXELS,
        ensures
            fb@ == with_line(px, x0, y0, x1, y1, color),
        decreases n - k,
    {
        proof {
            lemma_paint_point(px, x0, y0, x1, y1, k, color);
            lemma_end_only_at_last(x0, y0, x1, y1, k);
        }
        if x >= 0 && x < W as i32 && y >= 0 && y < H as i32 {
            fb[y as usize * W + x as usize] = color;
        }
        if x == x_end && y == y_end {
            break;
        }
        assert(line_step_fits(x0, y0, x1, y1, k));
        let (x_next, y_next, error_next) = walk.advance(
            x,
            y,
            error,
            Ghost(x0),
            Ghost(y0),
            Ghost(x1),
            Ghost(y1),
            Ghost(k),
        );
        x = x_next;
        y = y_next;
        error = error_next;
        proof {
            k = k + 1;
        }
    }
}

/// Drawing a line paints exactly its points: each of them that lies on the screen gets the colour,
/// and every pixel that is none of them stays as it was.
pub proof fn law_line_paints_its_points(
    px: Seq<u16>,
    x0: int,
    y0: int,
    x1: int,
    y1: int,
    color: u16,
    k: int,
    x: int,
    y: int,
)
    requires
        px.len() == PIXELS,
        0 <= x < 160,
        0 <= y < 80,
    ensures
        with_line(px, x0, y0, x1, y1, color).len() == PIXELS,
        0 <= k <= line_steps(x0, y0, x1, y1) && line_point(x0, y0, x1, y1, k) == (x, y)
            ==> with_line(px, x0, y0, x1, y1, color)[y * 160 + x] == color,
        !line_covers(x0, y0, x1, y1, x, y) ==> with_line(px, x0, y0, x1, y1, color)[y * 160 + x]
            == px[y * 160 + x],
{
    let i = y * 160 + x;
    assert(i % (W as int) == x && i / (W as int) == y);
}

/// Halves are rounded away from the start: along either axis a point is at most half a pixel beyond
/// the ideal segment, and less than half a pixel short of it.
pub proof fn law_halves_are_rounded_onward(x0: int, y0: int, x1: int, y1: int, k: int)
    requires
        0 <= k <= line_steps(x0, y0, x1, y1),
        line_steps(x0, y0, x1, y1) > 0,
    ensures
        ({
            let n = line_steps(x0, y0, x1, y1);
            let p = line_point(x0, y0, x1, y1, k);
            &&& -n < 2 * (n * span(x0, p.0) - k * span(x0, x1)) <= n
            &&& -n < 2 * (n * span(y0, p.1) - k * span(y0, y1)) <= n
        }),
{
    let n = line_steps(x0, y0, x1, y1);
    let (dx, dy) = (span(x0, x1), span(y0, y1));
    lemma_offset(k, dx, n);
    lemma_offset(k, dy, n);
    let (i, j) = (offset(k, dx, n), offset(k, dy, n));
    let p = line_point(x0, y0, x1, y1, k);
    assert(span(x0, p.0) == i && span(y0, p.1) == j);
    assert(2 * n * i == 2 * (n * i) && 2 * k * dx == 2 * (k * dx)) by (nonlinear_arith);
    assert(2 * n * j == 2 * (n * j) && 2 * k * dy == 2 * (k * dy)) by (nonlinear_arith);
}

/// A line takes as many steps as its longer span has pixels.
pub proof fn law_line_is_as_long_as_its_longer_span(x0: int, y0: int, x1: int, y1: int)
    ensures
        ({
            let n = line_steps(x0, y0, x1, y1);
            &&& n >= x1 - x0 && n >= x0 - x1 && n >= y1 - y0 && n >= y0 - y1
            &&& n == x1 - x0 || n == x0 - x1 || n == y1 - y0 || n == y0 - y1
        }),
{
}

} // verus!
