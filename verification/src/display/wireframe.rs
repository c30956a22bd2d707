//! The wireframe cube: its edges, drawn between projected corners.

use super::frame::{clear, pixels, solid, FB_BYTES, PIXELS};
use super::line::{
    draw_line, draw_line_words, law_line_paints_its_points, line_covers, line_fits,
    line_is_drawable, line_point, line_steps, with_line,
};
use vstd::prelude::*;

verus! {

/// The number of corners of the cube.
pub const CORNER_COUNT: usize = 8;

/// The number of edges of the cube.
pub const EDGE_COUNT: usize = 12;

/// The colour of edges in front of the camera, #FF8559.
pub const ORANGE: u16 = 0xFC2B;

/// The colour of the other edges.
pub const DIM: u16 = 0x5142;

/// The corners that an edge joins: the back face, the front face, the edges between them.
pub open spec fn edge_ends(e: int) -> (int, int) {
    if e < 4 {
        (e, (e + 1) % 4)
    } else if e < 8 {
        (e, 4 + (e + 1) % 4)
    } else {
        (e - 8, e - 4)
    }
}

/// The corners that an edge joins.
pub fn edge(e: usize) -> (r: (usize, usize))
    requires
        e < EDGE_COUNT,
    ensures
        (r.0 as int, r.1 as int) == edge_ends(e as int),
{
    if e < 4 {
        (e, (e + 1) % 4)
    } else if e < 8 {
        (e, 4 + (e + 1) % 4)
    } else {
        (e - 8, e - 4)
    }
}

/// A corner of the unit cube, by which of its coordinates are positive.
pub open spec fn corner(c: int) -> (bool, bool, bool) {
    (c % 4 == 1 || c % 4 == 2, c % 4 == 2 || c % 4 == 3, c >= 4)
}

/// Which coordinates of a corner of the unit cube are positive.
pub fn cube_corner(c: usize) -> (r: (bool, bool, bool))
    requires
        c < CORNER_COUNT,
    ensures
        r == corner(c as int),
{
    (c % 4 == 1 || c % 4 == 2, c % 4 == 2 || c % 4 == 3, c >= 4)
}

/// How many coordinates of two corners differ.
pub open spec fn corner_distance(a: int, b: int) -> int {
    let (ax, ay, az) = corner(a);
    let (bx, by, bz) = corner(b);
    (if ax != bx {
        1int
    } else {
        0
    }) + (if ay != by {
        1int
    } else {
        0
    }) + (if az != bz {
        1int
    } else {
        0
    })
}

/// The edges are those of a cube: each joins two corners that differ in one coordinate.
pub proof fn law_edges_are_cube_edges(e: int)
    requires
        0 <= e < EDGE_COUNT,
    ensures
        0 <= edge_ends(e).0 < CORNER_COUNT,
        0 <= edge_ends(e).1 < CORNER_COUNT,
        corner_distance(edge_ends(e).0, edge_ends(e).1) == 1,
{
}

/// Every two corners that differ in one coordinate are joined by an edge.
pub proof fn law_all_cube_edges_are_there(a: int, b: int)
    requires
        0 <= a < CORNER_COUNT,
        0 <= b < CORNER_COUNT,
        corner_distance(a, b) == 1,
    ensures
        exists|e: int|
            0 <= e < EDGE_COUNT && (#[trigger] edge_ends(e) == (a, b) || edge_ends(e) == (b, a)),
{
    let e = if a >= 4 && b >= 4 {
        if (a + 1) % 4 == b % 4 {
            a
        } else {
            b
        }
    } else if a < 4 && b < 4 {
        if (a + 1) % 4 == b {
            a
        } else {
            b
        }
    } else if a < 4 {
        a + 8
    } else {
        b + 8
    };
    assert(edge_ends(e) == (a, b) || edge_ends(e) == (b, a));
}

/// The colour of an edge.
pub open spec fn edge_color(bright: bool) -> u16 {
    if bright {
        ORANGE
    } else {
        DIM
    }
}

/// Whether the line of edge `e` can be walked in 32-bit arithmetic.
pub open spec fn edge_fits(corners: Seq<(i32, i32)>, e: int) -> bool {
    let (a, b) = edge_ends(e);
    line_fits(
        corners[a].0 as int,
        corners[a].1 as int,
        corners[b].0 as int,
        corners[b].1 as int,
    )
}

/// The screen after edge `e` is drawn.
pub open spec fn with_edge(
    px: Seq<u16>,
    corners: Seq<(i32, i32)>,
    bright: Seq<bool>,
    e: int,
) -> Seq<u16> {
    let (a, b) = edge_ends(e);
    with_line(
        px,
        corners[a].0 as int,
        corners[a].1 as int,
        corners[b].0 as int,
        corners[b].1 as int,
        edge_color(bright[e]),
    )
}

/// The screen after the first `n` edges are drawn.
pub open spec fn with_edges(
    px: Seq<u16>,
    corners: Seq<(i32, i32)>,
    bright: Seq<bool>,
    n: int,
) -> Seq<u16>
    decreases n,
{
    if n <= 0 {
        px
    } else {
        with_edge(with_edges(px, corners, bright, n - 1), corners, bright, n - 1)
    }
}

/// Decides whether all edges can be drawn.
pub fn edges_are_drawable(corners: &[(i32, i32); CORNER_COUNT]) -> (r: bool)
    ensures
        r == (forall|e: int| 0 <= e < EDGE_COUNT ==> edge_fits(corners@, e)),
{
    let mut e: usize = 0;
    while e < EDGE_COUNT
        invariant
            e <= EDGE_COUNT,
            forall|k: int| 0 <= k < e ==> edge_fits(corners@, k),
        decreases EDGE_COUNT - e,
    {
        let (a, b) = edge(e);
        let from = corners[a];
        let to = corners[b];
        let fits = line_is_drawable(from.0, from.1, to.0, to.1);
        assert(fits == edge_fits(corners@, e as int));
        if !fits {
            return false;
        }
        e = e + 1;
    }
    true
}

/// Renders a frame of bytes: clears it and draws the edges between the projected corners, those in
/// `bright` in the bright colour.
pub fn render_edges(
    fb: &mut [u8; FB_BYTES],
    corners: &[(i32, i32); CORNER_COUNT],
    bright: &[bool; EDGE_COUNT],
)
    requires
        forall|e: int| 0 <= e < EDGE_COUNT ==> edge_fits(corners@, e),
    ensures
        pixels(final(fb)@) == with_edges(solid(0), corners@, bright@, EDGE_COUNT as int),
{
    clear(fb);
    let mut e: usize = 0;
    while e < EDGE_COUNT
        invariant
            e <= EDGE_COUNT,
            forall|k: int| 0 <= k < EDGE_COUNT ==> edge_fits(corners@, k),
            pixels(fb@) == with_edges(solid(0), corners@, bright@, e as int),
        decreases EDGE_COUNT - e,
    {
        let (a, b) = edge(e);
        let from = corners[a];
        let to = corners[b];
        let color: u16 = if bright[e] {
            ORANGE
        } else {
            DIM
        };
        assert(edge_fits(corners@, e as int));
        draw_line(fb, from.0, from.1, to.0, to.1, color);
        e = e + 1;
    }
}

/// Renders a frame of 16-bit pixels, as [`render_edges`] renders one of bytes.
pub fn render_edges_words(
    fb: &mut [u16; PIXELS],
    corners: &[(i32, i32); CORNER_COUNT],
    bright: &[bool; EDGE_COUNT],
)
    requires
        forall|e: int| 0 <= e < EDGE_COUNT ==> edge_fits(corners@, e),
    ensures
        final(fb)@ == with_edges(solid(0), corners@, bright@, EDGE_COUNT as int),
{
    clear_words(fb, 0);
    let mut e: usize = 0;
    while e < EDGE_COUNT
        invariant
            e <= EDGE_COUNT,
            forall|k: int| 0 <= k < EDGE_COUNT ==> edge_fits(corners@, k),
            fb@ == with_edges(solid(0), corners@, bright@, e as int),
        decreases EDGE_COUNT - e,
    {
        let (a, b) = edge(e);
        let from = corners[a];
        let to = corners[b];
        let color: u16 = if bright[e] {
            ORANGE
        } else {
            DIM
        };
        assert(edge_fits(corners@, e as int));
        draw_line_words(fb, from.0, from.1, to.0, to.1, color);
        e = e + 1;
    }
}

/// Sets every 16-bit pixel to `value`; the depth buffer is cleared in this way too.
pub fn clear_words(fb: &mut [u16; PIXELS], value: u16)
    ensures
        final(fb)@ == solid(value),
{
    let mut i: usize = 0;
    while i < PIXELS
        invariant
            i <= PIXELS,
            forall|j: int| 0 <= j < i ==> fb@[j] == value,
        decreases PIXELS - i,
    {
        fb[i] = value;
        i = i + 1;
    }
    assert(fb@ =~= solid(value));
}

proof fn lemma_edges_keep_size(px: Seq<u16>, corners: Seq<(i32, i32)>, bright: Seq<bool>, n: int)
    ensures
        with_edges(px, corners, bright, n).len() == px.len(),
    decreases n,
{
    if n > 0 {
        lemma_edges_keep_size(px, corners, bright, n - 1);
    }
}

/// A frame holds nothing but the two edge colours on black.
pub proof fn law_frame_has_three_colours(
    corners: Seq<(i32, i32)>,
    bright: Seq<bool>,
    n: int,
    i: int,
)
    requires
        0 <= i < PIXELS,
    ensures
        with_edges(solid(0), corners, bright, n).len() == PIXELS,
        ({
            let color = with_edges(solid(0), corners, bright, n)[i];
            color == 0 || color == ORANGE || color == DIM
        }),
    decreases n,
{
    lemma_edges_keep_size(solid(0), corners, bright, n);
    if n > 0 {
        law_frame_has_three_colours(corners, bright, n - 1, i);
    }
}

/// Whether the line of edge `e` passes through the pixel `(x, y)`.
pub open spec fn edge_passes(corners: Seq<(i32, i32)>, e: int, x: int, y: int) -> bool {
    let (a, b) = edge_ends(e);
    line_covers(
        corners[a].0 as int,
        corners[a].1 as int,
        corners[b].0 as int,
        corners[b].1 as int,
        x,
        y,
    )
}

/// Every edge is drawn: a pixel has the colour of the last edge that passes through it, orange for
/// an edge that is bright and the dim colour for one that is not, and is black where no edge does.
pub proof fn law_every_edge_is_drawn(
    corners: Seq<(i32, i32)>,
    bright: Seq<bool>,
    n: int,
    e: int,
    x: int,
    y: int,
)
    requires
        0 <= n,
        0 <= x < 160,
        0 <= y < 80,
    ensures
        ({
            let shown = with_edges(solid(0), corners, bright, n)[y * 160 + x];
            let is_last = 0 <= e < n && edge_passes(corners, e, x, y) && forall|k: int|
                e < k < n ==> !#[trigger] edge_passes(corners, k, x, y);
            &&& is_last && bright[e] ==> shown == 0xFC2B
            &&& is_last && !bright[e] ==> shown == 0x5142
            &&& (forall|k: int| 0 <= k < n ==> !#[trigger] edge_passes(corners, k, x, y)) ==> shown
                == 0
        }),
    decreases n,
{
    lemma_edges_keep_size(solid(0), corners, bright, n);
    if n > 0 {
        let before = with_edges(solid(0), corners, bright, n - 1);
        lemma_edges_keep_size(solid(0), corners, bright, n - 1);
        law_every_edge_is_drawn(corners, bright, n - 1, e, x, y);
        let (a, b) = edge_ends(n - 1);
        let color = edge_color(bright[n - 1]);
        let (x0, y0) = (corners[a].0 as int, corners[a].1 as int);
        let (x1, y1) = (corners[b].0 as int, corners[b].1 as int);
        if edge_passes(corners, n - 1, x, y) {
            let k = choose|k: int|
                0 <= k < line_steps(x0, y0, x1, y1) + 1 && #[trigger] line_point(
                    x0,
                    y0,
                    x1,
                    y1,
                    k,
                ) == (x, y);
            law_line_paints_its_points(before, x0, y0, x1, y1, color, k, x, y);
        } else {
            law_line_paints_its_points(before, x0, y0, x1, y1, color, 0, x, y);
        }
    }
}

/// The colours of the edges are #FF8559 and #502814, with the low bits of each channel dropped.
pub proof fn law_edge_colours()
    ensures
        edge_color(true) == (0xFFint / 8) * 2048 + (0x85int / 4) * 32 + 0x59int / 8,
        edge_color(false) == (80int / 8) * 2048 + (40int / 4) * 32 + 20int / 8,
{
}

/// The corners are the eight corners of a cube: any two of them differ.
pub proof fn law_corners_are_distinct(a: int, b: int)
    requires
        0 <= a < b < CORNER_COUNT,
    ensures
        corner(a) != corner(b),
{
}

/// No edge is drawn twice.
pub proof fn law_edges_are_distinct(e: int, f: int)
    requires
        0 <= e < f < EDGE_COUNT,
    ensures
        ({
            let (a, b) = edge_ends(e);
            let (c, d) = edge_ends(f);
            (a, b) != (c, d) && (a, b) != (d, c)
        }),
{
}

} // verus!
