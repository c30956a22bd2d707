//! The shaded cube: its geometry, which of its triangles are drawn, and the statistics of a frame.

use vstd::prelude::*;

verus! {

pub const FACE_COUNT: usize = 6;

pub const VERTS_PER_FACE: usize = 4;

pub const INDICES_PER_FACE: usize = 6;

pub const VERTEX_COUNT: usize = 24;

pub const INDEX_COUNT: usize = 36;

/// The lights and depths of a frame start from here: every pixel is as far away as can be.
pub const FAR_DEPTH: u16 = 0xFFFF;

/// The negative unit coordinate.
pub const NEG: i8 = -1;

/// A corner of the cube with what the vertex shader needs of it. Positions are in units of half
/// an edge, so every coordinate is 1 or -1.
#[derive(Clone, Copy, PartialEq, Eq, Debug)]
pub struct Vertex {
    pub pos: (i8, i8, i8),
    pub normal: (i8, i8, i8),
    pub uv: (u8, u8),
}

/// The dot product.
pub open spec fn dot(a: (i8, i8, i8), b: (i8, i8, i8)) -> int {
    a.0 * b.0 + a.1 * b.1 + a.2 * b.2
}

/// The cross product of `b - a` and `c - a`.
pub open spec fn cross_from(a: (i8, i8, i8), b: (i8, i8, i8), c: (i8, i8, i8)) -> (int, int, int) {
    (
        (b.1 - a.1) * (c.2 - a.2) - (b.2 - a.2) * (c.1 - a.1),
        (b.2 - a.2) * (c.0 - a.0) - (b.0 - a.0) * (c.2 - a.2),
        (b.0 - a.0) * (c.1 - a.1) - (b.1 - a.1) * (c.0 - a.0),
    )
}

/// The four vertices of a face with the corners `a`, `b`, `c`, `d` and the outward normal `n`.
pub open spec fn face_spec(
    a: (i8, i8, i8),
    b: (i8, i8, i8),
    c: (i8, i8, i8),
    d: (i8, i8, i8),
    n: (i8, i8, i8),
) -> Seq<Vertex> {
    seq![
        Vertex { pos: a, normal: n, uv: (0, 0) },
        Vertex { pos: b, normal: n, uv: (1, 0) },
        Vertex { pos: c, normal: n, uv: (1, 1) },
        Vertex { pos: d, normal: n, uv: (0, 1) },
    ]
}

/// The vertices of the face with the given number: front, back, right, left, top, bottom.
pub open spec fn cube_face(face: int) -> Seq<Vertex> {
    if face == 0 {
        face_spec((NEG, NEG, 1), (1, NEG, 1), (1, 1, 1), (NEG, 1, 1), (0, 0, 1))
    } else if face == 1 {
        face_spec((1, NEG, NEG), (NEG, NEG, NEG), (NEG, 1, NEG), (1, 1, NEG), (0, 0, NEG))
    } else if face == 2 {
        face_spec((1, NEG, 1), (1, NEG, NEG), (1, 1, NEG), (1, 1, 1), (1, 0, 0))
    } else if face == 3 {
        face_spec((NEG, NEG, NEG), (NEG, NEG, 1), (NEG, 1, 1), (NEG, 1, NEG), (NEG, 0, 0))
    } else if face == 4 {
        face_spec((NEG, 1, 1), (1, 1, 1), (1, 1, NEG), (NEG, 1, NEG), (0, 1, 0))
    } else {
        face_spec((NEG, NEG, NEG), (1, NEG, NEG), (1, NEG, 1), (NEG, NEG, 1), (0, NEG, 0))
    }
}

broadcast proof fn lemma_small_factor(x: int, y: int)
    ensures
        x == 0 ==> #[trigger] (x * y) == 0,
        x == 1 ==> x * y == y,
        x == -1 ==> x * y == -y,
        x == 2 ==> x * y == 2 * y,
        x == -2 ==> x * y == -2 * y,
{
}

/// Every vertex of a face lies on the side of the cube that the face's normal points to.
pub proof fn law_normals_point_outward(face: int, k: int)
    requires
        0 <= face < FACE_COUNT,
        0 <= k < VERTS_PER_FACE,
    ensures
        cube_face(face)[k].normal == cube_face(face)[0].normal,
        dot(cube_face(face)[k].pos, cube_face(face)[k].normal) == 1,
        dot(cube_face(face)[k].normal, cube_face(face)[k].normal) == 1,
{
    broadcast use lemma_small_factor;

}

/// The corners of a face run counter-clockwise as seen from outside: both halves of the face turn
/// in the direction of the normal.
pub proof fn law_faces_run_counter_clockwise(face: int)
    requires
        0 <= face < FACE_COUNT,
    ensures
        ({
            let f = cube_face(face);
            let n = f[0].normal;
            &&& cross_from(f[0].pos, f[1].pos, f[2].pos) == (4 * n.0, 4 * n.1, 4 * n.2)
            &&& cross_from(f[0].pos, f[2].pos, f[3].pos) == (4 * n.0, 4 * n.1, 4 * n.2)
        }),
{
    broadcast use lemma_small_factor;

    let f = cube_face(face);
    let n = f[0].normal;
    assert(cross_from(f[0].pos, f[1].pos, f[2].pos) == (4 * n.0, 4 * n.1, 4 * n.2));
    assert(cross_from(f[0].pos, f[2].pos, f[3].pos) == (4 * n.0, 4 * n.1, 4 * n.2));
}

fn face(
    a: (i8, i8, i8),
    b: (i8, i8, i8),
    c: (i8, i8, i8),
    d: (i8, i8, i8),
    n: (i8, i8, i8),
) -> (r: [Vertex; 4])
    ensures
        r@ == face_spec(a, b, c, d, n),
{
    let r: [Vertex; 4] = [
        Vertex { pos: a, normal: n, uv: (0, 0) },
        Vertex { pos: b, normal: n, uv: (1, 0) },
        Vertex { pos: c, normal: n, uv: (1, 1) },
        Vertex { pos: d, normal: n, uv: (0, 1) },
    ];
    assert(r@ =~= face_spec(a, b, c, d, n));
    r
}

/// The 24 vertices of the cube, four for each face.
pub fn cube_vertices() -> (r: [Vertex; VERTEX_COUNT])
    ensures
        forall|f: int, k: int|
            0 <= f < FACE_COUNT && 0 <= k < VERTS_PER_FACE ==> #[trigger] r@[f * VERTS_PER_FACE + k]
                == #[trigger] cube_face(f)[k],
{
    let f0 = face((-1, -1, 1), (1, -1, 1), (1, 1, 1), (-1, 1, 1), (0, 0, 1));
    let f1 = face((1, -1, -1), (-1, -1, -1), (-1, 1, -1), (1, 1, -1), (0, 0, -1));
    let f2 = face((1, -1, 1), (1, -1, -1), (1, 1, -1), (1, 1, 1), (1, 0, 0));
    let f3 = face((-1, -1, -1), (-1, -1, 1), (-1, 1, 1), (-1, 1, -1), (-1, 0, 0));
    let f4 = face((-1, 1, 1), (1, 1, 1), (1, 1, -1), (-1, 1, -1), (0, 1, 0));
    let f5 = face((-1, -1, -1), (1, -1, -1), (1, -1, 1), (-1, -1, 1), (0, -1, 0));
    [
        f0[0],
        f0[1],
        f0[2],
        f0[3],
        f1[0],
        f1[1],
        f1[2],
        f1[3],
        f2[0],
        f2[1],
        f2[2],
        f2[3],
        f3[0],
        f3[1],
        f3[2],
        f3[3],
        f4[0],
        f4[1],
        f4[2],
        f4[3],
        f5[0],
        f5[1],
        f5[2],
        f5[3],
    ]
}

/// Which vertex of its face the `j`-th index of the face names: the triangles (0, 2, 1) and
/// (0, 3, 2).
pub open spec fn face_index(j: int) -> int {
    if j == 0 || j == 3 {
        0
    } else if j == 1 || j == 5 {
        2
    } else if j == 2 {
        1
    } else {
        3
    }
}

/// The vertex that the `i`-th index of the cube names.
pub open spec fn cube_index(i: int) -> int {
    (i / (INDICES_PER_FACE as int)) * VERTS_PER_FACE + face_index(i % (INDICES_PER_FACE as int))
}

/// The index table: for each face its two triangles. The order of a triangle's corners is the
/// reverse of the face's own, because the viewport turns y over.
pub fn cube_indices() -> (out: [u8; INDEX_COUNT])
    ensures
        forall|i: int| 0 <= i < INDEX_COUNT ==> #[trigger] out@[i] == cube_index(i),
{
    let mut out: [u8; INDEX_COUNT] = [0u8; INDEX_COUNT];
    let mut f: usize = 0;
    while f < FACE_COUNT
        invariant
            f <= FACE_COUNT,
            forall|i: int| 0 <= i < f * INDICES_PER_FACE ==> #[trigger] out@[i] == cube_index(i),
        decreases FACE_COUNT - f,
    {
        let base: u8 = (f * VERTS_PER_FACE) as u8;
        let i: usize = f * INDICES_PER_FACE;
        out[i] = base;
        out[i + 1] = base + 2;
        out[i + 2] = base + 1;
        out[i + 3] = base;
        out[i + 4] = base + 3;
        out[i + 5] = base + 2;
        f = f + 1;
    }
    out
}

/// Seen from outside, the triangles of the index table run clockwise, so that they run
/// counter-clockwise on a screen whose y axis points down.
pub proof fn law_triangles_run_clockwise(face: int, half: int)
    requires
        0 <= face < FACE_COUNT,
        0 <= half < 2,
    ensures
        ({
            let f = cube_face(face);
            let n = f[0].normal;
            let a = f[face_index(3 * half)].pos;
            let b = f[face_index(3 * half + 1)].pos;
            let c = f[face_index(3 * half + 2)].pos;
            cross_from(a, b, c) == (-4 * n.0, -4 * n.1, -4 * n.2)
        }),
{
    broadcast use lemma_small_factor;

}

/// Whether the triangle number `t` of the cube is drawn: its face is visible and its three
/// corners are in front of the camera.
pub open spec fn triangle_drawn(face_visible: Seq<bool>, valid: Seq<bool>, t: int) -> bool {
    &&& face_visible[t / 2]
    &&& valid[cube_index(3 * t)]
    &&& valid[cube_index(3 * t + 1)]
    &&& valid[cube_index(3 * t + 2)]
}

/// The corners of those of the first `n` triangles that are drawn, in order.
pub open spec fn drawn_triangles(face_visible: Seq<bool>, valid: Seq<bool>, n: int) -> Seq<
    (usize, usize, usize),
>
    decreases n,
{
    if n <= 0 {
        Seq::empty()
    } else {
        let rest = drawn_triangles(face_visible, valid, n - 1);
        if triangle_drawn(face_visible, valid, n - 1) {
            rest.push(
                (
                    cube_index(3 * (n - 1)) as usize,
                    cube_index(3 * (n - 1) + 1) as usize,
                    cube_index(3 * (n - 1) + 2) as usize,
                ),
            )
        } else {
            rest
        }
    }
}

/// The triangles of a frame, each as the numbers of its three vertices, in the order in which
/// they are drawn.
pub fn visible_triangles(
    face_visible: &[bool; FACE_COUNT],
    valid: &[bool; VERTEX_COUNT],
) -> (r: Vec<(usize, usize, usize)>)
    ensures
        r@ == drawn_triangles(face_visible@, valid@, 12),
        r@.len() <= 12,
{
    let indices = cube_indices();
    let mut out: Vec<(usize, usize, usize)> = Vec::new();
    let mut tri: usize = 0;
    let ghost mut t: int = 0;
    while tri < INDEX_COUNT
        invariant
            tri == 3 * t,
            tri <= INDEX_COUNT,
            out@.len() <= t,
            out@ == drawn_triangles(face_visible@, valid@, t),
            forall|i: int| 0 <= i < INDEX_COUNT ==> #[trigger] indices@[i] == cube_index(i),
        decreases INDEX_COUNT - tri,
    {
        let face: usize = tri / INDICES_PER_FACE;
        if face_visible[face] {
            let i0: usize = indices[tri] as usize;
            let i1: usize = indices[tri + 1] as usize;
            let i2: usize = indices[tri + 2] as usize;
            if valid[i0] && valid[i1] && valid[i2] {
                out.push((i0, i1, i2));
            }
        }
        tri = tri + 3;
        proof {
            t = t + 1;
        }
    }
    out
}

/// What one frame took and drew.
#[derive(Clone, Copy, PartialEq, Eq, Structural, Debug)]
pub struct FrameStats {
    pub clear_color_us: u64,
    pub clear_depth_us: u64,
    pub mvp_us: u64,
    pub vs_us: u64,
    pub raster_us: u64,
    pub triangles_drawn: u32,
    pub pixels_filled: u32,
}

/// The sum of two 64-bit counters; it wraps around.
pub open spec fn sum64(a: u64, b: u64) -> u64 {
    ((a + b) % 0x1_0000_0000_0000_0000) as u64
}

/// The sum of two 32-bit counters; it wraps around.
pub open spec fn sum32(a: u32, b: u32) -> u32 {
    ((a + b) % 0x1_0000_0000) as u32
}

impl Default for FrameStats {
    fn default() -> (r: FrameStats)
        ensures
            r == (FrameStats {
                clear_color_us: 0,
                clear_depth_us: 0,
                mvp_us: 0,
                vs_us: 0,
                raster_us: 0,
                triangles_drawn: 0,
                pixels_filled: 0,
            }),
    {
        FrameStats {
            clear_color_us: 0,
            clear_depth_us: 0,
            mvp_us: 0,
            vs_us: 0,
            raster_us: 0,
            triangles_drawn: 0,
            pixels_filled: 0,
        }
    }
}

impl FrameStats {
    /// Adds the statistics of a frame, field by field; the counters wrap around.
    pub fn accumulate(&mut self, frame: &FrameStats)
        ensures
            *final(self) == (FrameStats {
                clear_color_us: sum64(old(self).clear_color_us, frame.clear_color_us),
                clear_depth_us: sum64(old(self).clear_depth_us, frame.clear_depth_us),
                mvp_us: sum64(old(self).mvp_us, frame.mvp_us),
                vs_us: sum64(old(self).vs_us, frame.vs_us),
                raster_us: sum64(old(self).raster_us, frame.raster_us),
                triangles_drawn: sum32(old(self).triangles_drawn, frame.triangles_drawn),
                pixels_filled: sum32(old(self).pixels_filled, frame.pixels_filled),
            }),
    {
        self.clear_color_us = self.clear_color_us.wrapping_add(frame.clear_color_us);
        self.clear_depth_us = self.clear_depth_us.wrapping_add(frame.clear_depth_us);
        self.mvp_us = self.mvp_us.wrapping_add(frame.mvp_us);
        self.vs_us = self.vs_us.wrapping_add(frame.vs_us);
        self.raster_us = self.raster_us.wrapping_add(frame.raster_us);
        self.triangles_drawn = self.triangles_drawn.wrapping_add(frame.triangles_drawn);
        self.pixels_filled = self.pixels_filled.wrapping_add(frame.pixels_filled);
    }
}

/// The six faces are six different sides: two faces with different numbers have different normals,
/// and the faces come in opposite pairs, along the third, the first and the second axis.
pub proof fn law_faces_are_six_sides(f: int, g: int)
    requires
        0 <= f < FACE_COUNT,
        0 <= g < FACE_COUNT,
        f != g,
    ensures
        cube_face(f)[0].normal != cube_face(g)[0].normal,
        ({
            let n = cube_face(f)[0].normal;
            let side: int = if f % 2 == 0 {
                1
            } else {
                -1
            };
            &&& f / 2 == 0 ==> n.0 == 0 && n.1 == 0 && n.2 == side
            &&& f / 2 == 1 ==> n.0 == side && n.1 == 0 && n.2 == 0
            &&& f / 2 == 2 ==> n.0 == 0 && n.1 == side && n.2 == 0
        }),
{
}

/// Whether one of the four vertices of a face is at `p`.
pub open spec fn face_has(face: int, p: (i8, i8, i8)) -> bool {
    exists|k: int| 0 <= k < 4 && (#[trigger] cube_face(face)[k]).pos == p
}

/// How many of the first `n` faces have a vertex at `p`.
pub open spec fn faces_at(p: (i8, i8, i8), n: int) -> int
    decreases n,
{
    if n <= 0 {
        0
    } else {
        faces_at(p, n - 1) + if face_has(n - 1, p) {
            1int
        } else {
            0
        }
    }
}

proof fn lemma_face_has_its_side(face: int, p: (i8, i8, i8))
    requires
        0 <= face < FACE_COUNT,
        p.0 == 1 || p.0 == -1,
        p.1 == 1 || p.1 == -1,
        p.2 == 1 || p.2 == -1,
    ensures
        face == 0 ==> face_has(face, p) == (p.2 == 1),
        face == 1 ==> face_has(face, p) == (p.2 == -1),
        face == 2 ==> face_has(face, p) == (p.0 == 1),
        face == 3 ==> face_has(face, p) == (p.0 == -1),
        face == 4 ==> face_has(face, p) == (p.1 == 1),
        face == 5 ==> face_has(face, p) == (p.1 == -1),
{
    let f = cube_face(face);
    let (a, b, c, d) = (f[0].pos, f[1].pos, f[2].pos, f[3].pos);
    if p == a || p == b || p == c || p == d {
        let k: int = if p == a {
            0
        } else if p == b {
            1
        } else if p == c {
            2
        } else {
            3
        };
        assert(cube_face(face)[k].pos == p);
        assert(face_has(face, p));
    } else {
        assert forall|k: int| 0 <= k < 4 implies (#[trigger] cube_face(face)[k]).pos != p by {
            assert(k == 0 || k == 1 || k == 2 || k == 3);
        }
    }
}

/// Every corner of the cube is where exactly three faces meet: the three sides on which it lies.
pub proof fn law_corners_join_three_faces(p: (i8, i8, i8))
    requires
        p.0 == 1 || p.0 == -1,
        p.1 == 1 || p.1 == -1,
        p.2 == 1 || p.2 == -1,
    ensures
        faces_at(p, FACE_COUNT as int) == 3,
{
    reveal_with_fuel(faces_at, 7);
    lemma_face_has_its_side(0, p);
    lemma_face_has_its_side(1, p);
    lemma_face_has_its_side(2, p);
    lemma_face_has_its_side(3, p);
    lemma_face_has_its_side(4, p);
    lemma_face_has_its_side(5, p);
}

/// A face has all the corners of its side, each once: a corner belongs to a face exactly where it
/// lies on the side to which the face's normal points.
pub proof fn law_face_has_the_corners_of_its_side(face: int, p: (i8, i8, i8), j: int, k: int)
    requires
        0 <= face < FACE_COUNT,
        p.0 == 1 || p.0 == -1,
        p.1 == 1 || p.1 == -1,
        p.2 == 1 || p.2 == -1,
        0 <= j < k < VERTS_PER_FACE,
    ensures
        face_has(face, p) <==> dot(p, cube_face(face)[0].normal) == 1,
        cube_face(face)[j].pos != cube_face(face)[k].pos,
{
    broadcast use lemma_small_factor;

    lemma_face_has_its_side(face, p);
    law_faces_are_six_sides(
        face,
        if face == 0 {
            1
        } else {
            0
        },
    );
}

/// How many coordinates differ.
pub open spec fn places_apart(a: (i8, i8, i8), b: (i8, i8, i8)) -> int {
    (if a.0 != b.0 {
        1int
    } else {
        0
    }) + (if a.1 != b.1 {
        1int
    } else {
        0
    }) + (if a.2 != b.2 {
        1int
    } else {
        0
    })
}

/// How many texture coordinates differ.
pub open spec fn texture_apart(a: (u8, u8), b: (u8, u8)) -> int {
    (if a.0 != b.0 {
        1int
    } else {
        0
    }) + (if a.1 != b.1 {
        1int
    } else {
        0
    })
}

/// The texture is spread once over each face: its corners are the four corners of the unit square,
/// as far apart on the texture as on the cube, from the first vertex on in the order of the face.
pub proof fn law_texture_covers_each_face(face: int, j: int, k: int)
    requires
        0 <= face < FACE_COUNT,
        0 <= j < VERTS_PER_FACE,
        0 <= k < VERTS_PER_FACE,
    ensures
        ({
            let f = cube_face(face);
            &&& texture_apart(f[j].uv, f[k].uv) == places_apart(f[j].pos, f[k].pos)
            &&& f[k].uv.0 <= 1 && f[k].uv.1 <= 1
            &&& f[0].uv == (0u8, 0u8)
            &&& f[1].uv == (1u8, 0u8)
        }),
{
}

/// The vertex with the given number.
pub open spec fn cube_vertex(v: int) -> Vertex {
    cube_face(v / 4)[v % 4]
}

/// Every triangle of the index table lies on its own face, has three different corners and runs
/// clockwise as seen from outside, and the two triangles of a face share two corners and have all
/// four between them.
pub proof fn law_index_table_covers_the_cube(t: int, v: int)
    requires
        0 <= t < 12,
    ensures
        ({
            let (a, b, c) = (cube_index(3 * t), cube_index(3 * t + 1), cube_index(3 * t + 2));
            let n = cube_face(t / 2)[0].normal;
            &&& a / 4 == t / 2 && b / 4 == t / 2 && c / 4 == t / 2
            &&& a != b && b != c && a != c
            &&& 0 <= a < 24 && 0 <= b < 24 && 0 <= c < 24
            &&& cross_from(cube_vertex(a).pos, cube_vertex(b).pos, cube_vertex(c).pos) == (
                -4 * n.0,
                -4 * n.1,
                -4 * n.2,
            )
        }),
        t % 2 == 0 ==> ({
            let (a, b, c) = (cube_index(3 * t), cube_index(3 * t + 1), cube_index(3 * t + 2));
            let (d, e, f) = (cube_index(3 * t + 3), cube_index(3 * t + 4), cube_index(3 * t + 5));
            let base = 4 * (t / 2);
            &&& base <= v < base + 4 ==> v == a || v == b || v == c || v == d || v == e || v == f
            &&& (a == d || a == e || a == f) && (b == d || b == e || b == f)
            &&& c != d && c != e && c != f
        }),
{
    broadcast use lemma_small_factor;

    law_triangles_run_clockwise(t / 2, t % 2);
    let i = 3 * t;
    assert(i / 6 == t / 2 && i % 6 == 3 * (t % 2));
    assert((i + 1) / 6 == t / 2 && (i + 1) % 6 == 3 * (t % 2) + 1);
    assert((i + 2) / 6 == t / 2 && (i + 2) % 6 == 3 * (t % 2) + 2);
    let (a, b, c) = (cube_index(i), cube_index(i + 1), cube_index(i + 2));
    assert(a % 4 == face_index(3 * (t % 2)));
    assert(b % 4 == face_index(3 * (t % 2) + 1));
    assert(c % 4 == face_index(3 * (t % 2) + 2));
    if t % 2 == 0 {
        assert((i + 3) / 6 == t / 2 && (i + 3) % 6 == 3);
        assert((i + 4) / 6 == t / 2 && (i + 4) % 6 == 4);
        assert((i + 5) / 6 == t / 2 && (i + 5) % 6 == 5);
    }
}

/// A triangle of the cube is drawn exactly where its face is visible and its three corners are in
/// front of the camera; the triangles come in the order of the index table.
pub proof fn law_visible_triangles_are_drawn(
    face_visible: Seq<bool>,
    valid: Seq<bool>,
    n: int,
    t: int,
)
    requires
        0 <= t < n <= 12,
    ensures
        ({
            let corners = (cube_index(3 * t), cube_index(3 * t + 1), cube_index(3 * t + 2));
            let named = (corners.0 as usize, corners.1 as usize, corners.2 as usize);
            face_visible[t / 2] && valid[corners.0] && valid[corners.1] && valid[corners.2]
                <==> drawn_triangles(face_visible, valid, n).contains(named)
        }),
        forall|k: int|
            0 <= k < drawn_triangles(face_visible, valid, n).len() ==> {
                let (a, b, c) = #[trigger] drawn_triangles(face_visible, valid, n)[k];
                &&& a / 4 == b / 4 && b / 4 == c / 4
                &&& a < 24
                &&& face_visible[a as int / 4]
                &&& valid[a as int] && valid[b as int] && valid[c as int]
            },
{
    lemma_drawn_are_drawn(face_visible, valid, n);
    if triangle_drawn(face_visible, valid, t) {
        lemma_drawn_is_there(face_visible, valid, n, t);
    }
    let corners = (cube_index(3 * t), cube_index(3 * t + 1), cube_index(3 * t + 2));
    law_index_table_covers_the_cube(t, 0);
    let named = (corners.0 as usize, corners.1 as usize, corners.2 as usize);
    let all = drawn_triangles(face_visible, valid, n);
    if all.contains(named) {
        let k = choose|k: int| 0 <= k < all.len() && all[k] == named;
        assert(all[k] == named);
    }
}

proof fn lemma_drawn_are_drawn(face_visible: Seq<bool>, valid: Seq<bool>, n: int)
    requires
        0 <= n <= 12,
    ensures
        forall|k: int|
            0 <= k < drawn_triangles(face_visible, valid, n).len() ==> {
                let (a, b, c) = #[trigger] drawn_triangles(face_visible, valid, n)[k];
                &&& a / 4 == b / 4 && b / 4 == c / 4
                &&& a < 24
                &&& face_visible[a as int / 4]
                &&& valid[a as int] && valid[b as int] && valid[c as int]
            },
    decreases n,
{
    if n > 0 {
        lemma_drawn_are_drawn(face_visible, valid, n - 1);
        law_index_table_covers_the_cube(n - 1, 0);
        let all = drawn_triangles(face_visible, valid, n);
        let before = drawn_triangles(face_visible, valid, n - 1);
        assert forall|k: int| 0 <= k < all.len() implies ({
            let (a, b, c) = #[trigger] all[k];
            &&& a / 4 == b / 4 && b / 4 == c / 4
            &&& a < 24
            &&& face_visible[a as int / 4]
            &&& valid[a as int] && valid[b as int] && valid[c as int]
        }) by {
            if k < before.len() {
                assert(all[k] == before[k]);
            }
        }
    }
}

proof fn lemma_drawn_is_there(face_visible: Seq<bool>, valid: Seq<bool>, n: int, t: int)
    requires
        0 <= t < n <= 12,
        triangle_drawn(face_visible, valid, t),
    ensures
        drawn_triangles(face_visible, valid, n).contains(
            (
                cube_index(3 * t) as usize,
                cube_index(3 * t + 1) as usize,
                cube_index(3 * t + 2) as usize,
            ),
        ),
    decreases n,
{
    let named = (
        cube_index(3 * t) as usize,
        cube_index(3 * t + 1) as usize,
        cube_index(3 * t + 2) as usize,
    );
    let all = drawn_triangles(face_visible, valid, n);
    if t == n - 1 {
        assert(all.last() == named);
    } else {
        lemma_drawn_is_there(face_visible, valid, n - 1, t);
        let before = drawn_triangles(face_visible, valid, n - 1);
        let k = choose|k: int| 0 <= k < before.len() && before[k] == named;
        assert(all[k] == named);
    }
}

/// Sums of counters are sums, as long as they fit.
pub proof fn law_counters_add_up(a: u64, b: u64, c: u32, d: u32)
    ensures
        a + b <= u64::MAX ==> sum64(a, b) == a + b,
        a + b > u64::MAX ==> sum64(a, b) + 1 == a + b - u64::MAX,
        c + d <= u32::MAX ==> sum32(c, d) == c + d,
        c + d > u32::MAX ==> sum32(c, d) + 1 == c + d - u32::MAX,
{
}

/// The place of a triangle of the cube in the index table, from the numbers of its corners.
pub open spec fn table_place(corners: (usize, usize, usize)) -> int {
    2 * (corners.0 as int / 4) + corners.2 as int % 4 - 1
}

/// The triangles are drawn in the order of the index table, each once.
pub proof fn law_triangles_are_drawn_in_order(
    face_visible: Seq<bool>,
    valid: Seq<bool>,
    n: int,
    j: int,
    k: int,
)
    requires
        0 <= n <= 12,
        0 <= j < k < drawn_triangles(face_visible, valid, n).len(),
    ensures
        ({
            let all = drawn_triangles(face_visible, valid, n);
            0 <= table_place(all[j]) < table_place(all[k]) < n
        }),
    decreases n,
{
    lemma_places(face_visible, valid, n, j);
    lemma_places(face_visible, valid, n, k);
    if n > 0 {
        let before = drawn_triangles(face_visible, valid, n - 1);
        if k < before.len() {
            law_triangles_are_drawn_in_order(face_visible, valid, n - 1, j, k);
        } else {
            lemma_places(face_visible, valid, n - 1, j);
            lemma_table_place(n - 1);
        }
    }
}

proof fn lemma_table_place(t: int)
    requires
        0 <= t < 12,
    ensures
        table_place(
            (
                cube_index(3 * t) as usize,
                cube_index(3 * t + 1) as usize,
                cube_index(3 * t + 2) as usize,
            ),
        ) == t,
{
    let f = t / 2;
    assert((3 * t) / 6 == f && (3 * t + 2) / 6 == f);
    if t % 2 == 0 {
        assert((3 * t) % 6 == 0 && (3 * t + 2) % 6 == 2);
    } else {
        assert((3 * t) % 6 == 3 && (3 * t + 2) % 6 == 5);
    }
}

proof fn lemma_places(face_visible: Seq<bool>, valid: Seq<bool>, n: int, k: int)
    requires
        0 <= n <= 12,
        0 <= k < drawn_triangles(face_visible, valid, n).len(),
    ensures
        0 <= table_place(drawn_triangles(face_visible, valid, n)[k]) < n,
    decreases n,
{
    if n > 0 {
        let before = drawn_triangles(face_visible, valid, n - 1);
        if k < before.len() {
            lemma_places(face_visible, valid, n - 1, k);
        } else {
            lemma_table_place(n - 1);
        }
    }
}

} // verus!
