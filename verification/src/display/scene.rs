//! A frame of the shaded cube: the buffers are cleared, then the triangles are drawn in order.

use super::frame::{clear, pixels, solid, FB_BYTES, PIXELS, W};
use super::raster::{
    changes, color, colors_after, depth, depths_after, law_nearest_depth_is_kept,
    law_written_pixels_are_counted, rasterise_triangle, shown_count, Attributes, Triangle,
};
use super::shader::FAR_DEPTH;
use super::wireframe::clear_words;
use vstd::prelude::*;

verus! {

/// A triangle that is ready to be drawn.
#[derive(Clone, Copy)]
pub struct SceneTriangle {
    pub triangle: Triangle,
    pub attributes: Attributes,
}

/// The depths after the first `n` triangles are drawn over the depths `zb`.
pub open spec fn depths_over(zb: Seq<u16>, scene: Seq<SceneTriangle>, n: int) -> Seq<u16>
    decreases n,
{
    if n <= 0 {
        zb
    } else {
        depths_after(
            scene[n - 1].triangle,
            scene[n - 1].attributes,
            depths_over(zb, scene, n - 1),
            PIXELS as int,
        )
    }
}

/// The colours after the first `n` triangles are drawn over the screen `px` with the depths `zb`.
pub open spec fn colors_over(
    px: Seq<u16>,
    zb: Seq<u16>,
    scene: Seq<SceneTriangle>,
    n: int,
) -> Seq<u16>
    decreases n,
{
    if n <= 0 {
        px
    } else {
        colors_after(
            scene[n - 1].triangle,
            scene[n - 1].attributes,
            colors_over(px, zb, scene, n - 1),
            depths_over(zb, scene, n - 1),
            PIXELS as int,
        )
    }
}

/// How many pixels the first `n` triangles write over the depths `zb`.
pub open spec fn writes_over(zb: Seq<u16>, scene: Seq<SceneTriangle>, n: int) -> nat
    decreases n,
{
    if n <= 0 {
        0
    } else {
        writes_over(zb, scene, n - 1) + shown_count(
            scene[n - 1].triangle,
            scene[n - 1].attributes,
            depths_over(zb, scene, n - 1),
            PIXELS as int,
        )
    }
}

/// The depths of a frame after the first `n` triangles.
pub open spec fn scene_depths(scene: Seq<SceneTriangle>, n: int) -> Seq<u16> {
    depths_over(solid(FAR_DEPTH), scene, n)
}

/// The colours of a frame after the first `n` triangles.
pub open spec fn scene_colors(scene: Seq<SceneTriangle>, n: int) -> Seq<u16> {
    colors_over(solid(0), solid(FAR_DEPTH), scene, n)
}

/// How many pixels of a frame the first `n` triangles write.
pub open spec fn scene_writes(scene: Seq<SceneTriangle>, n: int) -> nat {
    writes_over(solid(FAR_DEPTH), scene, n)
}

/// Draws triangles over what the buffers hold, and returns how many pixels were written, up to
/// wrapping around.
pub fn draw_triangles(
    framebuffer: &mut [u8; FB_BYTES],
    z_buffer: &mut [u16; PIXELS],
    scene: &[SceneTriangle],
) -> (pixels_filled: u32)
    requires
        forall|i: int| 0 <= i < scene@.len() ==> (#[trigger] scene@[i]).triangle.wf(),
    ensures
        pixels(final(framebuffer)@) == colors_over(
            pixels(old(framebuffer)@),
            old(z_buffer)@,
            scene@,
            scene@.len() as int,
        ),
        final(z_buffer)@ == depths_over(old(z_buffer)@, scene@, scene@.len() as int),
        pixels_filled == writes_over(old(z_buffer)@, scene@, scene@.len() as int) % 0x1_0000_0000,
{
    let ghost px = pixels(framebuffer@);
    let ghost zb = z_buffer@;
    let mut pixels_filled: u32 = 0;
    let mut i: usize = 0;
    while i < scene.len()
        invariant
            i <= scene@.len(),
            forall|k: int| 0 <= k < scene@.len() ==> (#[trigger] scene@[k]).triangle.wf(),
            pixels(framebuffer@) == colors_over(px, zb, scene@, i as int),
            z_buffer@ == depths_over(zb, scene@, i as int),
            pixels_filled == writes_over(zb, scene@, i as int) % 0x1_0000_0000,
        decreases scene@.len() - i,
    {
        let t = scene[i];
        assert(scene@[i as int].triangle.wf());
        rasterise_triangle(
            framebuffer,
            z_buffer,
            &t.triangle,
            &t.attributes,
            &mut pixels_filled,
        );
        i = i + 1;
    }
    pixels_filled
}

/// Draws a frame and returns how many pixels were written, up to wrapping around.
pub fn render_scene(
    framebuffer: &mut [u8; FB_BYTES],
    z_buffer: &mut [u16; PIXELS],
    scene: &[SceneTriangle],
) -> (pixels_filled: u32)
    requires
        forall|i: int| 0 <= i < scene@.len() ==> (#[trigger] scene@[i]).triangle.wf(),
    ensures
        pixels(final(framebuffer)@) == scene_colors(scene@, scene@.len() as int),
        final(z_buffer)@ == scene_depths(scene@, scene@.len() as int),
        pixels_filled == scene_writes(scene@, scene@.len() as int) % 0x1_0000_0000,
{
    clear(framebuffer);
    clear_words(z_buffer, FAR_DEPTH);
    draw_triangles(framebuffer, z_buffer, scene)
}

/// The depth of triangle `k` at pixel `i`.
pub open spec fn depth_of(scene: Seq<SceneTriangle>, k: int, i: int) -> u16 {
    depth(scene[k].triangle, scene[k].attributes, i % (W as int), i / (W as int))
}

/// Whether triangle `k` covers pixel `i`.
pub open spec fn covered_by(scene: Seq<SceneTriangle>, k: int, i: int) -> bool {
    scene[k].triangle.covers(i % (W as int), i / (W as int))
}

/// The colour of triangle `k` at pixel `i`.
pub open spec fn color_of(scene: Seq<SceneTriangle>, k: int, i: int) -> u16 {
    color(scene[k].triangle, scene[k].attributes, i % (W as int), i / (W as int))
}

/// Whether triangle `k` is, of the first `n`, the one to show at pixel `i`: it covers the pixel,
/// its depth is within the range, none that covers the pixel is nearer, and none before it is as
/// near.
pub open spec fn is_nearest(scene: Seq<SceneTriangle>, n: int, k: int, i: int) -> bool {
    &&& 0 <= k < n
    &&& covered_by(scene, k, i)
    &&& depth_of(scene, k, i) < FAR_DEPTH
    &&& forall|j: int|
        0 <= j < n && #[trigger] covered_by(scene, j, i) ==> depth_of(scene, k, i) <= depth_of(
            scene,
            j,
            i,
        ) && (j < k ==> depth_of(scene, k, i) < depth_of(scene, j, i))
}

/// What shows is what is nearest. Either some triangle is the one to show at a pixel, and then the
/// pixel has its colour and its depth; or no triangle covers the pixel within the range of depths,
/// and then the pixel is black and its depth is the largest there is.
pub proof fn law_nearest_triangle_shows(scene: Seq<SceneTriangle>, n: int, i: int)
    requires
        0 <= n <= scene.len(),
        0 <= i < PIXELS,
    ensures
        scene_depths(scene, n).len() == PIXELS,
        scene_colors(scene, n).len() == PIXELS,
        forall|k: int| #[trigger]
            is_nearest(scene, n, k, i) ==> scene_colors(scene, n)[i] == color_of(scene, k, i)
                && scene_depths(scene, n)[i] == depth_of(scene, k, i),
        (exists|k: int| #[trigger] is_nearest(scene, n, k, i)) || {
            &&& scene_colors(scene, n)[i] == 0
            &&& scene_depths(scene, n)[i] == FAR_DEPTH
            &&& forall|k: int|
                0 <= k < n && #[trigger] covered_by(scene, k, i) ==> depth_of(scene, k, i)
                    == FAR_DEPTH
        },
    decreases n,
{
    if n > 0 {
        law_nearest_triangle_shows(scene, n - 1, i);
        let t = scene[n - 1];
        let before = scene_depths(scene, n - 1);
        law_nearest_depth_is_kept(t.triangle, t.attributes, before, i);
        let found = exists|k: int| #[trigger] is_nearest(scene, n - 1, k, i);
        let shows = covered_by(scene, n - 1, i) && depth_of(scene, n - 1, i) < before[i];
        if found {
            let k = choose|k: int| #[trigger] is_nearest(scene, n - 1, k, i);
            if !shows {
                assert(is_nearest(scene, n, k, i));
            }
        }
        if shows {
            assert(is_nearest(scene, n, n - 1, i));
        }
        assert forall|k: int| #[trigger] is_nearest(scene, n, k, i) implies scene_colors(
            scene,
            n,
        )[i] == color_of(scene, k, i) && scene_depths(scene, n)[i] == depth_of(scene, k, i) by {
            if k < n - 1 {
                assert(is_nearest(scene, n - 1, k, i));
                assert(!shows);
            }
        }
    }
}

/// A frame does not depend on what the buffers held before: pixels that no triangle writes are
/// black.
pub proof fn law_uncovered_pixels_are_black(scene: Seq<SceneTriangle>, n: int, i: int)
    requires
        0 <= n <= scene.len(),
        0 <= i < PIXELS,
        forall|k: int| 0 <= k < n ==> !#[trigger] covered_by(scene, k, i),
    ensures
        scene_colors(scene, n).len() == PIXELS,
        scene_colors(scene, n)[i] == 0,
    decreases n,
{
    if n > 0 {
        law_uncovered_pixels_are_black(scene, n - 1, i);
        assert(!covered_by(scene, n - 1, i));
    }
}

/// A frame counts the pixels that each triangle wrote: those whose depth it changed.
pub proof fn law_frame_counts_its_writes(zb: Seq<u16>, scene: Seq<SceneTriangle>, n: int)
    requires
        zb.len() == PIXELS,
        0 < n <= scene.len(),
    ensures
        writes_over(zb, scene, 0) == 0,
        writes_over(zb, scene, n) == writes_over(zb, scene, n - 1) + changes(
            depths_over(zb, scene, n - 1),
            depths_over(zb, scene, n),
            PIXELS as int,
        ),
{
    lemma_depths_keep_size(zb, scene, n - 1);
    law_written_pixels_are_counted(
        scene[n - 1].triangle,
        scene[n - 1].attributes,
        depths_over(zb, scene, n - 1),
        PIXELS as int,
    );
}

proof fn lemma_depths_keep_size(zb: Seq<u16>, scene: Seq<SceneTriangle>, n: int)
    ensures
        depths_over(zb, scene, n).len() == zb.len(),
    decreases n,
{
    if n > 0 {
        lemma_depths_keep_size(zb, scene, n - 1);
    }
}

/// A frame starts from a black screen without depth: without a triangle that is all there is.
pub proof fn law_empty_scene_is_black(scene: Seq<SceneTriangle>, i: int)
    requires
        0 <= i < PIXELS,
    ensures
        scene_colors(scene, 0)[i] == 0,
        scene_depths(scene, 0)[i] == 0xFFFF,
        scene_writes(scene, 0) == 0,
{
}

} // verus!
