use embedded_graphics::draw_target::DrawTarget;
use embedded_graphics::framebuffer::Framebuffer;
use embedded_graphics::geometry::Point;
use embedded_graphics::mono_font::ascii::FONT_10X20;
use embedded_graphics::mono_font::MonoTextStyle;
use embedded_graphics::pixelcolor::raw::{BigEndian, RawU16};
use embedded_graphics::pixelcolor::{IntoStorage, Rgb565, Rgb888, RgbColor};
use embedded_graphics::text::{Baseline, Text};
use embedded_graphics::Drawable;
use esp32_workshop::display::basic::{
    clear_request, draw_point, draw_points, draw_text, has_readable_color, is_color_text, ok_json,
    parse_hex_color, text_request,
};
use esp32_workshop::display::frame::{
    clear, put_pixel, rgb565, split_color, FB_BYTES, H, PIXELS, W,
};
use esp32_workshop::display::line::{draw_line, draw_line_words, line_is_drawable};
use esp32_workshop::display::mode::{set_mode, set_running, MODE_BASIC, MODE_RENDERER};
use esp32_workshop::display::panel::{BusOp, RawST7735};
use esp32_workshop::display::raster::{
    rasterise_triangle, setup_triangle, shade, Attributes, DepthRamp, Ramp, Triangle,
};
use esp32_workshop::display::render_loop::{
    owner_tick, render_tick, OwnerAction, RenderAction, StageTimes,
};
use esp32_workshop::display::scene::{draw_triangles, render_scene, SceneTriangle};
use esp32_workshop::display::shader::{
    cube_indices, cube_vertices, visible_triangles, FrameStats, FAR_DEPTH,
};
use esp32_workshop::display::wireframe::{
    cube_corner, edge, edges_are_drawable, render_edges, render_edges_words, DIM, ORANGE,
};

fn words(fb: &[u8; FB_BYTES]) -> Vec<u16> {
    fb.chunks(2).map(|b| u16::from_be_bytes([b[0], b[1]])).collect()
}

/// A panel that does what the bus says.
struct TestPanel {
    command: u8,
    columns: (usize, usize),
    rows: (usize, usize),
    cursor: usize,
    high_byte: Option<u8>,
    memory: Vec<Vec<u16>>,
}

impl TestPanel {
    fn new() -> TestPanel {
        TestPanel {
            command: 0,
            columns: (0, 0),
            rows: (0, 0),
            cursor: 0,
            high_byte: None,
            memory: vec![vec![0x1234; 162]; 132],
        }
    }

    fn data(&mut self, d: &[u8]) {
        let pair = |i: usize| d[i] as usize * 256 + d[i + 1] as usize;
        match self.command {
            0x2A => self.columns = (pair(0), pair(2)),
            0x2B => self.rows = (pair(0), pair(2)),
            0x2C => {
                for b in d {
                    match self.high_byte.take() {
                        None => self.high_byte = Some(*b),
                        Some(hi) => {
                            let width = self.columns.1 - self.columns.0 + 1;
                            let x = self.columns.0 + self.cursor % width;
                            let y = self.rows.0 + self.cursor / width;
                            assert!(y <= self.rows.1);
                            self.memory[y][x] = u16::from_be_bytes([hi, *b]);
                            self.cursor += 1;
                        }
                    }
                }
            }
            _ => {}
        }
    }

    fn run(&mut self, driver: &RawST7735) {
        for op in &driver.ops {
            match op {
                BusOp::Command(c) => {
                    self.command = *c;
                    self.cursor = 0;
                    self.high_byte = None;
                }
                BusOp::Data(d) => self.data(d),
                BusOp::Repeat { bytes, times } => {
                    for _ in 0..*times {
                        self.data(bytes);
                    }
                }
                BusOp::Frame(fb) => self.data(&fb[..]),
                BusOp::DelayMs(_) => {}
            }
        }
    }

    fn visible(&self) -> Vec<u16> {
        (0..PIXELS).map(|i| self.memory[24 + i / W][i % W]).collect()
    }
}

#[test]
fn pixels_are_stored_high_byte_first() {
    let mut fb = [1u8; FB_BYTES];
    clear(&mut fb);
    put_pixel(&mut fb, 159, 79, 0xABCD);
    put_pixel(&mut fb, 0, 1, 0x0102);
    assert_eq!(&fb[FB_BYTES - 2..], &[0xAB, 0xCD]);
    assert_eq!(&fb[320..322], &[0x01, 0x02]);
    assert_eq!(words(&fb).iter().filter(|w| **w != 0).count(), 2);
    assert_eq!(split_color(0xABCD), (0xAB, 0xCD));
    assert_eq!(FB_BYTES, 2 * W * H);
}

#[test]
fn colours_are_packed() {
    assert_eq!(rgb565(255, 255, 255), 0xFFFF);
    assert_eq!(rgb565(255, 133, 89), ORANGE);
    assert_eq!(rgb565(80, 40, 20), DIM);
    assert_eq!(rgb565(7, 3, 7), 0);
}

fn reference_line(mut x0: i32, mut y0: i32, x1: i32, y1: i32) -> Vec<(i32, i32)> {
    let dx = (x1 - x0).abs();
    let dy = -(y1 - y0).abs();
    let sx = if x0 < x1 { 1 } else { -1 };
    let sy = if y0 < y1 { 1 } else { -1 };
    let mut err = dx + dy;
    let mut points = Vec::new();
    loop {
        points.push((x0, y0));
        if x0 == x1 && y0 == y1 {
            return points;
        }
        let e2 = 2 * err;
        if e2 >= dy {
            err += dy;
            x0 += sx;
        }
        if e2 <= dx {
            err += dx;
            y0 += sy;
        }
    }
}

#[test]
fn lines_are_drawn_and_clipped() {
    let ends = [
        (0, 0, 159, 79),
        (159, 79, 0, 0),
        (5, 70, 150, 3),
        (10, 10, 10, 60),
        (10, 10, 90, 10),
        (7, 7, 7, 7),
        (-50, -20, 200, 100),
        (80, -1000, 81, 1000),
        (300, 300, 400, 400),
        (3, 0, 0, 79),
    ];
    for (x0, y0, x1, y1) in ends {
        let mut fb = [0u8; FB_BYTES];
        let mut fw = [0u16; PIXELS];
        assert!(line_is_drawable(x0, y0, x1, y1));
        draw_line(&mut fb, x0, y0, x1, y1, 0xF00F);
        draw_line_words(&mut fw, x0, y0, x1, y1, 0xF00F);
        let points = reference_line(x0, y0, x1, y1);
        let mut wanted = vec![0u16; PIXELS];
        for (x, y) in &points {
            if (0..160).contains(x) && (0..80).contains(y) {
                wanted[(y * 160 + x) as usize] = 0xF00F;
            }
        }
        assert_eq!(words(&fb), wanted);
        assert_eq!(&fw[..], &wanted[..]);
        assert_eq!(points.len() as i32, (x1 - x0).abs().max((y1 - y0).abs()) + 1);
        for w in points.windows(2) {
            assert!((w[0].0 - w[1].0).abs() <= 1 && (w[0].1 - w[1].1).abs() <= 1);
        }
    }
}

#[test]
fn lines_that_leave_32_bits_are_refused() {
    assert!(line_is_drawable(-350_000_000, 0, 350_000_000, 10));
    assert!(!line_is_drawable(i32::MIN, 0, i32::MAX, 0));
    assert!(!line_is_drawable(0, i32::MIN, 0, 0));
}

#[test]
fn cube_edges_join_neighbouring_corners() {
    let edges = [
        (0, 1), (1, 2), (2, 3), (3, 0), (4, 5), (5, 6), (6, 7), (7, 4), (0, 4), (1, 5), (2, 6), (3, 7),
    ];
    let corners = [
        (false, false, false), (true, false, false), (true, true, false), (false, true, false),
        (false, false, true), (true, false, true), (true, true, true), (false, true, true),
    ];
    for (c, wanted) in corners.iter().enumerate() {
        assert_eq!(cube_corner(c), *wanted);
    }
    for (e, wanted) in edges.iter().enumerate() {
        assert_eq!(edge(e), *wanted);
        let (a, b) = (corners[wanted.0], corners[wanted.1]);
        let differ = (a.0 != b.0) as u32 + (a.1 != b.1) as u32 + (a.2 != b.2) as u32;
        assert_eq!(differ, 1);
    }
}

#[test]
fn wireframes_are_drawn_edge_by_edge() {
    let corners = [
        (40, 20), (120, 20), (120, 60), (40, 60), (50, 30), (110, 30), (110, 50), (50, 50),
    ];
    let mut bright = [true; 12];
    bright[1] = false;
    bright[9] = false;
    assert!(edges_are_drawable(&corners));
    let mut fb = [9u8; FB_BYTES];
    let mut fw = [9u16; PIXELS];
    render_edges(&mut fb, &corners, &bright);
    render_edges_words(&mut fw, &corners, &bright);
    let mut wanted = [0u8; FB_BYTES];
    for e in 0..12 {
        let (a, b) = edge(e);
        let color = if bright[e] { ORANGE } else { DIM };
        draw_line(&mut wanted, corners[a].0, corners[a].1, corners[b].0, corners[b].1, color);
    }
    assert!(fb == wanted);
    assert_eq!(&fw[..], &words(&wanted)[..]);
    assert!(words(&fb).iter().all(|c| [0, ORANGE, DIM].contains(c)));
    let mut far = corners;
    far[3] = (i32::MIN, i32::MAX);
    assert!(!edges_are_drawable(&far));
}

fn ramp_at(r: Ramp, i: i32, j: i32) -> i32 {
    r.start.wrapping_add(r.dx.wrapping_mul(i)).wrapping_add(r.dy.wrapping_mul(j))
}

fn reference_triangle(px: &mut [u16], zb: &mut [u16], t: &Triangle, at: &Attributes) -> u32 {
    let mut n = 0;
    for y in t.min_y..=t.max_y {
        for x in t.min_x..=t.max_x {
            let (i, j) = (x - t.min_x, y - t.min_y);
            if ramp_at(t.w0, i, j) | ramp_at(t.w1, i, j) | ramp_at(t.w2, i, j) < 0 {
                continue;
            }
            let idx = (y * 160 + x) as usize;
            let z = at.z.start + at.z.dx * i as i64 + at.z.dy * j as i64;
            let z = (z >> 16).clamp(0, 65535) as u16;
            if z < zb[idx] {
                zb[idx] = z;
                let u = (ramp_at(at.u, i, j) >> 16).clamp(0, 255) as u32;
                let v = (ramp_at(at.v, i, j) >> 16).clamp(0, 255) as u32;
                let l = (ramp_at(at.light, i, j) >> 16).clamp(0, 255) as u32;
                let (r, g, b) = ((u * l) >> 8, (v * l) >> 8, l >> 2);
                px[idx] = (((r & 0xF8) as u16) << 8) | (((g & 0xFC) as u16) << 3)
                    | (((b as u16) & 0xF8) >> 3);
                n += 1;
            }
        }
    }
    n
}

fn attributes(z: i64) -> Attributes {
    Attributes {
        z: DepthRamp { start: z << 16, dx: 3 << 14, dy: -(1 << 14) },
        u: Ramp { start: 10 << 16, dx: 2 << 16, dy: 1 << 15 },
        v: Ramp { start: 200 << 16, dx: -(1 << 16), dy: 1 << 16 },
        light: Ramp { start: 100 << 16, dx: 1 << 16, dy: 1 << 16 },
    }
}

fn triangle(v0: (i32, i32), v1: (i32, i32), v2: (i32, i32)) -> Option<Triangle> {
    let lo = (v0.0.min(v1.0).min(v2.0), v0.1.min(v1.1).min(v2.1));
    let hi = (v0.0.max(v1.0).max(v2.0), v0.1.max(v1.1).max(v2.1));
    setup_triangle(v0, v1, v2, lo, hi)
}

#[test]
fn triangles_are_rasterised() {
    let shapes = [
        ((10, 10), (60, 15), (20, 70)),
        ((-40, -40), (300, 20), (10, 200)),
        ((150, 70), (170, 75), (140, 90)),
        ((60, 15), (10, 10), (20, 70)),
    ];
    let mut fb = [0u8; FB_BYTES];
    let mut zb = [FAR_DEPTH; PIXELS];
    let mut px = vec![0u16; PIXELS];
    let mut zs = vec![FAR_DEPTH; PIXELS];
    let mut filled = 0u32;
    let mut wanted = 0u32;
    for (k, (v0, v1, v2)) in shapes.iter().enumerate() {
        let t = triangle(*v0, *v1, *v2).unwrap();
        let at = attributes(100 + 16_000 * k as i64);
        rasterise_triangle(&mut fb, &mut zb, &t, &at, &mut filled);
        wanted += reference_triangle(&mut px, &mut zs, &t, &at);
        assert_eq!(words(&fb), px);
        assert_eq!(&zb[..], &zs[..]);
        assert_eq!(filled, wanted);
        let before = filled;
        rasterise_triangle(&mut fb, &mut zb, &t, &at, &mut filled);
        assert_eq!(filled, before);
    }
    assert!(wanted > 1000);
}

#[test]
fn triangles_off_the_screen_are_dropped() {
    assert!(triangle((-10, -10), (-5, -10), (-10, -5)).is_none());
    assert!(triangle((160, 0), (170, 0), (165, 10)).is_none());
    assert!(triangle((159, 79), (170, 79), (159, 90)).is_some());
}

#[test]
fn fragments_are_shaded() {
    assert_eq!(shade(255 << 16, 255 << 16, 255 << 16), 0xFFE7);
    assert_eq!(shade(0, 0, 0), 0);
    assert_eq!(shade(-1, 300 << 16, 128 << 16), 0x03E4);
}

#[test]
fn scenes_show_what_is_nearest() {
    let near = triangle((10, 10), (100, 10), (10, 70)).unwrap();
    let far = triangle((10, 10), (110, 12), (15, 75)).unwrap();
    let flat = |z: i64, light: i32| Attributes {
        z: DepthRamp { start: z << 16, dx: 0, dy: 0 },
        u: Ramp { start: 255 << 16, dx: 0, dy: 0 },
        v: Ramp { start: 0, dx: 0, dy: 0 },
        light: Ramp { start: light << 16, dx: 0, dy: 0 },
    };
    let a = SceneTriangle { triangle: near, attributes: flat(100, 255) };
    let b = SceneTriangle { triangle: far, attributes: flat(200, 128) };
    let mut fb1 = [1u8; FB_BYTES];
    let mut fb2 = [2u8; FB_BYTES];
    let mut z1 = [3u16; PIXELS];
    let mut z2 = [4u16; PIXELS];
    let n1 = render_scene(&mut fb1, &mut z1, &[a, b]);
    let n2 = render_scene(&mut fb2, &mut z2, &[b, a]);
    assert!(z1 == z2);
    assert!(fb1 == fb2);
    assert!(n1 <= n2);
    assert_eq!(z1.iter().filter(|z| **z != FAR_DEPTH).count() as u32, n1);
    for i in 0..PIXELS {
        assert!([100, 200, FAR_DEPTH].contains(&z1[i]));
        assert_eq!(z1[i] == FAR_DEPTH, words(&fb1)[i] == 0 || z1[i] == FAR_DEPTH);
    }
    let mut z = [0u16; PIXELS];
    assert_eq!(render_scene(&mut fb1, &mut z, &[]), 0);
    assert!(fb1.iter().all(|b| *b == 0) && z.iter().all(|d| *d == FAR_DEPTH));
}

/// A triangle of fifteen pixels at one depth, in one colour.
fn small(z_unit: f32, u: i32, v: i32) -> SceneTriangle {
    let start = (z_unit * 65535.0 * 65536.0) as i64;
    let flat = |value: i32| Ramp { start: value << 16, dx: 0, dy: 0 };
    SceneTriangle {
        triangle: triangle((0, 0), (4, 0), (0, 4)).unwrap(),
        attributes: Attributes {
            z: DepthRamp { start, dx: 0, dy: 0 },
            u: flat(u),
            v: flat(v),
            light: flat(255),
        },
    }
}

#[test]
fn nearer_triangles_hide_farther_ones_over_the_whole_range() {
    let mut fb = [0u8; FB_BYTES];
    let mut zb = [FAR_DEPTH; PIXELS];
    let mut filled = 0u32;
    let far = small(0.9, 255, 0);
    let near = small(0.6, 0, 255);
    rasterise_triangle(&mut fb, &mut zb, &far.triangle, &far.attributes, &mut filled);
    assert_eq!(filled, 15);
    assert_eq!(zb[0], 58981);
    rasterise_triangle(&mut fb, &mut zb, &near.triangle, &near.attributes, &mut filled);
    assert_eq!(filled, 30);
    for y in 0..5usize {
        for x in 0..5 - y {
            let i = y * 160 + x;
            assert_eq!((fb[2 * i], fb[2 * i + 1]), (0x07, 0xE7));
            assert_eq!(zb[i], 39321);
        }
    }
    let (mut fb2, mut zb2) = ([0u8; FB_BYTES], [0u16; PIXELS]);
    assert_eq!(render_scene(&mut fb2, &mut zb2, &[near, far]), 15);
    assert!(fb2 == fb && zb2 == zb);
    let (mut fb3, mut zb3) = ([0u8; FB_BYTES], [FAR_DEPTH; PIXELS]);
    assert_eq!(draw_triangles(&mut fb3, &mut zb3, &[far]), 15);
    assert_eq!(draw_triangles(&mut fb3, &mut zb3, &[near, far]), 15);
    assert!(fb3 == fb && zb3 == zb);
}

#[test]
fn of_equal_depths_the_first_shows() {
    let (mut fb, mut zb) = ([0u8; FB_BYTES], [0u16; PIXELS]);
    let first = small(0.75, 255, 0);
    let second = small(0.75, 0, 255);
    assert_eq!(render_scene(&mut fb, &mut zb, &[first, second]), 15);
    assert_eq!((fb[0], fb[1]), (0xF8, 0x07));
}

#[test]
fn depths_beyond_the_range_are_brought_into_it() {
    let (mut fb, mut zb) = ([0u8; FB_BYTES], [0u16; PIXELS]);
    assert_eq!(render_scene(&mut fb, &mut zb, &[small(1.5, 255, 0)]), 0);
    assert_eq!(render_scene(&mut fb, &mut zb, &[small(-0.5, 255, 0)]), 15);
    assert_eq!(zb[0], 0);
    let mut steep = small(0.5, 255, 0);
    steep.attributes.z = DepthRamp { start: i64::MAX, dx: i64::MIN, dy: i64::MIN };
    assert_eq!(render_scene(&mut fb, &mut zb, &[steep]), 14);
}

#[test]
fn cube_faces_and_triangles() {
    let v = cube_vertices();
    for f in 0..6 {
        let corner = &v[4 * f..4 * f + 4];
        for k in 0..4 {
            let (p, n) = (corner[k].pos, corner[k].normal);
            assert_eq!(p.0 * n.0 + p.1 * n.1 + p.2 * n.2, 1);
        }
        let uvs: Vec<(u8, u8)> = corner.iter().map(|c| c.uv).collect();
        assert!(uvs.iter().all(|uv| uv.0 <= 1 && uv.1 <= 1));
    }
    let indices = cube_indices();
    assert_eq!(&indices[..6], &[0, 2, 1, 0, 3, 2]);
    assert_eq!(&indices[30..], &[20, 22, 21, 20, 23, 22]);
    let mut visible = [false; 6];
    visible[1] = true;
    let mut valid = [true; 24];
    assert_eq!(visible_triangles(&visible, &valid), vec![(4, 6, 5), (4, 7, 6)]);
    valid[5] = false;
    assert_eq!(visible_triangles(&visible, &valid), vec![(4, 7, 6)]);
    assert_eq!(visible_triangles(&[true; 6], &[true; 24]).len(), 12);
}

#[test]
fn frame_statistics_are_summed_up() {
    let mut total = FrameStats::default();
    let frame = FrameStats { raster_us: 5, pixels_filled: u32::MAX, ..FrameStats::default() };
    total.accumulate(&frame);
    total.accumulate(&frame);
    assert_eq!(total.raster_us, 10);
    assert_eq!(total.pixels_filled, u32::MAX - 1);
}

#[test]
fn stage_times_are_averaged() {
    let mut t: StageTimes<3> = StageTimes::new();
    assert_eq!(t.average_us(0), 0);
    t.add_frame(&[10, 1, u64::MAX]);
    t.add_frame(&[15, 2, 2]);
    assert_eq!((t.frames, t.sums_us), (2, [25, 3, 1]));
    assert_eq!((t.average_us(0), t.average_us(1), t.average_us(2)), (12, 1, 0));
    t.reset();
    assert_eq!((t.frames, t.sums_us), (0, [0, 0, 0]));
    assert!(!StageTimes::<3>::is_due(0) && StageTimes::<3>::is_due(1));
}

#[test]
fn renderers_take_turns_with_the_screen() {
    let mut inactive = true;
    assert_eq!(render_tick(&mut inactive, false, true), RenderAction::Wait { blank: false });
    assert_eq!(render_tick(&mut inactive, true, true), RenderAction::Draw { select: true });
    assert_eq!(render_tick(&mut inactive, true, true), RenderAction::Draw { select: false });
    assert_eq!(render_tick(&mut inactive, true, false), RenderAction::Wait { blank: true });
    assert_eq!(render_tick(&mut inactive, true, false), RenderAction::Wait { blank: false });
    assert!(inactive);
    let mut stopped = false;
    assert_eq!(owner_tick(&mut stopped, true), OwnerAction::Draw);
    assert_eq!(owner_tick(&mut stopped, false), OwnerAction::Blank);
    assert_eq!(owner_tick(&mut stopped, false), OwnerAction::Wait);
    assert_eq!(owner_tick(&mut stopped, true), OwnerAction::Resume);
    assert_eq!(owner_tick(&mut stopped, true), OwnerAction::Draw);
}

#[test]
fn panel_initialisation() {
    let mut d = RawST7735::new();
    d.init();
    let mut commands = Vec::new();
    let mut delays = 0;
    for op in &d.ops {
        match op {
            BusOp::Command(c) => commands.push(*c),
            BusOp::DelayMs(ms) => delays += ms,
            _ => {}
        }
    }
    assert_eq!(
        commands,
        [
            0x01, 0x11, 0xB1, 0xB2, 0xB3, 0xB4, 0xC0, 0xC1, 0xC2, 0xC3, 0xC4, 0xC5, 0x20, 0x3A, 0x36,
            0x29
        ]
    );
    assert_eq!(delays, 600);
    assert!(matches!(&d.ops[5], BusOp::Data(b) if *b == [0x01, 0x2C, 0x2D]));
}

#[test]
fn the_panel_shows_frames_fills_and_pixels() {
    let mut panel = TestPanel::new();
    let mut fb = [0u8; FB_BYTES];
    for (i, b) in fb.iter_mut().enumerate() {
        *b = (i * 7 % 251) as u8;
    }
    let mut d = RawST7735::new();
    d.set_full_frame_window();
    d.flush_frame(&fb);
    panel.run(&d);
    assert_eq!(panel.visible(), words(&fb));
    let mut d = RawST7735::new();
    fb.reverse();
    d.flush_frame(&fb);
    panel.run(&d);
    assert_eq!(panel.visible(), words(&fb));
    let mut d = RawST7735::new();
    d.fill_solid(0xBEEF);
    panel.run(&d);
    assert_eq!(panel.visible(), vec![0xBEEF; PIXELS]);
    let mut d = RawST7735::new();
    d.set_pixel(159, 79, 0x0001);
    d.set_pixel(0, 0, 0x0002);
    panel.run(&d);
    let mut wanted = vec![0xBEEF; PIXELS];
    wanted[PIXELS - 1] = 1;
    wanted[0] = 2;
    assert_eq!(panel.visible(), wanted);
    assert_eq!(panel.memory[23][0], 0x1234);
    assert_eq!(panel.memory[104][0], 0x1234);
}

#[test]
fn points_are_clipped() {
    let mut d = RawST7735::new();
    draw_point(&mut d, -1, 0, 1);
    draw_point(&mut d, 160, 0, 1);
    draw_point(&mut d, 0, 80, 1);
    draw_point(&mut d, i32::MIN, i32::MAX, 1);
    assert!(d.ops.is_empty());
    draw_point(&mut d, 159, 79, 1);
    assert_eq!(d.ops.len(), 6);
    assert!(matches!(&d.ops[3], BusOp::Data(b) if *b == [0, 103, 0, 103]));
}

#[test]
fn points_are_shown_in_one_colour() {
    let points = [(159, 79), (-1, 3), (5, 0), (160, 0), (5, 0), (0, i32::MAX)];
    let mut d = RawST7735::new();
    draw_points(&mut d, &points, 0x07E0);
    let mut panel = TestPanel::new();
    panel.run(&d);
    let mut wanted = vec![0u16; PIXELS];
    wanted[5] = 0x07E0;
    wanted[PIXELS - 1] = 0x07E0;
    assert_eq!(panel.visible(), wanted);
}

#[test]
fn text_is_drawn_by_the_font() {
    for message in ["Hello", "", "ESP32 workshop, a long line", "ä\nb"] {
        let mut d = RawST7735::new();
        draw_text(&mut d, message, 0xF81F);
        let mut panel = TestPanel::new();
        panel.run(&d);
        let mut frame = Framebuffer::<Rgb565, RawU16, BigEndian, W, H, FB_BYTES>::new();
        frame.clear(Rgb565::BLACK).unwrap();
        let style = MonoTextStyle::new(&FONT_10X20, Rgb565::MAGENTA);
        Text::with_baseline(message, Point::new(4, 36), style, Baseline::Middle)
            .draw(&mut frame)
            .unwrap();
        assert_eq!(panel.visible(), words(frame.data()));
        assert_eq!(panel.visible().iter().any(|p| *p != 0), !message.is_empty());
    }
}

/// The places of the pixels that a driver sets after clearing the screen, in order.
fn set_pixels(d: &RawST7735, from: usize) -> Vec<(u8, u8)> {
    d.ops[from..]
        .chunks(6)
        .map(|ops| match (&ops[1], &ops[3]) {
            (BusOp::Data(x), BusOp::Data(y)) => (x[1], y[1] - 24),
            other => panic!("{:?}", other),
        })
        .collect()
}

#[test]
fn text_is_sent_character_by_character() {
    let mut cleared = RawST7735::new();
    cleared.fill_solid(0);
    let from = cleared.ops.len();
    let mut d = RawST7735::new();
    draw_text(&mut d, "ab\nc", 0xFFFF);
    let sent = set_pixels(&d, from);
    let cells = [(4, 27), (14, 27), (4, 47)];
    let mut wanted = Vec::new();
    for (left, top) in cells {
        let mut cell: Vec<(u8, u8)> = sent
            .iter()
            .copied()
            .filter(|(x, y)| (left..left + 10).contains(x) && (top..top + 20).contains(y))
            .collect();
        assert!(!cell.is_empty());
        cell.sort_by_key(|(x, y)| (*y, *x));
        wanted.append(&mut cell);
    }
    assert_eq!(sent, wanted);
}

#[test]
fn colours_are_read() {
    assert_eq!(parse_hex_color("#FF8559"), Rgb565::from(Rgb888::new(255, 133, 89)).into_storage());
    assert_eq!(parse_hex_color("ff8559"), 0xFC2B);
    assert_eq!(parse_hex_color("##000000"), 0);
    assert_eq!(parse_hex_color("fff"), 0xFFFF);
    assert_eq!(parse_hex_color(""), 0xFFFF);
    assert_eq!(parse_hex_color("zz0000"), 0xF800);
    assert_eq!(parse_hex_color("00+f00"), Rgb565::from(Rgb888::new(0, 15, 0)).into_storage());
    assert_eq!(parse_hex_color("äöü"), 0xFFFF);
    assert!(is_color_text("äöü"));
    assert!(!is_color_text("a€zz"));
    assert!(is_color_text("€"));
    for v in 0..=255u8 {
        let hex = format!("{:02x}{:02x}{:02x}", v, v, 255 - v);
        assert_eq!(parse_hex_color(&hex), Rgb565::from(Rgb888::new(v, v, 255 - v)).into_storage());
    }
}

#[test]
fn text_and_clear_requests() {
    assert_eq!(text_request("/api/display/text"), ("Hello".to_string(), 0xFFFF));
    assert_eq!(
        text_request("/api/display/text?msg=Hi%20there&color=00ff00"),
        ("Hi there".to_string(), 0x07E0)
    );
    assert_eq!(clear_request("/api/display/clear"), 0);
    assert_eq!(clear_request("/api/display/clear?color=ff0000"), 0xF800);
    assert_eq!(clear_request("/api/display/clear?color=red"), 0xFFFF);
    assert!(has_readable_color("/api/display/clear"));
    assert!(!has_readable_color("/api/display/clear?color=a€zz"));
    assert_eq!(ok_json(), "{\"ok\":true}");
}

#[test]
fn sent_messages_come_back() {
    let codes: Vec<u8> = (0..=255).collect();
    let encoded: String = codes.iter().map(|b| format!("%{:02X}", b)).collect();
    let wanted: String = codes.iter().map(|b| *b as char).collect();
    let uri = format!("/api/display/text?msg={}", encoded);
    assert_eq!(text_request(&uri), (wanted, 0xFFFF));
}

#[test]
fn modes_are_switched() {
    let mut mode = 7;
    assert_eq!(set_mode(&mut mode, "/api/display/mode?set=renderer"), "{\"mode\":\"renderer\"}");
    assert_eq!(mode, MODE_RENDERER);
    for uri in [
        "/api/display/mode?set=basic",
        "/api/display/mode",
        "/api/display/mode?set=RENDERER",
        "/api/display/mode?x=set=renderer",
        "/api/display/mode?a?set=renderer",
    ] {
        mode = MODE_RENDERER;
        assert_eq!(set_mode(&mut mode, uri), "{\"mode\":\"basic\"}");
        assert_eq!(mode, MODE_BASIC);
    }
    assert_eq!(set_mode(&mut mode, "/m?set=renderer?x"), "{\"mode\":\"renderer\"}");
    let mut running = true;
    assert_eq!(set_running(&mut running, false), "{\"running\":false}");
    assert!(!running);
    assert_eq!(set_running(&mut running, true), "{\"running\":true}");
    assert!(running);
}
