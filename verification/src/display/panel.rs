//! The ST7735S panel: the commands that the driver sends, and what the panel then shows.

use super::frame::{
    on_screen, pixel_index, pixels, solid, split_color, FB_BYTES, H, PIXELS, W,
};
use vstd::prelude::*;

verus! {

/// The first row of the panel's memory that is visible.
pub const DISPLAY_Y_OFFSET: u16 = 24;

/// Sets the columns to write to.
pub const CASET: u8 = 0x2A;

/// Sets the rows to write to.
pub const RASET: u8 = 0x2B;

/// Writes pixels.
pub const RAMWR: u8 = 0x2C;

/// What is done on the bus. A command byte goes out with the data line low, data bytes with the
/// data line high.
#[derive(Debug)]
pub enum BusOp<'a> {
    Command(u8),
    Data(Vec<u8>),
    /// Send the bytes that many times.
    Repeat { bytes: Vec<u8>, times: usize },
    /// Send a whole framebuffer.
    Frame(&'a [u8; FB_BYTES]),
    DelayMs(u32),
}

/// The contents of a [`BusOp`].
#[verifier::ext_equal]
pub enum OpView {
    Command(u8),
    Data(Seq<u8>),
    Repeat { bytes: Seq<u8>, times: nat },
    DelayMs(u32),
}

impl<'a> View for BusOp<'a> {
    type V = OpView;

    open spec fn view(&self) -> OpView {
        match *self {
            BusOp::Command(c) => OpView::Command(c),
            BusOp::Data(d) => OpView::Data(d@),
            BusOp::Repeat { bytes, times } => OpView::Repeat { bytes: bytes@, times: times as nat },
            BusOp::Frame(fb) => OpView::Data(fb@),
            BusOp::DelayMs(ms) => OpView::DelayMs(ms),
        }
    }
}

/// The contents of bus operations.
pub open spec fn op_views(ops: Seq<BusOp>) -> Seq<OpView> {
    ops.map_values(|op: BusOp| op@)
}

/// A command with its data.
pub open spec fn command_data(cmd: u8, data: Seq<u8>) -> Seq<OpView> {
    seq![OpView::Command(cmd), OpView::Data(data)]
}

/// The operations that initialise the panel: reset, wake up, frame rates, power, RGB565 colours,
/// landscape orientation, and on.
pub open spec fn init_ops() -> Seq<OpView> {
    seq![OpView::Command(0x01), OpView::DelayMs(200), OpView::Command(0x11), OpView::DelayMs(200)]
        + command_data(0xB1, seq![0x01u8, 0x2C, 0x2D]) + command_data(
        0xB2,
        seq![0x01u8, 0x2C, 0x2D],
    ) + command_data(0xB3, seq![0x01u8, 0x2C, 0x2D, 0x01, 0x2C, 0x2D]) + command_data(
        0xB4,
        seq![0x07u8],
    ) + command_data(0xC0, seq![0xA2u8, 0x02, 0x84]) + command_data(0xC1, seq![0xC5u8])
        + command_data(0xC2, seq![0x0Au8, 0x00]) + command_data(0xC3, seq![0x8Au8, 0x2A])
        + command_data(0xC4, seq![0x8Au8, 0xEE]) + command_data(0xC5, seq![0x0Eu8]) + seq![
        OpView::Command(0x20),
    ] + command_data(0x3A, seq![0x05u8]) + command_data(0x36, seq![0x68u8]) + seq![
        OpView::Command(0x29),
        OpView::DelayMs(200),
    ]
}

/// The operations that select the whole visible area.
pub open spec fn full_window_ops() -> Seq<OpView> {
    command_data(CASET, seq![0u8, 0, 0, 159]) + command_data(RASET, seq![0u8, 24, 0, 103])
}

/// The low byte of a coordinate.
pub open spec fn low_byte(v: int) -> u8 {
    (v % 256) as u8
}

/// The bytes of a colour, high byte first.
pub open spec fn color_bytes(color: u16) -> Seq<u8> {
    seq![(color / 256) as u8, (color % 256) as u8]
}

/// The operations that write one pixel.
pub open spec fn pixel_ops(x: int, y: int, color: u16) -> Seq<OpView> {
    let cx = low_byte(x);
    let cy = low_byte(y + DISPLAY_Y_OFFSET);
    command_data(CASET, seq![0u8, cx, 0, cx]) + command_data(RASET, seq![0u8, cy, 0, cy])
        + command_data(RAMWR, color_bytes(color))
}

/// One row of a colour.
pub open spec fn row_bytes(color: u16) -> Seq<u8> {
    Seq::new((2 * W) as nat, |i: int| color_bytes(color)[i % 2])
}

/// The operations that fill the screen: one row, sent once per line.
pub open spec fn fill_ops(color: u16) -> Seq<OpView> {
    full_window_ops() + seq![
        OpView::Command(RAMWR),
        OpView::Repeat { bytes: row_bytes(color), times: H as nat },
    ]
}

/// The operations that send a frame.
pub open spec fn frame_ops(fb: Seq<u8>) -> Seq<OpView> {
    command_data(RAMWR, fb)
}

/// The driver: it collects the operations that are to be done on the bus.
#[derive(Debug)]
pub struct RawST7735<'a> {
    pub ops: Vec<BusOp<'a>>,
}

impl<'a> View for RawST7735<'a> {
    type V = Seq<OpView>;

    open spec fn view(&self) -> Seq<OpView> {
        op_views(self.ops@)
    }
}

impl<'a> RawST7735<'a> {
    /// A driver with nothing to do.
    pub fn new() -> (r: RawST7735<'a>)
        ensures
            r@ == Seq::<OpView>::empty(),
    {
        let r = RawST7735 { ops: Vec::new() };
        assert(r@ =~= Seq::<OpView>::empty());
        r
    }

    fn push(&mut self, op: BusOp<'a>)
        ensures
            final(self)@ == old(self)@.push(op@),
    {
        self.ops.push(op);
        assert(self@ =~= old(self)@.push(op@));
    }

    /// Sends a command.
    pub fn cmd(&mut self, cmd: u8)
        ensures
            final(self)@ == old(self)@.push(OpView::Command(cmd)),
    {
        self.push(BusOp::Command(cmd));
    }

    /// Sends data.
    pub fn data(&mut self, data: Vec<u8>)
        ensures
            final(self)@ == old(self)@.push(OpView::Data(data@)),
    {
        self.push(BusOp::Data(data));
    }

    /// Sends a command with its data.
    pub fn cmd_data(&mut self, cmd: u8, data: Vec<u8>)
        ensures
            final(self)@ == old(self)@ + command_data(cmd, data@),
    {
        self.cmd(cmd);
        self.data(data);
        assert(self@ =~= old(self)@ + command_data(cmd, data@));
    }

    /// Initialises the panel.
    pub fn init(&mut self)
        ensures
            final(self)@ == old(self)@ + init_ops(),
    {
        self.cmd(0x01);
        self.push(BusOp::DelayMs(200));
        self.cmd(0x11);
        self.push(BusOp::DelayMs(200));
        self.cmd_data(0xB1, vec![0x01, 0x2C, 0x2D]);
        self.cmd_data(0xB2, vec![0x01, 0x2C, 0x2D]);
        self.cmd_data(0xB3, vec![0x01, 0x2C, 0x2D, 0x01, 0x2C, 0x2D]);
        self.cmd_data(0xB4, vec![0x07]);
        self.cmd_data(0xC0, vec![0xA2, 0x02, 0x84]);
        self.cmd_data(0xC1, vec![0xC5]);
        self.cmd_data(0xC2, vec![0x0A, 0x00]);
        self.cmd_data(0xC3, vec![0x8A, 0x2A]);
        self.cmd_data(0xC4, vec![0x8A, 0xEE]);
        self.cmd_data(0xC5, vec![0x0E]);
        self.cmd(0x20);
        self.cmd_data(0x3A, vec![0x05]);
        self.cmd_data(0x36, vec![0x68]);
        self.cmd(0x29);
        self.push(BusOp::DelayMs(200));
        assert(self@ =~~= old(self)@ + init_ops());
    }

    /// Selects the whole visible area for the frames that follow.
    pub fn set_full_frame_window(&mut self)
        ensures
            final(self)@ == old(self)@ + full_window_ops(),
    {
        self.cmd_data(CASET, vec![0, 0, 0, 159]);
        self.cmd_data(RASET, vec![0, 24, 0, 103]);
        assert(self@ =~~= old(self)@ + full_window_ops());
    }

    /// Writes one pixel.
    pub fn set_pixel(&mut self, x: u16, y: u16, color: u16)
        requires
            y + DISPLAY_Y_OFFSET <= u16::MAX,
        ensures
            final(self)@ == old(self)@ + pixel_ops(x as int, y as int, color),
    {
        let py: u16 = y + DISPLAY_Y_OFFSET;
        let cx: u8 = (x % 256) as u8;
        let cy: u8 = (py % 256) as u8;
        let (hi, lo) = split_color(color);
        self.cmd_data(CASET, vec![0, cx, 0, cx]);
        self.cmd_data(RASET, vec![0, cy, 0, cy]);
        self.cmd_data(RAMWR, vec![hi, lo]);
        assert(self@ =~~= old(self)@ + pixel_ops(x as int, y as int, color));
    }

    /// Fills the screen with one colour.
    pub fn fill_solid(&mut self, color: u16)
        ensures
            final(self)@ == old(self)@ + fill_ops(color),
    {
        self.set_full_frame_window();
        let (hi, lo) = split_color(color);
        let mut row: Vec<u8> = Vec::new();
        let mut i: usize = 0;
        assert(color_bytes(color) =~= seq![hi, lo]);
        while i < W
            invariant
                i <= W,
                color_bytes(color) == seq![hi, lo],
                row@.len() == 2 * i,
                forall|j: int|
                    0 <= j < row@.len() ==> #[trigger] row@[j] == color_bytes(color)[j % 2],
            decreases W - i,
        {
            row.push(hi);
            row.push(lo);
            i = i + 1;
        }
        assert(row@ =~= row_bytes(color));
        self.cmd(RAMWR);
        self.push(BusOp::Repeat { bytes: row, times: H });
        assert(self@ =~~= old(self)@ + fill_ops(color));
    }

    /// Sends a frame to the area that is selected.
    pub fn flush_frame(&mut self, fb: &'a [u8; FB_BYTES])
        ensures
            final(self)@ == old(self)@ + frame_ops(fb@),
    {
        self.cmd(RAMWR);
        self.push(BusOp::Frame(fb));
        assert(self@ =~~= old(self)@ + frame_ops(fb@));
    }
}

/// The state of a panel: the last command, the area that is selected, how many pixels of it were
/// written since, and the visible pixels.
pub struct Panel {
    pub command: u8,
    pub columns: (int, int),
    pub rows: (int, int),
    pub cursor: nat,
    pub visible: Seq<u16>,
}

impl Panel {
    /// The number of the visible pixel `i` within the area that is selected, row by row.
    pub open spec fn place(self, i: int) -> int {
        (i / 160 + DISPLAY_Y_OFFSET - self.rows.0) * (self.columns.1 - self.columns.0 + 1) + (i
            % 160 - self.columns.0)
    }

    /// Whether the visible pixel `i` lies in the area that is selected.
    pub open spec fn selects(self, i: int) -> bool {
        &&& self.columns.0 <= i % 160 <= self.columns.1
        &&& self.rows.0 <= i / 160 + DISPLAY_Y_OFFSET <= self.rows.1
    }

    /// After further pixels were written to the area that is selected.
    pub open spec fn write(self, px: Seq<u16>) -> Panel {
        Panel {
            cursor: self.cursor + px.len(),
            visible: Seq::new(
                PIXELS as nat,
                |i: int|
                    if self.selects(i) && self.cursor <= self.place(i) < self.cursor + px.len() {
                        px[self.place(i) - self.cursor]
                    } else {
                        self.visible[i]
                    },
            ),
            ..self
        }
    }

    /// After data.
    pub open spec fn data(self, d: Seq<u8>) -> Panel {
        if self.command == CASET && d.len() == 4 {
            Panel { columns: (d[0] * 256 + d[1], d[2] * 256 + d[3]), ..self }
        } else if self.command == RASET && d.len() == 4 {
            Panel { rows: (d[0] * 256 + d[1], d[2] * 256 + d[3]), ..self }
        } else if self.command == RAMWR {
            self.write(pixels(d))
        } else {
            self
        }
    }

    /// After the same data several times.
    pub open spec fn repeat(self, d: Seq<u8>, times: nat) -> Panel
        decreases times,
    {
        if times == 0 {
            self
        } else {
            self.repeat(d, (times - 1) as nat).data(d)
        }
    }

    /// After an operation on the bus.
    pub open spec fn after(self, op: OpView) -> Panel {
        match op {
            OpView::Command(c) => Panel { command: c, cursor: 0, ..self },
            OpView::Data(d) => self.data(d),
            OpView::Repeat { bytes, times } => self.repeat(bytes, times),
            OpView::DelayMs(_) => self,
        }
    }

    /// After operations on the bus.
    pub open spec fn after_all(self, ops: Seq<OpView>) -> Panel
        decreases ops.len(),
    {
        if ops.len() == 0 {
            self
        } else {
            self.after_all(ops.drop_last()).after(ops.last())
        }
    }

    /// Whether exactly the visible area is selected.
    pub open spec fn window_is_full(self) -> bool {
        self.columns == (0int, 159int) && self.rows == (24int, 103int)
    }
}

pub(crate) proof fn lemma_after_all_joins(p: Panel, a: Seq<OpView>, b: Seq<OpView>)
    ensures
        p.after_all(a + b) == p.after_all(a).after_all(b),
    decreases b.len(),
{
    if b.len() == 0 {
        assert(a + b =~= a);
    } else {
        assert((a + b).drop_last() =~= a + b.drop_last());
        lemma_after_all_joins(p, a, b.drop_last());
    }
}

proof fn lemma_after_command_data(p: Panel, cmd: u8, d: Seq<u8>)
    ensures
        p.after_all(command_data(cmd, d)) == (Panel { command: cmd, cursor: 0, ..p }).data(d),
{
    reveal_with_fuel(Panel::after_all, 3);
    let ops = command_data(cmd, d);
    assert(ops.drop_last() =~= seq![OpView::Command(cmd)]);
    assert(ops.drop_last().drop_last() =~= Seq::<OpView>::empty());
}

/// Selecting the whole area selects exactly what is visible and changes no pixel.
pub proof fn law_full_window_selects_all(p: Panel)
    ensures
        p.after_all(full_window_ops()).window_is_full(),
        p.after_all(full_window_ops()).visible == p.visible,
{
    let first = command_data(CASET, seq![0u8, 0, 0, 159]);
    let second = command_data(RASET, seq![0u8, 24, 0, 103]);
    lemma_after_all_joins(p, first, second);
    lemma_after_command_data(p, CASET, seq![0u8, 0, 0, 159]);
    lemma_after_command_data(p.after_all(first), RASET, seq![0u8, 24, 0, 103]);
}

/// Once the whole area is selected, a frame that is sent is what the panel shows, and the area
/// stays selected for the next frame.
pub proof fn law_flush_shows_the_frame(p: Panel, fb: Seq<u8>)
    requires
        p.window_is_full(),
        fb.len() == FB_BYTES,
    ensures
        p.after_all(frame_ops(fb)).visible == pixels(fb),
        p.after_all(frame_ops(fb)).window_is_full(),
{
    lemma_after_command_data(p, RAMWR, fb);
    let after = p.after_all(frame_ops(fb));
    assert forall|i: int| 0 <= i < PIXELS implies after.visible[i] == pixels(fb)[i] by {
        let q = Panel { command: RAMWR, cursor: 0, ..p };
        assert(q.place(i) == (i / 160) * 160 + i % 160);
        assert(q.selects(i));
    }
    assert(after.visible =~= pixels(fb));
}

/// Filling the screen makes every visible pixel the colour.
pub proof fn law_fill_shows_the_colour(p: Panel, color: u16)
    ensures
        p.after_all(fill_ops(color)).visible == solid(color),
        p.after_all(fill_ops(color)).window_is_full(),
{
    let q = p.after_all(full_window_ops());
    law_full_window_selects_all(p);
    let tail = seq![
        OpView::Command(RAMWR),
        OpView::Repeat { bytes: row_bytes(color), times: H as nat },
    ];
    lemma_after_all_joins(p, full_window_ops(), tail);
    reveal_with_fuel(Panel::after_all, 3);
    assert(tail.drop_last() =~= seq![OpView::Command(RAMWR)]);
    assert(tail.drop_last().drop_last() =~= Seq::<OpView>::empty());
    let start = Panel { command: RAMWR, cursor: 0, ..q };
    lemma_rows_fill(start, color, H as nat);
    let after = start.repeat(row_bytes(color), H as nat);
    assert forall|i: int| 0 <= i < PIXELS implies after.visible[i] == color by {
        assert(i / 160 < 80);
    }
    assert(after.visible =~= solid(color));
}

proof fn lemma_rows_fill(p: Panel, color: u16, n: nat)
    requires
        p.window_is_full(),
        p.command == RAMWR,
        p.cursor == 0,
        n <= H,
    ensures
        ({
            let after = p.repeat(row_bytes(color), n);
            &&& after.window_is_full()
            &&& after.command == RAMWR
            &&& after.cursor == 160 * n
            &&& n > 0 ==> after.visible.len() == PIXELS
            &&& forall|i: int|
                0 <= i < PIXELS && i / 160 < n ==> #[trigger] after.visible[i] == color
        }),
    decreases n,
{
    if n > 0 {
        let before = p.repeat(row_bytes(color), (n - 1) as nat);
        lemma_rows_fill(p, color, (n - 1) as nat);
        let after = p.repeat(row_bytes(color), n);
        let px = pixels(row_bytes(color));
        assert forall|k: int| 0 <= k < px.len() implies #[trigger] px[k] == color by {
            let row = row_bytes(color);
            assert(row[2 * k] == color_bytes(color)[0]);
            assert(row[2 * k + 1] == color_bytes(color)[1]);
        }
        assert forall|i: int| 0 <= i < PIXELS && i / 160 < n implies #[trigger] after.visible[i]
            == color by {
            assert(before.place(i) == (i / 160) * 160 + i % 160);
            assert(before.selects(i));
            if i / 160 < n - 1 {
                assert(before.place(i) < 160 * (n - 1));
                assert(before.visible[i] == color);
            } else {
                assert(i / 160 == n - 1);
            }
        }
    }
}

/// Writing a pixel changes that pixel and no other.
pub proof fn law_set_pixel_changes_one_pixel(p: Panel, x: int, y: int, color: u16)
    requires
        on_screen(x, y),
        p.visible.len() == PIXELS,
    ensures
        p.after_all(pixel_ops(x, y, color)).visible == p.visible.update(pixel_index(x, y), color),
{
    let cx = low_byte(x);
    let cy = low_byte(y + DISPLAY_Y_OFFSET);
    let first = command_data(CASET, seq![0u8, cx, 0, cx]);
    let second = command_data(RASET, seq![0u8, cy, 0, cy]);
    let third = command_data(RAMWR, color_bytes(color));
    lemma_after_all_joins(p, first + second, third);
    lemma_after_all_joins(p, first, second);
    lemma_after_command_data(p, CASET, seq![0u8, cx, 0, cx]);
    lemma_after_command_data(p.after_all(first), RASET, seq![0u8, cy, 0, cy]);
    let q = p.after_all(first + second);
    lemma_after_command_data(q, RAMWR, color_bytes(color));
    assert(q.columns == (x, x) && q.rows == (y + 24, y + 24));
    let start = Panel { command: RAMWR, cursor: 0, ..q };
    let px = pixels(color_bytes(color));
    assert(px.len() == 1);
    assert(px[0] == color);
    let after = p.after_all(pixel_ops(x, y, color));
    let wanted = p.visible.update(pixel_index(x, y), color);
    assert forall|i: int| 0 <= i < PIXELS implies after.visible[i] == wanted[i] by {
        if start.selects(i) {
            assert(i == pixel_index(x, y));
            let line = i / 160 + DISPLAY_Y_OFFSET - start.rows.0;
            let width = start.columns.1 - start.columns.0 + 1;
            assert(line * width == 0) by (nonlinear_arith)
                requires
                    line == 0,
            ;
            assert(start.place(i) == 0);
        } else {
            assert(i != pixel_index(x, y));
        }
    }
    assert(after.visible =~= wanted);
}

} // verus!
