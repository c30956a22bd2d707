//! The section on the linker segments.

use crate::number::{pad_end, padded_end};
use super::log::{
    address, append_address, append_kib, box_bottom, info, kib_text, lines, log_bottom, log_ruler,
    log_tagged, ruler, tagged, LineView, LogLine,
};
use vstd::prelude::*;

verus! {

/// The boundaries of a linker segment.
#[derive(Clone, Copy, Debug)]
pub struct Segment {
    pub start: usize,
    pub end: usize,
}

impl Segment {
    /// The size of the segment; nothing where the boundaries are reversed.
    pub open spec fn size(self) -> nat {
        if self.end >= self.start {
            (self.end - self.start) as nat
        } else {
            0
        }
    }

    pub(crate) fn bytes(&self) -> (r: usize)
        ensures
            r == self.size(),
    {
        if self.end >= self.start {
            self.end - self.start
        } else {
            0
        }
    }
}

/// The boundaries of the linker segments.
#[derive(Clone, Copy, Debug)]
pub struct Segments {
    pub text: Segment,
    pub rodata: Segment,
    pub data: Segment,
    pub bss: Segment,
    pub heap: Segment,
}

impl Segments {
    /// Whether the footprints fit the address space.
    pub open spec fn fit(self) -> bool {
        &&& self.data.size() + self.bss.size() <= usize::MAX
        &&& self.text.size() + self.rodata.size() <= usize::MAX
    }
}

/// The line on a segment.
pub open spec fn segment_text(name: Seq<char>, s: Segment, note: Seq<char>) -> Seq<char> {
    "   "@ + pad_end(name, 10, ' ') + "  "@ + address(s.start as nat) + "  "@ + address(
        s.end as nat,
    ) + "  "@ + kib_text(s.size()) + note
}

fn log_segment(out: &mut Vec<LogLine>, label: &str, name: &str, seg: &Segment, note: &str)
    ensures
        lines(final(out)@) == lines(old(out)@).push(
            info(tagged(label@, segment_text(name@, *seg, note@))),
        ),
{
    let padded = padded_end(name, 10, ' ');
    let mut s = "   ".to_owned();
    s.append(padded.as_str());
    s.append("  ");
    append_address(&mut s, seg.start);
    s.append("  ");
    append_address(&mut s, seg.end);
    s.append("  ");
    append_kib(&mut s, seg.bytes());
    s.append(note);
    log_tagged(out, label, s.as_str());
}

/// The lines on the linker segments.
pub open spec fn segment_lines(label: Seq<char>, g: Segments) -> Seq<LineView> {
    seq![
        info(tagged(label, " ┌─────────────────────────── LINKER SEGMENTS ───────────────────────────┐"@)),
        info(tagged(label, "   Segment          Start         End       Size  Flags  Description"@)),
        info(tagged(label, ruler(72))),
        info(tagged(label, segment_text(".text"@, g.text, "  r-x    code in flash (XIP executed)"@))),
        info(tagged(label, segment_text(".rodata"@, g.rodata, "  r--    read-only data in flash"@))),
        info(tagged(label, segment_text(".data"@, g.data, "  rw-    initialised globals (SRAM, copied from flash at boot)"@))),
        info(tagged(label, segment_text(".bss"@, g.bss, "  rw-    zero-initialised globals (SRAM, zeroed at boot)"@))),
        info(tagged(label, segment_text("heap"@, g.heap, "  rw-    runtime heap (grows upward)"@))),
        info(tagged(label, ruler(72))),
        info(tagged(
            label,
            "   STATIC                              "@ + kib_text(g.data.size() + g.bss.size())
                + "       SRAM static footprint (.data + .bss)"@,
        )),
        info(tagged(
            label,
            "   FLASH                               "@ + kib_text(g.text.size() + g.rodata.size())
                + "       Flash footprint (.text + .rodata)"@,
        )),
        info(tagged(label, box_bottom())),
    ]
}

fn log_footprint(out: &mut Vec<LogLine>, label: &str, name: &str, bytes: usize, note: &str)
    ensures
        lines(final(out)@) == lines(old(out)@).push(
            info(tagged(label@, name@ + kib_text(bytes as nat) + note@)),
        ),
{
    let mut s = name.to_owned();
    append_kib(&mut s, bytes);
    s.append(note);
    log_tagged(out, label, s.as_str());
}

/// Logs the linker segments.
pub fn print_linker_segments(out: &mut Vec<LogLine>, label: &str, g: &Segments)
    requires
        g.fit(),
    ensures
        lines(final(out)@) == lines(old(out)@) + segment_lines(label@, *g),
{
    log_tagged(
        out,
        label,
        " ┌─────────────────────────── LINKER SEGMENTS ───────────────────────────┐",
    );
    log_tagged(
        out,
        label,
        "   Segment          Start         End       Size  Flags  Description",
    );
    log_ruler(out, label, 72);
    log_segment(out, label, ".text", &g.text, "  r-x    code in flash (XIP executed)");
    log_segment(out, label, ".rodata", &g.rodata, "  r--    read-only data in flash");
    log_segment(out, label, ".data", &g.data, "  rw-    initialised globals (SRAM, copied from flash at boot)");
    log_segment(out, label, ".bss", &g.bss, "  rw-    zero-initialised globals (SRAM, zeroed at boot)");
    log_segment(out, label, "heap", &g.heap, "  rw-    runtime heap (grows upward)");
    log_ruler(out, label, 72);
    log_footprint(
        out,
        label,
        "   STATIC                              ",
        g.data.bytes() + g.bss.bytes(),
        "       SRAM static footprint (.data + .bss)",
    );
    log_footprint(
        out,
        label,
        "   FLASH                               ",
        g.text.bytes() + g.rodata.bytes(),
        "       Flash footprint (.text + .rodata)",
    );
    log_bottom(out, label);
    assert(lines(out@) =~= lines(old(out)@) + segment_lines(label@, *g));
}

/// A segment reaches from its start over its size to its end.
pub proof fn law_segment_reaches_its_end(s: Segment)
    ensures
        s.start <= s.end ==> s.start + s.size() == s.end,
        s.end <= s.start ==> s.size() == 0,
{
}

/// Segments of up to two thousand million bytes always have computable footprints.
pub proof fn law_ordinary_segments_fit(g: Segments)
    requires
        g.text.end - g.text.start <= 2_000_000_000,
        g.rodata.end - g.rodata.start <= 2_000_000_000,
        g.data.end - g.data.start <= 2_000_000_000,
        g.bss.end - g.bss.start <= 2_000_000_000,
    ensures
        g.fit(),
{
}

} // verus!
