//! The section on the memory map.

use crate::number::{decimal, pad_end, pad_start, padded_end, padded_start};
use super::log::{
    address, append_address, append_decimal_in, box_bottom, info, lines, log_bottom, log_ruler,
    log_tagged, ruler, tagged, LineView, LogLine,
};
use vstd::prelude::*;

verus! {

/// A region of the address space. `end` is its last byte; both addresses are 0 where the region
/// is not mapped.
#[derive(Clone, Copy, Debug)]
pub struct Region {
    pub name: &'static str,
    pub start: u32,
    pub end: u32,
    pub perms: &'static str,
    pub note: &'static str,
}

/// The contents of a [`Region`].
pub struct RegionView {
    pub name: Seq<char>,
    pub start: u32,
    pub end: u32,
    pub perms: Seq<char>,
    pub note: Seq<char>,
}

impl View for Region {
    type V = RegionView;

    open spec fn view(&self) -> RegionView {
        RegionView {
            name: self.name@,
            start: self.start,
            end: self.end,
            perms: self.perms@,
            note: self.note@,
        }
    }
}

/// The number of regions of the memory map.
pub const REGION_COUNT: usize = 7;

/// The memory map of the ESP32-C6, by the bus addresses of its high-performance core.
pub open spec fn region_view(i: int) -> RegionView {
    if i == 0 {
        RegionView {
            name: "ROM (boot mask-ROM)"@,
            start: 0x4000_0000,
            end: 0x4001_FFFF,
            perms: "r-x"@,
            note: "128 KiB, read-only boot ROM"@,
        }
    } else if i == 1 {
        RegionView {
            name: "IRAM (HP_SRAM, rwx)"@,
            start: 0x4080_0000,
            end: 0x4086_BFFF,
            perms: "rwx"@,
            note: "432 KiB, aliased with DRAM window"@,
        }
    } else if i == 2 {
        RegionView {
            name: "DRAM (HP_SRAM alias)"@,
            start: 0x4086_C000,
            end: 0x408F_FFFF,
            perms: "rw-"@,
            note: "400 KiB, same silicon as IRAM"@,
        }
    } else if i == 3 {
        RegionView {
            name: "LP_SRAM (RTC fast mem)"@,
            start: 0x5000_0000,
            end: 0x5000_3FFF,
            perms: "rw-"@,
            note: "16 KiB, survives deep-sleep"@,
        }
    } else if i == 4 {
        RegionView {
            name: "Flash XIP (code/rodata)"@,
            start: 0x4200_0000,
            end: 0x43FF_FFFF,
            perms: "r-x"@,
            note: "32 MiB virtual window (≤ 8 MiB chip)"@,
        }
    } else if i == 5 {
        RegionView {
            name: "Peripheral APB/AHB MMIO"@,
            start: 0x6000_0000,
            end: 0x6100_0000,
            perms: "rw-"@,
            note: "Memory-mapped registers"@,
        }
    } else {
        RegionView {
            name: "External SPI Flash (raw)"@,
            start: 0x0000_0000,
            end: 0x0000_0000,
            perms: "---"@,
            note: "Accessed via SPI driver, not mapped"@,
        }
    }
}

/// The region with the given number.
pub fn region(i: usize) -> (r: Region)
    requires
        i < REGION_COUNT,
    ensures
        r@ == region_view(i as int),
{
    if i == 0 {
        Region {
            name: "ROM (boot mask-ROM)",
            start: 0x4000_0000,
            end: 0x4001_FFFF,
            perms: "r-x",
            note: "128 KiB, read-only boot ROM",
        }
    } else if i == 1 {
        Region {
            name: "IRAM (HP_SRAM, rwx)",
            start: 0x4080_0000,
            end: 0x4086_BFFF,
            perms: "rwx",
            note: "432 KiB, aliased with DRAM window",
        }
    } else if i == 2 {
        Region {
            name: "DRAM (HP_SRAM alias)",
            start: 0x4086_C000,
            end: 0x408F_FFFF,
            perms: "rw-",
            note: "400 KiB, same silicon as IRAM",
        }
    } else if i == 3 {
        Region {
            name: "LP_SRAM (RTC fast mem)",
            start: 0x5000_0000,
            end: 0x5000_3FFF,
            perms: "rw-",
            note: "16 KiB, survives deep-sleep",
        }
    } else if i == 4 {
        Region {
            name: "Flash XIP (code/rodata)",
            start: 0x4200_0000,
            end: 0x43FF_FFFF,
            perms: "r-x",
            note: "32 MiB virtual window (≤ 8 MiB chip)",
        }
    } else if i == 5 {
        Region {
            name: "Peripheral APB/AHB MMIO",
            start: 0x6000_0000,
            end: 0x6100_0000,
            perms: "rw-",
            note: "Memory-mapped registers",
        }
    } else {
        Region {
            name: "External SPI Flash (raw)",
            start: 0x0000_0000,
            end: 0x0000_0000,
            perms: "---",
            note: "Accessed via SPI driver, not mapped",
        }
    }
}

/// The size of a region in KiB; nothing where the region is not mapped.
pub open spec fn region_kib_of(start: int, end: int) -> int {
    if start == 0 && end == 0 || end + 1 < start {
        0
    } else {
        (end + 1 - start) / 1024
    }
}

/// The size of a region in KiB.
pub fn region_kib(start: u32, end: u32) -> (r: u32)
    ensures
        r == region_kib_of(start as int, end as int),
{
    if start == 0 && end == 0 {
        0
    } else {
        let past: u64 = end as u64 + 1;
        if past < start as u64 {
            0
        } else {
            ((past - start as u64) / 1024) as u32
        }
    }
}

/// The line on a region.
pub open spec fn region_line(label: Seq<char>, r: RegionView) -> LineView {
    info(tagged(
        label,
        "   "@ + pad_end(r.name, 30, ' ') + "  "@ + address(r.start as nat) + "  "@ + address(
            r.end as nat,
        ) + "  "@ + pad_start(r.perms, 6, ' ') + "  "@ + pad_start(
            decimal(region_kib_of(r.start as int, r.end as int) as nat),
            5,
            ' ',
        ) + " KiB  "@ + r.note,
    ))
}

/// The lines on the memory map.
pub open spec fn map_lines(label: Seq<char>) -> Seq<LineView> {
    seq![
        info(tagged(label, " ┌─────────────────────────── STATIC MEMORY MAP ─────────────────────────┐"@)),
        info(tagged(label, "   Region                               Start         End   Perms     Size  Notes"@)),
        info(tagged(label, ruler(80))),
    ] + Seq::new(REGION_COUNT as nat, |i: int| region_line(label, region_view(i))) + seq![
        info(tagged(label, box_bottom())),
    ]
}

/// Logs the memory map.
pub fn print_memory_map(out: &mut Vec<LogLine>, label: &str)
    ensures
        lines(final(out)@) == lines(old(out)@) + map_lines(label@),
{
    log_tagged(
        out,
        label,
        " ┌─────────────────────────── STATIC MEMORY MAP ─────────────────────────┐",
    );
    log_tagged(
        out,
        label,
        "   Region                               Start         End   Perms     Size  Notes",
    );
    log_ruler(out, label, 80);
    let ghost before = lines(out@);
    let ghost row = |i: int| region_line(label@, region_view(i));
    let mut i: usize = 0;
    assert(lines(out@) =~= before + Seq::new(0, row));
    while i < REGION_COUNT
        invariant
            i <= REGION_COUNT,
            row == (|i: int| region_line(label@, region_view(i))),
            lines(out@) == before + Seq::new(i as nat, row),
        decreases REGION_COUNT - i,
    {
        let r = region(i);
        let name = padded_end(r.name, 30, ' ');
        let perms = padded_start(r.perms, 6, ' ');
        let mut s = "   ".to_owned();
        s.append(name.as_str());
        s.append("  ");
        append_address(&mut s, r.start as usize);
        s.append("  ");
        append_address(&mut s, r.end as usize);
        s.append("  ");
        s.append(perms.as_str());
        s.append("  ");
        append_decimal_in(&mut s, region_kib(r.start, r.end) as usize, 5);
        s.append(" KiB  ");
        s.append(r.note);
        log_tagged(out, label, s.as_str());
        assert(lines(out@) =~= before + Seq::new((i + 1) as nat, row));
        i = i + 1;
    }
    log_bottom(out, label);
    assert(lines(out@) =~= lines(old(out)@) + map_lines(label@));
}

/// The size of a region counts its last byte, and is rounded down to whole KiB of 1024 bytes.
pub proof fn law_region_size_counts_both_ends(start: int, end: int)
    requires
        0 <= start <= end,
        end > 0,
    ensures
        ({
            let bytes = end - start + 1;
            let k = region_kib_of(start, end);
            k * 1024 <= bytes < (k + 1) * 1024
        }),
{
}

/// A region that is not mapped has no size.
pub proof fn law_unmapped_region_has_no_size(start: int, end: int)
    ensures
        region_kib_of(0, 0) == 0,
        end + 1 < start ==> region_kib_of(start, end) == 0,
{
}

/// The mapped regions lie apart from one another.
pub proof fn law_regions_lie_apart(i: int, j: int)
    requires
        0 <= i < 6,
        0 <= j < 6,
        i != j,
    ensures
        region_view(i).start < region_view(i).end,
        region_view(i).end < region_view(j).start || region_view(j).end < region_view(i).start,
{
}

/// Each region has its line, in the order of the map.
pub proof fn law_every_region_has_its_line(label: Seq<char>, i: int)
    requires
        0 <= i < 7,
    ensures
        map_lines(label).len() == 11,
        map_lines(label)[3 + i] == region_line(label, region_view(i)),
{
}

} // verus!
