//! The section on the heap, and what is wrong with it.

use crate::number::{decimal, pad_end, pad_start, padded_end};
use super::log::{
    append_decimal, append_decimal_in, append_kib, bar, bar_text, box_bottom, filled_cells, info,
    kib_text, law_bar_is_full_when_all_is_used, law_filled_cells_are_the_used_share, lines,
    log_bottom, log_ruler, log_tagged, push_text, ruler, tagged, texts, LineView, LogLine,
};
use vstd::prelude::*;

verus! {

/// The number of heap capabilities that are reported.
pub const CAP_COUNT: usize = 7;

/// The name of a heap capability, long or short.
pub open spec fn cap_view(i: int, short: bool) -> Seq<char> {
    if i == 0 {
        if short {
            "INTERNAL"@
        } else {
            "INTERNAL (on-chip SRAM)"@
        }
    } else if i == 1 {
        if short {
            "8BIT"@
        } else {
            "8BIT  (byte-addressable)"@
        }
    } else if i == 2 {
        if short {
            "32BIT"@
        } else {
            "32BIT (word-aligned / IRAM)"@
        }
    } else if i == 3 {
        if short {
            "DMA"@
        } else {
            "DMA-capable"@
        }
    } else if i == 4 {
        if short {
            "EXEC"@
        } else {
            "EXEC  (IRAM, executable)"@
        }
    } else if i == 5 {
        if short {
            "SPIRAM"@
        } else {
            "SPIRAM (external PSRAM)"@
        }
    } else {
        if short {
            "DEFAULT"@
        } else {
            "DEFAULT (general purpose)"@
        }
    }
}

/// The name of a heap capability, long or short.
pub fn cap_name(i: usize, short: bool) -> (r: &'static str)
    requires
        i < CAP_COUNT,
    ensures
        r@ == cap_view(i as int, short),
{
    if i == 0 {
        if short {
            "INTERNAL"
        } else {
            "INTERNAL (on-chip SRAM)"
        }
    } else if i == 1 {
        if short {
            "8BIT"
        } else {
            "8BIT  (byte-addressable)"
        }
    } else if i == 2 {
        if short {
            "32BIT"
        } else {
            "32BIT (word-aligned / IRAM)"
        }
    } else if i == 3 {
        if short {
            "DMA"
        } else {
            "DMA-capable"
        }
    } else if i == 4 {
        if short {
            "EXEC"
        } else {
            "EXEC  (IRAM, executable)"
        }
    } else if i == 5 {
        if short {
            "SPIRAM"
        } else {
            "SPIRAM (external PSRAM)"
        }
    } else {
        if short {
            "DEFAULT"
        } else {
            "DEFAULT (general purpose)"
        }
    }
}

/// What was read of the heap with one capability.
#[derive(Clone, Copy, Debug)]
pub struct HeapReading {
    pub free: usize,
    pub used: usize,
    pub largest: usize,
    pub low_water: usize,
    pub free_blocks: usize,
    pub used_blocks: usize,
    pub total_blocks: usize,
}

impl HeapReading {
    /// Whether percentages of the reading can be computed in the machine's word.
    pub open spec fn fits(self) -> bool {
        &&& self.free + self.used <= usize::MAX
        &&& self.used * 100 <= usize::MAX
        &&& self.largest * 100 <= usize::MAX
    }

    /// All bytes, free and used.
    pub open spec fn total(self) -> nat {
        (self.free + self.used) as nat
    }

    /// How much of the free memory lies outside the largest block, in percent.
    pub open spec fn fragmentation(self) -> nat {
        if self.free == 0 {
            0
        } else {
            (100 - filled_cells(self.largest as nat, self.free as nat, 100)) as nat
        }
    }

    fn fragmentation_pct(&self) -> (r: usize)
        requires
            self.fits(),
        ensures
            r == self.fragmentation(),
    {
        if self.free == 0 {
            0
        } else {
            let share: usize = self.largest * 100 / self.free;
            if share < 100 {
                100 - share
            } else {
                0
            }
        }
    }
}

/// The two lines on a heap capability.
pub open spec fn heap_row(label: Seq<char>, name: Seq<char>, h: HeapReading) -> Seq<LineView> {
    seq![
        info(tagged(
            label,
            "   "@ + pad_end(name, 36, ' ') + "  "@ + pad_start(
                decimal(h.total() / 1024),
                6,
                ' ',
            ) + "  "@ + pad_start(decimal((h.used / 1024) as nat), 6, ' ') + "  "@ + pad_start(
                decimal((h.free / 1024) as nat),
                6,
                ' ',
            ) + "  "@ + pad_start(decimal((h.largest / 1024) as nat), 6, ' ') + "  "@ + pad_start(
                decimal(h.total_blocks as nat),
                5,
                ' ',
            ) + "  "@ + pad_start(decimal(h.fragmentation()), 4, ' ') + "%  "@ + bar_text(
                h.used as nat,
                h.total(),
            ),
        )),
        info(tagged(
            label,
            "                                           low-water "@ + pad_start(
                decimal((h.low_water / 1024) as nat),
                4,
                ' ',
            ) + " KiB  alloc-blks "@ + pad_start(decimal(h.used_blocks as nat), 4, ' ')
                + "  free-blks "@ + pad_start(decimal(h.free_blocks as nat), 4, ' '),
        )),
    ]
}

fn log_heap_row(out: &mut Vec<LogLine>, label: &str, name: &str, h: &HeapReading)
    requires
        h.fits(),
    ensures
        lines(final(out)@) == lines(old(out)@) + heap_row(label@, name@, *h),
{
    let total: usize = h.free + h.used;
    let frag: usize = h.fragmentation_pct();
    let padded = padded_end(name, 36, ' ');
    let usage = bar(h.used, total);
    let mut s = "   ".to_owned();
    s.append(padded.as_str());
    s.append("  ");
    append_decimal_in(&mut s, total / 1024, 6);
    s.append("  ");
    append_decimal_in(&mut s, h.used / 1024, 6);
    s.append("  ");
    append_decimal_in(&mut s, h.free / 1024, 6);
    s.append("  ");
    append_decimal_in(&mut s, h.largest / 1024, 6);
    s.append("  ");
    append_decimal_in(&mut s, h.total_blocks, 5);
    s.append("  ");
    append_decimal_in(&mut s, frag, 4);
    s.append("%  ");
    s.append(usage.as_str());
    log_tagged(out, label, s.as_str());
    let mut s =
        "                                           low-water ".to_owned();
    append_decimal_in(&mut s, h.low_water / 1024, 4);
    s.append(" KiB  alloc-blks ");
    append_decimal_in(&mut s, h.used_blocks, 4);
    s.append("  free-blks ");
    append_decimal_in(&mut s, h.free_blocks, 4);
    log_tagged(out, label, s.as_str());
    assert(lines(out@) =~= lines(old(out)@) + heap_row(label@, name@, *h));
}

/// Whether the free memory is in many small pieces.
pub open spec fn is_fragmented(h: HeapReading) -> bool {
    h.fragmentation() >= 30
}

/// Whether little memory is left.
pub open spec fn is_low(h: HeapReading) -> bool {
    h.free < 8 * 1024 && h.total() > 0
}

/// Whether no piece of the free memory is of use.
pub open spec fn is_tiny(h: HeapReading) -> bool {
    h.largest < 4 * 1024 && h.free > 16 * 1024
}

/// What is wrong with the heap that has one capability.
pub open spec fn anomalies_of(short: Seq<char>, h: HeapReading) -> Seq<Seq<char>> {
    let fragmented = if h.fragmentation() >= 50 {
        seq![
            "FRAG HIGH  : "@ + short + " — "@ + decimal(h.fragmentation())
                + "% fragmented  (free "@ + decimal((h.free / 1024) as nat)
                + " KiB, largest block "@ + decimal((h.largest / 1024) as nat) + " KiB)"@,
        ]
    } else if is_fragmented(h) {
        seq!["FRAG MOD   : "@ + short + " — "@ + decimal(h.fragmentation()) + "% fragmented"@]
    } else {
        Seq::empty()
    };
    let low = if is_low(h) {
        seq![
            "LOW HEAP   : "@ + short + " — only "@ + decimal((h.free / 1024) as nat)
                + " KiB remaining"@,
        ]
    } else {
        Seq::empty()
    };
    let tiny = if is_tiny(h) {
        seq![
            "TINY BLOCK : "@ + short + " — largest free block "@ + decimal(
                (h.largest / 1024) as nat,
            ) + " KiB despite "@ + decimal((h.free / 1024) as nat)
                + " KiB total free (severe fragmentation)"@,
        ]
    } else {
        Seq::empty()
    };
    fragmented + low + tiny
}

fn scan_heap(found: &mut Vec<String>, short: &str, h: &HeapReading)
    requires
        h.fits(),
    ensures
        texts(final(found)@) == texts(old(found)@) + anomalies_of(short@, *h),
{
    let frag: usize = h.fragmentation_pct();
    if frag >= 50 {
        let mut s = "FRAG HIGH  : ".to_owned();
        s.append(short);
        s.append(" — ");
        append_decimal(&mut s, frag);
        s.append("% fragmented  (free ");
        append_decimal(&mut s, h.free / 1024);
        s.append(" KiB, largest block ");
        append_decimal(&mut s, h.largest / 1024);
        s.append(" KiB)");
        push_text(found, s);
    } else if frag >= 30 {
        let mut s = "FRAG MOD   : ".to_owned();
        s.append(short);
        s.append(" — ");
        append_decimal(&mut s, frag);
        s.append("% fragmented");
        push_text(found, s);
    }
    if h.free < 8 * 1024 && h.free + h.used > 0 {
        let mut s = "LOW HEAP   : ".to_owned();
        s.append(short);
        s.append(" — only ");
        append_decimal(&mut s, h.free / 1024);
        s.append(" KiB remaining");
        push_text(found, s);
    }
    if h.largest < 4 * 1024 && h.free > 16 * 1024 {
        let mut s = "TINY BLOCK : ".to_owned();
        s.append(short);
        s.append(" — largest free block ");
        append_decimal(&mut s, h.largest / 1024);
        s.append(" KiB despite ");
        append_decimal(&mut s, h.free / 1024);
        s.append(" KiB total free (severe fragmentation)");
        push_text(found, s);
    }
    assert(texts(found@) =~= texts(old(found)@) + anomalies_of(short@, *h));
}

/// What was read of the whole heap.
#[derive(Clone, Copy, Debug)]
pub struct HeapReadings {
    pub caps: [HeapReading; CAP_COUNT],
    pub total_free: usize,
    pub minimum_free: usize,
    pub largest_block: usize,
}

impl HeapReadings {
    /// Whether percentages of all readings can be computed in the machine's word.
    pub open spec fn fit(self) -> bool {
        forall|i: int| 0 <= i < CAP_COUNT ==> (#[trigger] self.caps@[i]).fits()
    }
}

/// The lines on the first `n` capabilities.
pub open spec fn heap_rows(label: Seq<char>, caps: Seq<HeapReading>, n: int) -> Seq<LineView>
    decreases n,
{
    if n <= 0 {
        Seq::empty()
    } else {
        heap_rows(label, caps, n - 1) + heap_row(label, cap_view(n - 1, false), caps[n - 1])
    }
}

/// What is wrong with the heaps that have the first `n` capabilities.
pub open spec fn heap_anomalies(caps: Seq<HeapReading>, n: int) -> Seq<Seq<char>>
    decreases n,
{
    if n <= 0 {
        Seq::empty()
    } else {
        heap_anomalies(caps, n - 1) + anomalies_of(cap_view(n - 1, true), caps[n - 1])
    }
}

/// The lines on the heap.
pub open spec fn heap_lines(label: Seq<char>, h: HeapReadings) -> Seq<LineView> {
    seq![
        info(tagged(label, " ┌─────────────────────────── HEAP CAPABILITY STATISTICS ────────────────┐"@)),
        info(tagged(
            label,
            "   Capability                             Total    Used    Free  LargeB   Blks  Frag%  Usage"@,
        )),
        info(tagged(
            label,
            "                                            KiB     KiB     KiB     KiB                [20 chars]"@,
        )),
        info(tagged(label, ruler(105))),
    ] + heap_rows(label, h.caps@, CAP_COUNT as int) + seq![
        info(tagged(label, ruler(105))),
        info(tagged(
            label,
            "   TOTAL free (default caps) : "@ + kib_text(h.total_free as nat)
                + "  lifetime-min : "@ + kib_text(h.minimum_free as nat) + "  largest-block : "@
                + kib_text(h.largest_block as nat),
        )),
        info(tagged(label, box_bottom())),
    ]
}

/// Logs the state of the heap and returns what is wrong with it.
pub fn print_heap(out: &mut Vec<LogLine>, label: &str, h: &HeapReadings) -> (found: Vec<String>)
    requires
        h.fit(),
    ensures
        lines(final(out)@) == lines(old(out)@) + heap_lines(label@, *h),
        texts(found@) == heap_anomalies(h.caps@, CAP_COUNT as int),
{
    let mut found: Vec<String> = Vec::new();
    log_tagged(
        out,
        label,
        " ┌─────────────────────────── HEAP CAPABILITY STATISTICS ────────────────┐",
    );
    log_tagged(
        out,
        label,
        "   Capability                             Total    Used    Free  LargeB   Blks  Frag%  Usage",
    );
    log_tagged(
        out,
        label,
        "                                            KiB     KiB     KiB     KiB                [20 chars]",
    );
    log_ruler(out, label, 105);
    let ghost before = lines(out@);
    let mut i: usize = 0;
    assert(lines(out@) =~= before + heap_rows(label@, h.caps@, 0));
    assert(texts(found@) =~= heap_anomalies(h.caps@, 0));
    while i < CAP_COUNT
        invariant
            i <= CAP_COUNT,
            h.fit(),
            lines(out@) == before + heap_rows(label@, h.caps@, i as int),
            texts(found@) == heap_anomalies(h.caps@, i as int),
        decreases CAP_COUNT - i,
    {
        let reading = h.caps[i];
        assert(h.caps@[i as int].fits());
        let ghost rows = heap_rows(label@, h.caps@, i as int);
        log_heap_row(out, label, cap_name(i, false), &reading);
        scan_heap(&mut found, cap_name(i, true), &reading);
        let ghost row = heap_row(label@, cap_view(i as int, false), reading);
        assert((before + rows) + row =~= before + (rows + row));
        i = i + 1;
    }
    log_ruler(out, label, 105);
    let mut s = "   TOTAL free (default caps) : ".to_owned();
    append_kib(&mut s, h.total_free);
    s.append("  lifetime-min : ");
    append_kib(&mut s, h.minimum_free);
    s.append("  largest-block : ");
    append_kib(&mut s, h.largest_block);
    log_tagged(out, label, s.as_str());
    log_bottom(out, label);
    assert(lines(out@) =~= lines(old(out)@) + heap_lines(label@, *h));
    found
}

impl HeapReading {
    pub(crate) fn is_computable(&self) -> (r: bool)
        ensures
            r == self.fits(),
    {
        self.free <= usize::MAX - self.used && self.used <= usize::MAX / 100 && self.largest
            <= usize::MAX / 100
    }
}

/// Nothing is reported of a heap exactly when it is neither fragmented nor low and has a block of
/// use.
pub proof fn law_healthy_heap_has_no_anomaly(short: Seq<char>, h: HeapReading)
    ensures
        anomalies_of(short, h).len() == 0 <==> !is_fragmented(h) && !is_low(h) && !is_tiny(h),
{
}

/// The fragmentation is what the largest block leaves of the free memory, in percent and rounded
/// up; there is none where nothing is free.
pub proof fn law_fragmentation_is_what_the_largest_block_leaves(h: HeapReading)
    ensures
        h.free == 0 ==> h.fragmentation() == 0,
        h.free > 0 && h.largest <= h.free ==> {
            let left = 100 * (h.free - h.largest);
            (h.fragmentation() - 1) * h.free < left <= h.fragmentation() * h.free
        },
{
    if h.free > 0 && h.largest <= h.free {
        let filled = filled_cells(h.largest as nat, h.free as nat, 100);
        law_filled_cells_are_the_used_share(h.largest as nat, h.free as nat, 100);
        law_bar_is_full_when_all_is_used(h.largest as nat, h.free as nat, 100);
        let f = h.fragmentation() as int;
        let free = h.free as int;
        assert(f == 100 - filled);
        assert((f - 1) * free == 99 * free - filled * free) by (nonlinear_arith)
            requires
                f == 100 - filled,
        ;
        assert(f * free == 100 * free - filled * free) by (nonlinear_arith)
            requires
                f == 100 - filled,
        ;
        assert((filled + 1) * free == filled * free + free) by (nonlinear_arith);
    }
}

/// A heap counts as fragmented where thirty percent or more of its free memory, rounded up, lie
/// outside the largest block, as low below 8 KiB, and as without a block of use where no block of
/// 4 KiB is left in more than 16 KiB.
pub proof fn law_limits_of_a_healthy_heap(h: HeapReading)
    ensures
        h.free > 0 && h.largest <= h.free ==> (is_fragmented(h) <==> h.largest * 100 < 71 * h.free),
        h.free > 0 && h.largest <= h.free ==> (h.fragmentation() >= 50 <==> h.largest * 100 < 51
            * h.free),
        is_low(h) <==> h.free < 8192 && (h.free > 0 || h.used > 0),
        is_tiny(h) <==> h.largest < 4096 && 16384 < h.free,
{
    law_fragmentation_is_what_the_largest_block_leaves(h);
    if h.free > 0 && h.largest <= h.free {
        let f = h.fragmentation() as int;
        let free = h.free as int;
        assert(f >= 30 ==> (f - 1) * free >= 29 * free) by (nonlinear_arith)
            requires
                free > 0,
        ;
        assert(f < 30 ==> f * free <= 29 * free) by (nonlinear_arith)
            requires
                free > 0,
        ;
        assert(f >= 50 ==> (f - 1) * free >= 49 * free) by (nonlinear_arith)
            requires
                free > 0,
        ;
        assert(f < 50 ==> f * free <= 49 * free) by (nonlinear_arith)
            requires
                free > 0,
        ;
    }
}

/// Each thing that is wrong with a heap is told once, the fragmentation first, then how little is
/// left, then that no block is of use.
pub proof fn law_each_anomaly_is_told_once(short: Seq<char>, h: HeapReading)
    ensures
        ({
            let told = anomalies_of(short, h);
            let high = "FRAG HIGH  : "@;
            let moderate = "FRAG MOD   : "@;
            let before_low: int = if is_fragmented(h) {
                1
            } else {
                0
            };
            let before_tiny: int = before_low + if is_low(h) {
                1int
            } else {
                0
            };
            &&& told.len() == before_tiny + if is_tiny(h) {
                1int
            } else {
                0
            }
            &&& is_fragmented(h) && h.fragmentation() >= 50 ==> told[0].take(13) == high
            &&& is_fragmented(h) && h.fragmentation() < 50 ==> told[0].take(13) == moderate
            &&& is_low(h) ==> told[before_low].take(13) == "LOW HEAP   : "@
            &&& is_tiny(h) ==> told[before_tiny].take(13) == "TINY BLOCK : "@
        }),
        forall|i: int|
            0 <= i < anomalies_of(short, h).len() ==> (#[trigger] anomalies_of(
                short,
                h,
            )[i]).subrange(13, 13 + short.len() as int) == short,
{
    reveal_strlit("FRAG HIGH  : ");
    reveal_strlit("FRAG MOD   : ");
    reveal_strlit("LOW HEAP   : ");
    reveal_strlit("TINY BLOCK : ");
    let told = anomalies_of(short, h);
    assert forall|i: int| 0 <= i < told.len() implies (#[trigger] told[i]).subrange(
        13,
        13 + short.len() as int,
    ) =~= short by {}
}

/// What is wrong with any of the first `n` heaps is among what is told of them.
pub proof fn law_every_heap_is_looked_at(caps: Seq<HeapReading>, n: int, i: int, j: int)
    requires
        0 <= i < n,
        0 <= j < anomalies_of(cap_view(i, true), caps[i]).len(),
    ensures
        heap_anomalies(caps, n).contains(anomalies_of(cap_view(i, true), caps[i])[j]),
    decreases n,
{
    let before = heap_anomalies(caps, n - 1);
    let last = anomalies_of(cap_view(n - 1, true), caps[n - 1]);
    if i < n - 1 {
        law_every_heap_is_looked_at(caps, n - 1, i, j);
        let told = anomalies_of(cap_view(i, true), caps[i])[j];
        let k = before.index_of(told);
        assert((before + last)[k] == told);
    } else {
        assert((before + last)[before.len() + j] == last[j]);
    }
}

/// Each heap has two lines, in the order of the capabilities.
pub proof fn law_every_heap_has_its_lines(
    label: Seq<char>,
    caps: Seq<HeapReading>,
    n: int,
    i: int,
)
    requires
        0 <= i < n,
    ensures
        heap_rows(label, caps, n).len() == 2 * n,
        heap_rows(label, caps, n).subrange(2 * i, 2 * i + 2) == heap_row(
            label,
            cap_view(i, false),
            caps[i],
        ),
    decreases n,
{
    let before = heap_rows(label, caps, n - 1);
    let last = heap_row(label, cap_view(n - 1, false), caps[n - 1]);
    if n > 1 {
        law_every_heap_has_its_lines(
            label,
            caps,
            n - 1,
            if i < n - 1 {
                i
            } else {
                0
            },
        );
    } else {
        assert(before.len() == 0);
    }
    if i < n - 1 {
        assert((before + last).subrange(2 * i, 2 * i + 2) =~= before.subrange(2 * i, 2 * i + 2));
    } else {
        assert((before + last).subrange(2 * i, 2 * i + 2) =~= last);
    }
}

/// The first line on a heap shows, in whole KiB, all of it, what is used, what is free and the
/// largest block, then the number of blocks, the fragmentation and the used share.
pub proof fn law_heap_figures(
    label: Seq<char>,
    name: Seq<char>,
    h: HeapReading,
    total: nat,
    used: nat,
    free: nat,
    largest: nat,
)
    requires
        total * 1024 <= h.free + h.used < (total + 1) * 1024,
        used * 1024 <= h.used < (used + 1) * 1024,
        free * 1024 <= h.free < (free + 1) * 1024,
        largest * 1024 <= h.largest < (largest + 1) * 1024,
    ensures
        heap_row(label, name, h)[0] == info(
            tagged(
                label,
                "   "@ + pad_end(name, 36, ' ') + "  "@ + pad_start(decimal(total), 6, ' ') + "  "@
                    + pad_start(decimal(used), 6, ' ') + "  "@ + pad_start(decimal(free), 6, ' ')
                    + "  "@ + pad_start(decimal(largest), 6, ' ') + "  "@ + pad_start(
                    decimal(h.total_blocks as nat),
                    5,
                    ' ',
                ) + "  "@ + pad_start(decimal(h.fragmentation()), 4, ' ') + "%  "@ + bar_text(
                    h.used as nat,
                    (h.free + h.used) as nat,
                ),
            ),
        ),
{
    assert(h.total() / 1024 == total);
    assert(h.used / 1024 == used);
    assert(h.free / 1024 == free);
    assert(h.largest / 1024 == largest);
}

/// The second line on a heap shows, in whole KiB, the least that was ever free, and the numbers of
/// used and free blocks.
pub proof fn law_low_water_figure(label: Seq<char>, name: Seq<char>, h: HeapReading, low: nat)
    requires
        low * 1024 <= h.low_water < (low + 1) * 1024,
    ensures
        heap_row(label, name, h)[1] == info(
            tagged(
                label,
                "                                           low-water "@ + pad_start(
                    decimal(low),
                    4,
                    ' ',
                ) + " KiB  alloc-blks "@ + pad_start(decimal(h.used_blocks as nat), 4, ' ')
                    + "  free-blks "@ + pad_start(decimal(h.free_blocks as nat), 4, ' '),
            ),
        ),
{
    assert(h.low_water / 1024 == low);
}

/// Heaps of up to forty million bytes always have computable percentages.
pub proof fn law_ordinary_heaps_are_computable(h: HeapReading)
    requires
        h.free <= 40_000_000,
        h.used <= 40_000_000,
        h.largest <= 40_000_000,
    ensures
        h.fits(),
{
}

} // verus!
