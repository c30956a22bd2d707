//! Memory diagnostics: the report that is logged at checkpoints.

pub mod chip;
pub mod heap;
pub mod log;
pub mod map;
pub mod segments;
pub mod stack;

use crate::number::{decimal, repeat_char, repeated};
use self::chip::{chip_lines, print_chip, ChipReading};
use self::heap::{
    cap_view, heap_anomalies, heap_lines, heap_row, heap_rows, print_heap, CAP_COUNT, HeapReading,
    HeapReadings,
};
use self::log::{
    append_decimal, box_bottom, info, lines, log_bottom, log_line, log_tagged, push_text, tag,
    tagged, texts, warn, LineView, LogLine,
};
use self::map::{map_lines, print_memory_map};
use self::segments::{print_linker_segments, segment_lines, Segments};
use self::stack::{print_stack, stack_anomaly, stack_lines};
use vstd::prelude::*;

verus! {

/// The lines on what is wrong.
pub open spec fn anomaly_lines(label: Seq<char>, found: Seq<Seq<char>>) -> Seq<LineView> {
    seq![info(tagged(label, " ┌─────────────────────────── ANOMALY SCAN ──────────────────────────────┐"@))]
        + if found.len() == 0 {
        seq![info(tagged(label, "   No anomalies detected."@))]
    } else {
        seq![info(tagged(label, "   "@ + decimal(found.len()) + " issue(s) detected:"@))]
            + found.map_values(|a: Seq<char>| warn(tagged(label, "   *** "@ + a)))
    } + seq![info(tagged(label, box_bottom()))]
}

/// Logs what is wrong, as warnings.
pub fn print_anomalies(out: &mut Vec<LogLine>, label: &str, found: &Vec<String>)
    ensures
        lines(final(out)@) == lines(old(out)@) + anomaly_lines(label@, texts(found@)),
{
    log_tagged(
        out,
        label,
        " ┌─────────────────────────── ANOMALY SCAN ──────────────────────────────┐",
    );
    if found.len() == 0 {
        log_tagged(out, label, "   No anomalies detected.");
    } else {
        let mut s = "   ".to_owned();
        append_decimal(&mut s, found.len());
        s.append(" issue(s) detected:");
        log_tagged(out, label, s.as_str());
        let ghost before = lines(out@);
        let ghost row = |a: Seq<char>| warn(tagged(label@, "   *** "@ + a));
        let ghost rows = texts(found@).map_values(row);
        let mut i: usize = 0;
        assert(lines(out@) =~= before + rows.take(0));
        while i < found.len()
            invariant
                i <= found@.len(),
                row == (|a: Seq<char>| warn(tagged(label@, "   *** "@ + a))),
                rows == texts(found@).map_values(row),
                lines(out@) == before + rows.take(i as int),
            decreases found@.len() - i,
        {
            let mut s = "   *** ".to_owned();
            s.append(found[i].as_str());
            let text = tag(label, s.as_str());
            log_line(out, true, text);
            assert(rows[i as int] == warn(text@));
            assert(lines(out@) =~= before + rows.take(i + 1));
            i = i + 1;
        }
        assert(rows.take(i as int) =~= rows);
    }
    log_bottom(out, label);
    assert(lines(out@) =~= lines(old(out)@) + anomaly_lines(label@, texts(found@)));
}

/// All that was read for a report.
#[derive(Debug)]
pub struct Readings {
    pub chip: ChipReading,
    pub segments: Segments,
    pub heap: HeapReadings,
    pub stack_words: usize,
}

impl Readings {
    /// Whether the figures of the report can be computed in the machine's word.
    pub open spec fn fit(self) -> bool {
        &&& self.segments.fit()
        &&& self.heap.fit()
        &&& self.stack_words * 4 <= usize::MAX
    }
}

impl Readings {
    /// Decides whether [`report`] can compute its figures in the machine's word.
    pub fn is_computable(&self) -> (r: bool)
        ensures
            r == self.fit(),
    {
        if self.segments.data.bytes() > usize::MAX - self.segments.bss.bytes()
            || self.segments.text.bytes() > usize::MAX - self.segments.rodata.bytes()
            || self.stack_words > usize::MAX / 4 {
            return false;
        }
        let mut i: usize = 0;
        while i < CAP_COUNT
            invariant
                i <= CAP_COUNT,
                forall|k: int| 0 <= k < i ==> (#[trigger] self.heap.caps@[k]).fits(),
            decreases CAP_COUNT - i,
        {
            let reading = self.heap.caps[i];
            if !reading.is_computable() {
                assert(!self.heap.caps@[i as int].fits());
                return false;
            }
            i = i + 1;
        }
        true
    }
}

/// All that is wrong.
pub open spec fn anomalies(r: Readings) -> Seq<Seq<char>> {
    heap_anomalies(r.heap.caps@, CAP_COUNT as int) + match stack_anomaly(r.stack_words as nat) {
        Some(s) => seq![s],
        None => Seq::empty(),
    }
}

/// The line that separates reports.
pub open spec fn separator() -> Seq<char> {
    repeated('═', 74)
}

/// The whole report of a checkpoint.
pub open spec fn report_lines(label: Seq<char>, r: Readings) -> Seq<LineView> {
    seq![
        info(""@),
        info(separator()),
        info("  MEMORY DIAGNOSTICS  ─  checkpoint: \""@ + label + "\""@),
        info(separator()),
    ] + chip_lines(label, r.chip) + map_lines(label) + segment_lines(label, r.segments)
        + heap_lines(label, r.heap) + stack_lines(label, r.stack_words as nat) + anomaly_lines(
        label,
        anomalies(r),
    ) + seq![info(separator()), info(""@)]
}

fn log_heading(out: &mut Vec<LogLine>, label: &str)
    ensures
        lines(final(out)@) == lines(old(out)@) + seq![
            info(""@),
            info(separator()),
            info("  MEMORY DIAGNOSTICS  ─  checkpoint: \""@ + label@ + "\""@),
            info(separator()),
        ],
{
    let sep = repeat_char('═', 74);
    log_line(out, false, "".to_owned());
    log_line(out, false, sep.as_str().to_owned());
    let mut s = "  MEMORY DIAGNOSTICS  ─  checkpoint: \"".to_owned();
    s.append(label);
    s.append("\"");
    log_line(out, false, s);
    log_line(out, false, sep);
    assert(lines(out@) =~= lines(old(out)@) + seq![
        info(""@),
        info(separator()),
        info("  MEMORY DIAGNOSTICS  ─  checkpoint: \""@ + label@ + "\""@),
        info(separator()),
    ]);
}

fn log_ending(out: &mut Vec<LogLine>)
    ensures
        lines(final(out)@) == lines(old(out)@) + seq![info(separator()), info(""@)],
{
    let sep = repeat_char('═', 74);
    log_line(out, false, sep);
    log_line(out, false, "".to_owned());
    assert(lines(out@) =~= lines(old(out)@) + seq![info(separator()), info(""@)]);
}

/// Writes the full report of a checkpoint; what is wrong comes as warnings.
pub fn report(label: &str, r: &Readings) -> (out: Vec<LogLine>)
    requires
        r.fit(),
    ensures
        lines(out@) == report_lines(label@, *r),
{
    let mut out: Vec<LogLine> = Vec::new();
    assert(lines(out@) =~= Seq::<LineView>::empty());
    log_heading(&mut out, label);
    print_chip(&mut out, label, &r.chip);
    print_memory_map(&mut out, label);
    print_linker_segments(&mut out, label, &r.segments);
    let mut found = print_heap(&mut out, label, &r.heap);
    match print_stack(&mut out, label, r.stack_words) {
        Some(s) => {
            push_text(&mut found, s);
        },
        None => {},
    }
    assert(texts(found@) =~= anomalies(*r));
    print_anomalies(&mut out, label, &found);
    log_ending(&mut out);
    out
}

/// How many lines warn.
pub open spec fn warning_count(l: Seq<LineView>) -> nat
    decreases l.len(),
{
    if l.len() == 0 {
        0
    } else {
        warning_count(l.drop_last()) + if l.last().warning {
            1nat
        } else {
            0nat
        }
    }
}

proof fn lemma_warnings_add(a: Seq<LineView>, b: Seq<LineView>)
    ensures
        warning_count(a + b) == warning_count(a) + warning_count(b),
    decreases b.len(),
{
    if b.len() == 0 {
        assert(a + b =~= a);
    } else {
        assert((a + b).drop_last() =~= a + b.drop_last());
        lemma_warnings_add(a, b.drop_last());
    }
}

proof fn lemma_all_or_none_warn(l: Seq<LineView>, warning: bool)
    requires
        forall|i: int| 0 <= i < l.len() ==> (#[trigger] l[i]).warning == warning,
    ensures
        warning_count(l) == if warning {
            l.len()
        } else {
            0
        },
    decreases l.len(),
{
    if l.len() > 0 {
        lemma_all_or_none_warn(l.drop_last(), warning);
    }
}

proof fn lemma_heap_rows_do_not_warn(label: Seq<char>, caps: Seq<HeapReading>, n: int)
    ensures
        warning_count(heap_rows(label, caps, n)) == 0,
    decreases n,
{
    if n > 0 {
        lemma_heap_rows_do_not_warn(label, caps, n - 1);
        let row = heap_row(label, cap_view(n - 1, false), caps[n - 1]);
        lemma_warnings_add(heap_rows(label, caps, n - 1), row);
        lemma_all_or_none_warn(row, false);
    } else {
        reveal_with_fuel(warning_count, 1);
    }
}

proof fn lemma_anomaly_lines_warn(label: Seq<char>, found: Seq<Seq<char>>)
    ensures
        warning_count(anomaly_lines(label, found)) == found.len(),
{
    let row = |a: Seq<char>| warn(tagged(label, "   *** "@ + a));
    let rows = found.map_values(row);
    let l = anomaly_lines(label, found);
    lemma_all_or_none_warn(rows, true);
    if found.len() == 0 {
        lemma_all_or_none_warn(l, false);
    } else {
        let head = l.take(2);
        let tail = l.skip(2 + rows.len() as int);
        lemma_all_or_none_warn(head, false);
        lemma_all_or_none_warn(tail, false);
        lemma_warnings_add(head, rows);
        lemma_warnings_add(head + rows, tail);
        assert(l =~= head + rows + tail);
    }
}

proof fn lemma_heap_lines_do_not_warn(label: Seq<char>, r: Readings)
    ensures
        warning_count(heap_lines(label, r.heap)) == 0,
{
    let heap = heap_lines(label, r.heap);
    let rows = heap_rows(label, r.heap.caps@, CAP_COUNT as int);
    let head = heap.take(4);
    let tail = heap.skip(4 + rows.len() as int);
    lemma_heap_rows_do_not_warn(label, r.heap.caps@, CAP_COUNT as int);
    lemma_all_or_none_warn(head, false);
    lemma_all_or_none_warn(tail, false);
    lemma_warnings_add(head, rows);
    lemma_warnings_add(head + rows, tail);
    assert(heap =~= head + rows + tail);
}

proof fn lemma_chip_lines_do_not_warn(label: Seq<char>, r: Readings)
    ensures
        warning_count(chip_lines(label, r.chip)) == 0,
{
    lemma_all_or_none_warn(chip_lines(label, r.chip), false);
}

proof fn lemma_map_lines_do_not_warn(label: Seq<char>)
    ensures
        warning_count(map_lines(label)) == 0,
{
    lemma_all_or_none_warn(map_lines(label), false);
}

proof fn lemma_segment_lines_do_not_warn(label: Seq<char>, r: Readings)
    ensures
        warning_count(segment_lines(label, r.segments)) == 0,
{
    lemma_all_or_none_warn(segment_lines(label, r.segments), false);
}

proof fn lemma_stack_lines_do_not_warn(label: Seq<char>, r: Readings)
    ensures
        warning_count(stack_lines(label, r.stack_words as nat)) == 0,
{
    lemma_all_or_none_warn(stack_lines(label, r.stack_words as nat), false);
}

/// The warnings of eight parts, one behind the other.
proof fn lemma_warnings_of_parts(
    a: Seq<LineView>,
    b: Seq<LineView>,
    c: Seq<LineView>,
    d: Seq<LineView>,
    e: Seq<LineView>,
    f: Seq<LineView>,
    g: Seq<LineView>,
    h: Seq<LineView>,
)
    ensures
        warning_count(a + b + c + d + e + f + g + h) == warning_count(a) + warning_count(b)
            + warning_count(c) + warning_count(d) + warning_count(e) + warning_count(f)
            + warning_count(g) + warning_count(h),
{
    lemma_warnings_add(a, b);
    lemma_warnings_add(a + b, c);
    lemma_warnings_add(a + b + c, d);
    lemma_warnings_add(a + b + c + d, e);
    lemma_warnings_add(a + b + c + d + e, f);
    lemma_warnings_add(a + b + c + d + e + f, g);
    lemma_warnings_add(a + b + c + d + e + f + g, h);
}

/// A report warns exactly as often as something is wrong.
pub proof fn law_report_warns_of_each_anomaly(label: Seq<char>, r: Readings)
    ensures
        warning_count(report_lines(label, r)) == anomalies(r).len(),
{
    let head = seq![
        info(""@),
        info(separator()),
        info("  MEMORY DIAGNOSTICS  ─  checkpoint: \""@ + label + "\""@),
        info(separator()),
    ];
    let tail = seq![info(separator()), info(""@)];
    lemma_all_or_none_warn(head, false);
    lemma_all_or_none_warn(tail, false);
    lemma_chip_lines_do_not_warn(label, r);
    lemma_map_lines_do_not_warn(label);
    lemma_segment_lines_do_not_warn(label, r);
    lemma_heap_lines_do_not_warn(label, r);
    lemma_stack_lines_do_not_warn(label, r);
    lemma_anomaly_lines_warn(label, anomalies(r));
    lemma_warnings_of_parts(
        head,
        chip_lines(label, r.chip),
        map_lines(label),
        segment_lines(label, r.segments),
        heap_lines(label, r.heap),
        stack_lines(label, r.stack_words as nat),
        anomaly_lines(label, anomalies(r)),
        tail,
    );
}

/// Each thing that is wrong has a line of its own that warns of it, in order, and all other lines
/// of the section do not warn.
pub proof fn law_every_anomaly_has_its_line(label: Seq<char>, found: Seq<Seq<char>>, i: int)
    requires
        0 <= i < found.len(),
    ensures
        anomaly_lines(label, found).len() == found.len() + 3,
        anomaly_lines(label, found)[1] == info(
            tagged(label, "   "@ + decimal(found.len()) + " issue(s) detected:"@),
        ),
        anomaly_lines(label, found)[2 + i] == warn(tagged(label, "   *** "@ + found[i])),
        !anomaly_lines(label, found)[0].warning,
        !anomaly_lines(label, found).last().warning,
{
}

/// A system without anomalies is told to be so.
pub proof fn law_no_anomaly_is_told(label: Seq<char>)
    ensures
        anomaly_lines(label, Seq::empty()).len() == 3,
        anomaly_lines(label, Seq::empty())[1] == info(
            tagged(label, "   No anomalies detected."@),
        ),
{
}

/// What is wrong is what is wrong with the heaps, and then the stack where fewer than 256 words of
/// it are left.
pub proof fn law_stack_comes_behind_the_heaps(r: Readings)
    ensures
        ({
            let heaps = heap_anomalies(r.heap.caps@, 7);
            let all = anomalies(r);
            &&& all.len() == heaps.len() + if r.stack_words < 256 {
                1int
            } else {
                0
            }
            &&& all.take(heaps.len() as int) == heaps
            &&& r.stack_words < 256 ==> stack_anomaly(r.stack_words as nat) == Some(all.last())
        }),
{
    let heaps = heap_anomalies(r.heap.caps@, 7);
    assert(anomalies(r).take(heaps.len() as int) =~= heaps);
}

} // verus!
