//! Log lines, and the texts that the sections of the report share.

use crate::number::{
    decimal, decimal_in, hex, hex_digits_value, law_hex_stands_for_its_number, pad_start,
    padded_start, repeat_char, repeated, to_decimal, to_hex,
};
use vstd::prelude::*;

verus! {

/// One line of the log.
#[derive(Debug)]
pub struct LogLine {
    pub warning: bool,
    pub text: String,
}

/// The contents of a [`LogLine`].
pub struct LineView {
    pub warning: bool,
    pub text: Seq<char>,
}

impl View for LogLine {
    type V = LineView;

    open spec fn view(&self) -> LineView {
        LineView { warning: self.warning, text: self.text@ }
    }
}

/// The contents of log lines.
pub open spec fn lines(out: Seq<LogLine>) -> Seq<LineView> {
    out.map_values(|l: LogLine| l@)
}

/// An ordinary line.
pub open spec fn info(text: Seq<char>) -> LineView {
    LineView { warning: false, text }
}

/// A line that warns.
pub open spec fn warn(text: Seq<char>) -> LineView {
    LineView { warning: true, text }
}

pub(crate) fn log_line(out: &mut Vec<LogLine>, warning: bool, text: String)
    ensures
        lines(final(out)@) == lines(old(out)@).push(LineView { warning, text: text@ }),
{
    out.push(LogLine { warning, text });
    assert(lines(out@) =~= lines(old(out)@).push(LineView { warning, text: text@ }));
}

/// A text behind the label of the checkpoint.
pub open spec fn tagged(label: Seq<char>, text: Seq<char>) -> Seq<char> {
    "["@ + label + "]"@ + text
}

pub(crate) fn tag(label: &str, text: &str) -> (r: String)
    ensures
        r@ == tagged(label@, text@),
{
    let mut s = "[".to_owned();
    s.append(label);
    s.append("]");
    s.append(text);
    s
}

pub(crate) fn log_tagged(out: &mut Vec<LogLine>, label: &str, text: &str)
    ensures
        lines(final(out)@) == lines(old(out)@).push(info(tagged(label@, text@))),
{
    let s = tag(label, text);
    log_line(out, false, s);
}

/// A ruler of `n` dashes below a heading.
pub open spec fn ruler(n: int) -> Seq<char> {
    "   "@ + repeated('─', n)
}

pub(crate) fn log_ruler(out: &mut Vec<LogLine>, label: &str, n: usize)
    ensures
        lines(final(out)@) == lines(old(out)@).push(info(tagged(label@, ruler(n as int)))),
{
    let dashes = repeat_char('─', n);
    let mut s = "   ".to_owned();
    s.append(dashes.as_str());
    log_tagged(out, label, s.as_str());
}

/// The lower edge of a section's box.
pub open spec fn box_bottom() -> Seq<char> {
    " └───────────────────────────────────────────────────────────────────────┘"@
}

pub(crate) fn log_bottom(out: &mut Vec<LogLine>, label: &str)
    ensures
        lines(final(out)@) == lines(old(out)@).push(info(tagged(label@, box_bottom()))),
{
    log_tagged(
        out,
        label,
        " └───────────────────────────────────────────────────────────────────────┘",
    );
}

/// The number of cells of a usage bar.
pub const BAR_CELLS: usize = 20;

/// How many of `cells` cells are filled when `used` of `total` are used.
pub open spec fn filled_cells(used: nat, total: nat, cells: nat) -> nat {
    if used * cells / total < cells {
        used * cells / total
    } else {
        cells
    }
}

/// A usage bar with the percentage behind it.
pub open spec fn bar_text(used: nat, total: nat) -> Seq<char> {
    if total == 0 {
        "["@ + repeated(' ', BAR_CELLS as int) + "]   n/a"@
    } else {
        let filled = filled_cells(used, total, BAR_CELLS as nat);
        "["@ + repeated('█', filled as int) + repeated('░', BAR_CELLS - filled) + "] "@ + pad_start(
            decimal(filled_cells(used, total, 100)),
            3,
            ' ',
        ) + "%"@
    }
}

/// Renders a usage bar, such as `[████████░░░░░░░░░░░░]  40%`.
pub fn bar(used: usize, total: usize) -> (r: String)
    requires
        total == 0 || used * 100 <= usize::MAX,
    ensures
        r@ == bar_text(used as nat, total as nat),
{
    let mut s = "[".to_owned();
    if total == 0 {
        let blank = repeat_char(' ', BAR_CELLS);
        s.append(blank.as_str());
        s.append("]   n/a");
        return s;
    }
    let share: usize = used * 100 / total;
    let pct: usize = if share < 100 {
        share
    } else {
        100
    };
    let cells: usize = used * BAR_CELLS / total;
    let filled: usize = if cells < BAR_CELLS {
        cells
    } else {
        BAR_CELLS
    };
    let full = repeat_char('█', filled);
    let empty = repeat_char('░', BAR_CELLS - filled);
    let number = decimal_in(pct as u64, 3);
    s.append(full.as_str());
    s.append(empty.as_str());
    s.append("] ");
    s.append(number.as_str());
    s.append("%");
    s
}

/// A size in KiB, right-aligned.
pub open spec fn kib_text(bytes: nat) -> Seq<char> {
    pad_start(decimal(bytes / 1024), 5, ' ') + " KiB"@
}

/// Writes a size in KiB, rounded down and right-aligned.
pub fn kib(bytes: usize) -> (r: String)
    ensures
        r@ == kib_text(bytes as nat),
{
    let mut s = decimal_in((bytes / 1024) as u64, 5);
    s.append(" KiB");
    s
}

pub(crate) fn append_decimal(s: &mut String, n: usize)
    ensures
        final(s)@ == old(s)@ + decimal(n as nat),
{
    let text = to_decimal(n as u64);
    s.append(text.as_str());
}

pub(crate) fn append_decimal_in(s: &mut String, n: usize, width: usize)
    ensures
        final(s)@ == old(s)@ + pad_start(decimal(n as nat), width as int, ' '),
{
    let text = decimal_in(n as u64, width);
    s.append(text.as_str());
}

pub(crate) fn append_kib(s: &mut String, bytes: usize)
    ensures
        final(s)@ == old(s)@ + kib_text(bytes as nat),
{
    let text = kib(bytes);
    s.append(text.as_str());
}

/// An address in eight hexadecimal digits.
pub open spec fn address(a: nat) -> Seq<char> {
    "0x"@ + pad_start(hex(a, true), 8, '0')
}

pub(crate) fn append_address(s: &mut String, a: usize)
    ensures
        final(s)@ == old(s)@ + address(a as nat),
{
    let digits = to_hex(a as u64, true);
    let padded = padded_start(digits.as_str(), 8, '0');
    s.append("0x");
    s.append(padded.as_str());
    assert(s@ =~= old(s)@ + address(a as nat));
}

/// The contents of texts.
pub open spec fn texts(v: Seq<String>) -> Seq<Seq<char>> {
    v.map_values(|s: String| s@)
}

pub(crate) fn push_text(v: &mut Vec<String>, s: String)
    ensures
        texts(final(v)@) == texts(old(v)@).push(s@),
{
    v.push(s);
    assert(texts(v@) =~= texts(old(v)@).push(s@));
}

/// A usage bar always has twenty cells: first the filled ones, then the empty ones.
pub proof fn law_bar_has_twenty_cells(used: nat, total: nat, i: int)
    requires
        total > 0,
        0 <= i < BAR_CELLS,
    ensures
        filled_cells(used, total, BAR_CELLS as nat) <= BAR_CELLS,
        bar_text(used, total).len() >= BAR_CELLS + 1,
        bar_text(used, total)[1 + i] == (if i < filled_cells(used, total, BAR_CELLS as nat) {
            '█'
        } else {
            '░'
        }),
{
    reveal_strlit("[");
}

/// The more is used, the more cells are filled.
pub proof fn law_bar_grows_with_use(used: nat, more: nat, total: nat, cells: nat)
    requires
        total > 0,
        used <= more,
    ensures
        filled_cells(used, total, cells) <= filled_cells(more, total, cells),
{
    assert(used * cells <= more * cells) by (nonlinear_arith)
        requires
            used <= more,
    ;
    vstd::arithmetic::div_mod::lemma_div_is_ordered(
        (used * cells) as int,
        (more * cells) as int,
        total as int,
    );
}

/// All is filled exactly when all is used.
pub proof fn law_bar_is_full_when_all_is_used(used: nat, total: nat, cells: nat)
    requires
        0 < total,
        0 < cells,
    ensures
        filled_cells(used, total, cells) == cells <==> used >= total,
{
    if used >= total {
        assert(used * cells >= total * cells) by (nonlinear_arith)
            requires
                used >= total,
        ;
        vstd::arithmetic::div_mod::lemma_div_is_ordered(
            (total * cells) as int,
            (used * cells) as int,
            total as int,
        );
        vstd::arithmetic::div_mod::lemma_div_multiples_vanish(cells as int, total as int);
        assert(total * cells == cells * total) by (nonlinear_arith);
    } else {
        assert(used * cells < total * cells) by (nonlinear_arith)
            requires
                used < total,
                cells > 0,
        ;
        assert(total * cells == cells * total) by (nonlinear_arith);
        vstd::arithmetic::div_mod::lemma_multiply_divide_lt(
            (used * cells) as int,
            total as int,
            cells as int,
        );
    }
}

/// The filled cells are the used share, rounded down: as many of the cells as fit.
pub proof fn law_filled_cells_are_the_used_share(used: nat, total: nat, cells: nat)
    requires
        0 < total,
        used <= total,
    ensures
        ({
            let filled = filled_cells(used, total, cells);
            filled * total <= used * cells < (filled + 1) * total
        }),
{
    let product = used * cells;
    let share = product / total;
    vstd::arithmetic::div_mod::lemma_fundamental_div_mod(product as int, total as int);
    vstd::arithmetic::div_mod::lemma_mod_bound(product as int, total as int);
    assert(total * share == share * total) by (nonlinear_arith);
    assert((share + 1) * total == share * total + total) by (nonlinear_arith);
    if share > cells {
        assert(used * cells <= total * cells) by (nonlinear_arith)
            requires
                used <= total,
        ;
        assert(share * total >= (cells + 1) * total) by (nonlinear_arith)
            requires
                share >= cells + 1,
        ;
        assert((cells + 1) * total == total * cells + total) by (nonlinear_arith);
    }
}

/// Behind its cells a bar shows the used share in percent; a bar of nothing shows none.
pub proof fn law_bar_ends_with_the_percentage(used: nat, total: nat)
    ensures
        total > 0 ==> bar_text(used, total).skip(21) == "] "@ + pad_start(
            decimal(filled_cells(used, total, 100)),
            3,
            ' ',
        ) + "%"@,
        total == 0 ==> bar_text(used, total).skip(21) == "]   n/a"@,
        total == 0 ==> forall|i: int| 1 <= i < 21 ==> bar_text(used, total)[i] == ' ',
{
    reveal_strlit("[");
    let filled = filled_cells(used, total, 20);
    let head = if total == 0 {
        "["@ + repeated(' ', 20)
    } else {
        "["@ + repeated('█', filled as int) + repeated('░', 20 - filled)
    };
    let tail = if total == 0 {
        "]   n/a"@
    } else {
        "] "@ + pad_start(decimal(filled_cells(used, total, 100)), 3, ' ') + "%"@
    };
    assert(head.len() == 21);
    assert(bar_text(used, total) =~= head + tail);
    assert((head + tail).skip(21) =~= tail);
}

/// A size is written in whole KiB of 1024 bytes.
pub proof fn law_kib_are_1024_bytes(bytes: nat, k: nat)
    requires
        k * 1024 <= bytes < (k + 1) * 1024,
    ensures
        kib_text(bytes) == pad_start(decimal(k), 5, ' ') + " KiB"@,
{
    assert(bytes / 1024 == k);
}

/// An address is written as `0x` and at least eight digits that stand for it.
pub proof fn law_address_stands_for_itself(a: nat)
    ensures
        address(a).len() >= 10,
        address(a).take(2) == "0x"@,
        exists|n: int|
            #![trigger address(a).skip(n)]
            2 <= n < address(a).len() && hex_digits_value(address(a).skip(n)) == a
                && address(a).subrange(2, n) == repeated('0', n - 2),
{
    reveal_strlit("0x");
    let digits = hex(a, true);
    law_hex_stands_for_its_number(a, true);
    let missing = if 8 > digits.len() {
        8 - digits.len()
    } else {
        0
    };
    let s = address(a);
    assert(s.take(2) =~= "0x"@);
    assert(s.skip(2 + missing) =~= digits);
    assert(s.subrange(2, 2 + missing) =~= repeated('0', missing));
}

/// A line behind a label shows the label in brackets and then the text.
pub proof fn law_label_and_text_are_kept(label: Seq<char>, text: Seq<char>)
    ensures
        tagged(label, text).len() == label.len() + text.len() + 2,
        tagged(label, text)[0] == '[',
        tagged(label, text).subrange(1, 1 + label.len() as int) == label,
        tagged(label, text)[1 + label.len() as int] == ']',
        tagged(label, text).skip(2 + label.len() as int) == text,
{
    reveal_strlit("[");
    reveal_strlit("]");
    let s = tagged(label, text);
    assert(s.subrange(1, 1 + label.len() as int) =~= label);
    assert(s.skip(2 + label.len() as int) =~= text);
}

} // verus!
