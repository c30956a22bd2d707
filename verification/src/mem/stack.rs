//! The section on the stack of the calling task.

use crate::number::decimal;
use super::log::{
    append_decimal, box_bottom, info, lines, log_bottom, log_tagged, tagged, LineView, LogLine,
};
use vstd::prelude::*;

verus! {

/// How bad the smallest remaining stack is.
pub open spec fn stack_status(bytes: int) -> Seq<char> {
    if bytes < 512 {
        "!! CRITICAL"@
    } else if bytes < 1024 {
        "!  WARNING  "@
    } else {
        "   OK       "@
    }
}

/// The lines on the stack; a word has four bytes.
pub open spec fn stack_lines(label: Seq<char>, words: nat) -> Seq<LineView> {
    seq![
        info(tagged(label, " ┌─────────────────────────── TASK STACK ────────────────────────────────┐"@)),
        info(tagged(
            label,
            "   Main task stack high-water mark : "@ + decimal(words) + " words = "@ + decimal(
                words * 4,
            ) + " bytes ("@ + decimal(words * 4 / 1024) + " KiB)  "@ + stack_status(
                words * 4 as int,
            ),
        )),
        info(tagged(
            label,
            "   (high-water mark = minimum remaining stack since task started)"@,
        )),
        info(tagged(label, box_bottom())),
    ]
}

/// What is wrong with the stack.
pub open spec fn stack_anomaly(words: nat) -> Option<Seq<char>> {
    if words * 4 < 1024 {
        Some(
            "STACK LOW  : main task — "@ + decimal(words * 4) + " bytes remaining (< 1 KiB)"@,
        )
    } else {
        None
    }
}

/// Logs how much of the stack is left and returns what is wrong with it.
pub fn print_stack(out: &mut Vec<LogLine>, label: &str, words: usize) -> (found: Option<String>)
    requires
        words * 4 <= usize::MAX,
    ensures
        lines(final(out)@) == lines(old(out)@) + stack_lines(label@, words as nat),
        found is Some <==> stack_anomaly(words as nat) is Some,
        found matches Some(s) ==> stack_anomaly(words as nat) == Some(s@),
{
    let bytes: usize = words * 4;
    let status = if bytes < 512 {
        "!! CRITICAL"
    } else if bytes < 1024 {
        "!  WARNING  "
    } else {
        "   OK       "
    };
    log_tagged(
        out,
        label,
        " ┌─────────────────────────── TASK STACK ────────────────────────────────┐",
    );
    let mut s = "   Main task stack high-water mark : ".to_owned();
    append_decimal(&mut s, words);
    s.append(" words = ");
    append_decimal(&mut s, bytes);
    s.append(" bytes (");
    append_decimal(&mut s, bytes / 1024);
    s.append(" KiB)  ");
    s.append(status);
    log_tagged(out, label, s.as_str());
    log_tagged(
        out,
        label,
        "   (high-water mark = minimum remaining stack since task started)",
    );
    log_bottom(out, label);
    assert(lines(out@) =~= lines(old(out)@) + stack_lines(label@, words as nat));
    if bytes < 1024 {
        let mut s = "STACK LOW  : main task — ".to_owned();
        append_decimal(&mut s, bytes);
        s.append(" bytes remaining (< 1 KiB)");
        Some(s)
    } else {
        None
    }
}

/// The stack is low below 256 words and critical below 128, and what is left is told in bytes.
pub proof fn law_limits_of_a_healthy_stack(words: nat)
    ensures
        words < 256 <==> stack_anomaly(words) is Some,
        words < 128 <==> stack_status(words * 4 as int) == "!! CRITICAL"@,
        128 <= words < 256 <==> stack_status(words * 4 as int) == "!  WARNING  "@,
        256 <= words <==> stack_status(words * 4 as int) == "   OK       "@,
        words < 256 ==> exists|bytes: nat|
            bytes == words + words + words + words && stack_anomaly(words) == Some(
                "STACK LOW  : main task — "@ + #[trigger] decimal(bytes)
                    + " bytes remaining (< 1 KiB)"@,
            ),
{
    reveal_strlit("!! CRITICAL");
    reveal_strlit("!  WARNING  ");
    reveal_strlit("   OK       ");
    assert("!! CRITICAL"@[0] == '!');
    assert("!! CRITICAL"@[1] == '!');
    assert("!  WARNING  "@[0] == '!');
    assert("!  WARNING  "@[1] == ' ');
    assert("   OK       "@[0] == ' ');
    let bytes = words * 4;
    assert(bytes == words + words + words + words);
    assert(words < 256 ==> stack_anomaly(words) == Some(
        "STACK LOW  : main task — "@ + decimal(bytes) + " bytes remaining (< 1 KiB)"@,
    ));
}

/// What is left of the stack is told in words, in bytes, four to a word, and in whole KiB.
pub proof fn law_stack_figures(label: Seq<char>, words: nat, bytes: nat, k: nat)
    requires
        bytes == words + words + words + words,
        k * 1024 <= bytes < (k + 1) * 1024,
    ensures
        stack_lines(label, words).len() == 4,
        stack_lines(label, words)[1] == info(
            tagged(
                label,
                "   Main task stack high-water mark : "@ + decimal(words) + " words = "@ + decimal(
                    bytes,
                ) + " bytes ("@ + decimal(k) + " KiB)  "@ + stack_status(bytes as int),
            ),
        ),
{
    assert(words * 4 == bytes);
    assert(bytes / 1024 == k);
}

} // verus!
