//! The section on the chip and the runtime.

use crate::number::{decimal, to_decimal};
use crate::text::utf8_text;
use super::log::{
    append_decimal, append_kib, box_bottom, info, kib_text, lines, log_bottom, log_tagged, tagged,
    LineView, LogLine,
};
use vstd::prelude::*;
use vstd::utf8::{decode_utf8, encode_utf8_decode_utf8, valid_utf8};

verus! {

/// Why the chip started.
#[derive(Clone, Copy, PartialEq, Eq, Structural, Debug)]
pub enum ResetReason {
    PowerOn,
    Software,
    Panic,
    InterruptWatchdog,
    TaskWatchdog,
    OtherWatchdog,
    DeepSleep,
    Brownout,
    Sdio,
    Other,
}

/// The name of a reset reason.
pub open spec fn reset_name(reason: ResetReason) -> Seq<char> {
    match reason {
        ResetReason::PowerOn => "Power-on"@,
        ResetReason::Software => "Software reset"@,
        ResetReason::Panic => "Panic / exception"@,
        ResetReason::InterruptWatchdog => "Interrupt WDT"@,
        ResetReason::TaskWatchdog => "Task WDT"@,
        ResetReason::OtherWatchdog => "Other WDT"@,
        ResetReason::DeepSleep => "Deep-sleep wakeup"@,
        ResetReason::Brownout => "Brownout"@,
        ResetReason::Sdio => "SDIO reset"@,
        ResetReason::Other => "Unknown"@,
    }
}

/// The name of a reset reason.
pub fn reset_text(reason: ResetReason) -> (r: &'static str)
    ensures
        r@ == reset_name(reason),
{
    match reason {
        ResetReason::PowerOn => "Power-on",
        ResetReason::Software => "Software reset",
        ResetReason::Panic => "Panic / exception",
        ResetReason::InterruptWatchdog => "Interrupt WDT",
        ResetReason::TaskWatchdog => "Task WDT",
        ResetReason::OtherWatchdog => "Other WDT",
        ResetReason::DeepSleep => "Deep-sleep wakeup",
        ResetReason::Brownout => "Brownout",
        ResetReason::Sdio => "SDIO reset",
        ResetReason::Other => "Unknown",
    }
}

/// The model with the given firmware chip identifier.
pub open spec fn model_name(chip_id: u32) -> Seq<char> {
    match chip_id {
        0 => "ESP32"@,
        2 => "ESP32-S2"@,
        5 => "ESP32-C3"@,
        9 => "ESP32-S3"@,
        12 => "ESP32-C2"@,
        13 => "ESP32-C6"@,
        16 => "ESP32-H2"@,
        18 => "ESP32-P4"@,
        _ => "unknown"@,
    }
}

/// The model with the given firmware chip identifier.
pub fn model_text(chip_id: u32) -> (r: &'static str)
    ensures
        r@ == model_name(chip_id),
{
    match chip_id {
        0 => "ESP32",
        2 => "ESP32-S2",
        5 => "ESP32-C3",
        9 => "ESP32-S3",
        12 => "ESP32-C2",
        13 => "ESP32-C6",
        16 => "ESP32-H2",
        18 => "ESP32-P4",
        _ => "unknown",
    }
}

/// What was read of the chip and the runtime.
#[derive(Debug)]
pub struct ChipReading {
    pub chip_id: u32,
    /// The version text of the runtime, as it came.
    pub idf_version: Vec<u8>,
    pub idf_major: u32,
    pub idf_minor: u32,
    pub idf_patch: u32,
    pub uptime_us: u64,
    pub reset: ResetReason,
    pub reset_raw: u32,
    pub package_version: u32,
    pub psram_bytes: usize,
    pub free_internal: usize,
}

/// The version text, or a question mark where it is not UTF-8.
pub open spec fn version_text(bytes: Seq<u8>) -> Seq<char> {
    if valid_utf8(bytes) {
        decode_utf8(bytes)
    } else {
        "?"@
    }
}

fn version_str(bytes: &[u8]) -> (r: &str)
    ensures
        r@ == version_text(bytes@),
{
    match utf8_text(bytes) {
        Some(s) => {
            proof {
                encode_utf8_decode_utf8(s@);
            }
            s
        },
        None => "?",
    }
}

/// The lines on the chip and the runtime.
pub open spec fn chip_lines(label: Seq<char>, c: ChipReading) -> Seq<LineView> {
    seq![
        info(tagged(label, " ┌─────────────────────────── CHIP / RUNTIME ────────────────────────────┐"@)),
        info(tagged(
            label,
            "   Model         : "@ + model_name(c.chip_id) + " (firmware chip-id = "@ + decimal(
                c.chip_id as nat,
            ) + ")"@,
        )),
        info(tagged(
            label,
            "   IDF version   : "@ + version_text(c.idf_version@) + "  (v"@ + decimal(
                c.idf_major as nat,
            ) + "."@ + decimal(c.idf_minor as nat) + "."@ + decimal(c.idf_patch as nat)
                + " compiled)"@,
        )),
        info(tagged(
            label,
            "   Uptime        : "@ + decimal((c.uptime_us / 1000) as nat) + " ms"@,
        )),
        info(tagged(
            label,
            "   Reset reason  : "@ + reset_name(c.reset) + " (raw="@ + decimal(c.reset_raw as nat)
                + ")"@,
        )),
        info(tagged(label, "   eFuse pkg ver : "@ + decimal(c.package_version as nat))),
        info(tagged(
            label,
            "   PSRAM size    : "@ + decimal(c.psram_bytes as nat) + " bytes ("@ + decimal(
                (c.psram_bytes / 1024) as nat,
            ) + " KiB)  [0 = no PSRAM]"@,
        )),
        info(tagged(label, "   Free internal : "@ + kib_text(c.free_internal as nat))),
        info(tagged(label, box_bottom())),
    ]
}

/// Logs what is known of the chip and the runtime.
pub fn print_chip(out: &mut Vec<LogLine>, label: &str, c: &ChipReading)
    ensures
        lines(final(out)@) == lines(old(out)@) + chip_lines(label@, *c),
{
    log_tagged(
        out,
        label,
        " ┌─────────────────────────── CHIP / RUNTIME ────────────────────────────┐",
    );
    let mut s = "   Model         : ".to_owned();
    s.append(model_text(c.chip_id));
    s.append(" (firmware chip-id = ");
    append_decimal(&mut s, c.chip_id as usize);
    s.append(")");
    log_tagged(out, label, s.as_str());
    let mut s = "   IDF version   : ".to_owned();
    s.append(version_str(&c.idf_version));
    s.append("  (v");
    append_decimal(&mut s, c.idf_major as usize);
    s.append(".");
    append_decimal(&mut s, c.idf_minor as usize);
    s.append(".");
    append_decimal(&mut s, c.idf_patch as usize);
    s.append(" compiled)");
    log_tagged(out, label, s.as_str());
    let uptime = to_decimal(c.uptime_us / 1000);
    let mut s = "   Uptime        : ".to_owned();
    s.append(uptime.as_str());
    s.append(" ms");
    log_tagged(out, label, s.as_str());
    let mut s = "   Reset reason  : ".to_owned();
    s.append(reset_text(c.reset));
    s.append(" (raw=");
    append_decimal(&mut s, c.reset_raw as usize);
    s.append(")");
    log_tagged(out, label, s.as_str());
    let mut s = "   eFuse pkg ver : ".to_owned();
    append_decimal(&mut s, c.package_version as usize);
    log_tagged(out, label, s.as_str());
    let mut s = "   PSRAM size    : ".to_owned();
    append_decimal(&mut s, c.psram_bytes);
    s.append(" bytes (");
    append_decimal(&mut s, c.psram_bytes / 1024);
    s.append(" KiB)  [0 = no PSRAM]");
    log_tagged(out, label, s.as_str());
    let mut s = "   Free internal : ".to_owned();
    append_kib(&mut s, c.free_internal);
    log_tagged(out, label, s.as_str());
    log_bottom(out, label);
    assert(lines(out@) =~= lines(old(out)@) + chip_lines(label@, *c));
}

/// Different models have different names, and only an identifier that is not in the list is
/// unknown.
pub proof fn law_models_can_be_told_apart(a: u32, b: u32)
    ensures
        model_name(a) == model_name(b) ==> a == b || model_name(a) == "unknown"@,
        model_name(a) == "unknown"@ <==> !(seq![0u32, 2, 5, 9, 12, 13, 16, 18].contains(a)),
{
    reveal_strlit("ESP32");
    reveal_strlit("ESP32-S2");
    reveal_strlit("ESP32-C3");
    reveal_strlit("ESP32-S3");
    reveal_strlit("ESP32-C2");
    reveal_strlit("ESP32-C6");
    reveal_strlit("ESP32-H2");
    reveal_strlit("ESP32-P4");
    reveal_strlit("unknown");
    let n = model_name(a);
    let m = model_name(b);
    assert(n == m ==> n.len() == m.len() && n[6] == m[6] && n[7] == m[7]);
    assert("unknown"@.len() == 7);
    let listed = seq![0u32, 2, 5, 9, 12, 13, 16, 18];
    assert(listed[0] == 0 && listed[1] == 2 && listed[2] == 5 && listed[3] == 9);
    assert(listed[4] == 12 && listed[5] == 13 && listed[6] == 16 && listed[7] == 18);
}

/// Different reset reasons have different names.
pub proof fn law_reset_reasons_can_be_told_apart(a: ResetReason, b: ResetReason)
    ensures
        reset_name(a) == reset_name(b) <==> a == b,
{
    reveal_strlit("Power-on");
    reveal_strlit("Software reset");
    reveal_strlit("Panic / exception");
    reveal_strlit("Interrupt WDT");
    reveal_strlit("Task WDT");
    reveal_strlit("Other WDT");
    reveal_strlit("Deep-sleep wakeup");
    reveal_strlit("Brownout");
    reveal_strlit("SDIO reset");
    reveal_strlit("Unknown");
    let n = reset_name(a);
    let m = reset_name(b);
    assert(n == m ==> n.len() == m.len() && n[0] == m[0]);
}

/// A version text that is UTF-8 is shown as it came, and any other as a question mark.
pub proof fn law_version_is_shown_as_it_came(bytes: Seq<u8>)
    ensures
        valid_utf8(bytes) ==> vstd::utf8::encode_utf8(version_text(bytes)) == bytes,
        !valid_utf8(bytes) ==> version_text(bytes) == "?"@,
{
    if valid_utf8(bytes) {
        vstd::utf8::decode_utf8_encode_utf8(bytes);
    }
}

/// The time since the start is shown in whole milliseconds, and the external memory in bytes and
/// in whole KiB of 1024.
pub proof fn law_chip_figures_are_rounded_down(
    label: Seq<char>,
    c: ChipReading,
    ms: nat,
    k: nat,
)
    requires
        ms * 1000 <= c.uptime_us < (ms + 1) * 1000,
        k * 1024 <= c.psram_bytes < (k + 1) * 1024,
    ensures
        chip_lines(label, c)[3] == info(
            tagged(label, "   Uptime        : "@ + decimal(ms) + " ms"@),
        ),
        chip_lines(label, c)[6] == info(
            tagged(
                label,
                "   PSRAM size    : "@ + decimal(c.psram_bytes as nat) + " bytes ("@ + decimal(k)
                    + " KiB)  [0 = no PSRAM]"@,
            ),
        ),
{
    assert(c.uptime_us / 1000 == ms);
    assert(c.psram_bytes / 1024 == k);
}

} // verus!
