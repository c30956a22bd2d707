use esp32_workshop::mem::chip::{model_text, print_chip, reset_text, ChipReading, ResetReason};
use esp32_workshop::mem::heap::{cap_name, print_heap, HeapReading, HeapReadings, CAP_COUNT};
use esp32_workshop::mem::log::{bar, kib, LogLine};
use esp32_workshop::mem::map::{print_memory_map, region, region_kib, REGION_COUNT};
use esp32_workshop::mem::segments::{print_linker_segments, Segment, Segments};
use esp32_workshop::mem::stack::print_stack;
use esp32_workshop::mem::{print_anomalies, report, Readings};

const FOOT: &str = " └───────────────────────────────────────────────────────────────────────┘";

fn infos(lines: &[LogLine]) -> Vec<&str> {
    lines.iter().filter(|l| !l.warning).map(|l| l.text.as_str()).collect()
}

fn chip() -> ChipReading {
    ChipReading {
        chip_id: 13,
        idf_version: b"v5.3.1".to_vec(),
        idf_major: 5,
        idf_minor: 3,
        idf_patch: 1,
        uptime_us: 1_234_567,
        reset: ResetReason::PowerOn,
        reset_raw: 1,
        package_version: 0,
        psram_bytes: 0,
        free_internal: 340_000,
    }
}

fn healthy() -> HeapReading {
    HeapReading {
        free: 200_000,
        used: 100_000,
        largest: 180_000,
        low_water: 150_000,
        free_blocks: 3,
        used_blocks: 40,
        total_blocks: 43,
    }
}

fn heap(first: HeapReading) -> HeapReadings {
    let mut caps = [healthy(); CAP_COUNT];
    caps[0] = first;
    HeapReadings { caps, total_free: 200_000, minimum_free: 150_000, largest_block: 180_000 }
}

fn segments() -> Segments {
    Segments {
        text: Segment { start: 0x4200_0020, end: 0x4210_0020 },
        rodata: Segment { start: 0x4210_0020, end: 0x4218_0020 },
        data: Segment { start: 0x4080_0000, end: 0x4080_2800 },
        bss: Segment { start: 0x4080_2800, end: 0x4080_7800 },
        heap: Segment { start: 0x4087_0000, end: 0x4080_0000 },
    }
}

fn readings() -> Readings {
    Readings { chip: chip(), segments: segments(), heap: heap(healthy()), stack_words: 1000 }
}

#[test]
fn usage_bars() {
    assert_eq!(bar(40, 100), "[████████░░░░░░░░░░░░]  40%");
    assert_eq!(bar(0, 7), "[░░░░░░░░░░░░░░░░░░░░]   0%");
    assert_eq!(bar(7, 7), "[████████████████████] 100%");
    assert_eq!(bar(9, 7), "[████████████████████] 100%");
    assert_eq!(bar(5, 0), "[                    ]   n/a");
    assert_eq!(bar(usize::MAX, 0), "[                    ]   n/a");
    for used in 0..=300usize {
        let cells: Vec<char> = bar(used, 300).chars().skip(1).take(20).collect();
        let filled = cells.iter().filter(|c| **c == '█').count();
        assert_eq!(filled, used * 20 / 300);
        assert!(cells[..filled].iter().all(|c| *c == '█'));
        assert!(cells[filled..].iter().all(|c| *c == '░'));
        assert_eq!(filled == 20, used == 300);
    }
}

#[test]
fn sizes_are_in_kib() {
    assert_eq!(kib(0), "    0 KiB");
    assert_eq!(kib(1023), "    0 KiB");
    assert_eq!(kib(340_000), "  332 KiB");
    assert_eq!(kib(1 << 30), "1048576 KiB");
}

#[test]
fn chip_section() {
    let mut out = Vec::new();
    print_chip(&mut out, "boot", &chip());
    assert_eq!(
        infos(&out),
        vec![
            "[boot] ┌─────────────────────────── CHIP / RUNTIME ────────────────────────────┐",
            "[boot]   Model         : ESP32-C6 (firmware chip-id = 13)",
            "[boot]   IDF version   : v5.3.1  (v5.3.1 compiled)",
            "[boot]   Uptime        : 1234 ms",
            "[boot]   Reset reason  : Power-on (raw=1)",
            "[boot]   eFuse pkg ver : 0",
            "[boot]   PSRAM size    : 0 bytes (0 KiB)  [0 = no PSRAM]",
            "[boot]   Free internal :   332 KiB",
            &format!("[boot]{}", FOOT),
        ]
    );
}

#[test]
fn a_version_that_is_not_utf8_is_a_question_mark() {
    let mut out = Vec::new();
    let c = ChipReading { idf_version: vec![0xff], ..chip() };
    print_chip(&mut out, "x", &c);
    assert_eq!(out[2].text, "[x]   IDF version   : ?  (v5.3.1 compiled)");
}

#[test]
fn models_and_reset_reasons() {
    let models = [
        (0, "ESP32"), (2, "ESP32-S2"), (5, "ESP32-C3"), (9, "ESP32-S3"), (12, "ESP32-C2"),
        (13, "ESP32-C6"), (16, "ESP32-H2"), (18, "ESP32-P4"), (1, "unknown"),
    ];
    for (id, name) in models {
        assert_eq!(model_text(id), name);
    }
    let reasons = [
        (ResetReason::PowerOn, "Power-on"),
        (ResetReason::Software, "Software reset"),
        (ResetReason::Panic, "Panic / exception"),
        (ResetReason::InterruptWatchdog, "Interrupt WDT"),
        (ResetReason::TaskWatchdog, "Task WDT"),
        (ResetReason::OtherWatchdog, "Other WDT"),
        (ResetReason::DeepSleep, "Deep-sleep wakeup"),
        (ResetReason::Brownout, "Brownout"),
        (ResetReason::Sdio, "SDIO reset"),
        (ResetReason::Other, "Unknown"),
    ];
    for (reason, name) in reasons {
        assert_eq!(reset_text(reason), name);
    }
}

#[test]
fn memory_map_section() {
    let mut out = Vec::new();
    print_memory_map(&mut out, "m");
    assert_eq!(out.len(), REGION_COUNT + 4);
    assert_eq!(out[0].text, "[m] ┌─────────────────────────── STATIC MEMORY MAP ─────────────────────────┐");
    assert_eq!(
        out[1].text,
        format!(
            "[{}]   {:<30}  {:>10}  {:>10}  {:>6}  {:>7}  Notes",
            "m", "Region", "Start", "End", "Perms", "Size"
        )
    );
    assert_eq!(out[2].text, format!("[{}]   {}", "m", "─".repeat(80)));
    let sizes = [128, 432, 592, 16, 32768, 16384, 0];
    for i in 0..REGION_COUNT {
        let r = region(i);
        assert_eq!(region_kib(r.start, r.end), sizes[i]);
        assert_eq!(
            out[3 + i].text,
            format!(
                "[{}]   {:<30}  0x{:08X}  0x{:08X}  {:>6}  {:>5} KiB  {}",
                "m", r.name, r.start, r.end, r.perms, sizes[i], r.note
            )
        );
    }
    assert_eq!(region(3).name, "LP_SRAM (RTC fast mem)");
    assert_eq!(region(4).note, "32 MiB virtual window (≤ 8 MiB chip)");
    assert_eq!(out[3 + REGION_COUNT].text, format!("[m]{}", FOOT));
    assert_eq!(region_kib(0x2000, 0x1000), 0);
    assert_eq!(region_kib(0, 0xFFFF_FFFF), 4_194_304);
}

#[test]
fn linker_section() {
    let mut out = Vec::new();
    print_linker_segments(&mut out, "l", &segments());
    let t = infos(&out);
    assert_eq!(t[0], "[l] ┌─────────────────────────── LINKER SEGMENTS ───────────────────────────┐");
    assert_eq!(
        t[1],
        format!(
            "[{}]   {:<10}  {:>10}  {:>10}  {:>9}  Flags  Description",
            "l", "Segment", "Start", "End", "Size"
        )
    );
    assert_eq!(t[2], format!("[l]   {}", "─".repeat(72)));
    assert_eq!(
        t[3],
        format!(
            "[{}]   {:<10}  0x{:08X}  0x{:08X}  {}  r-x    code in flash (XIP executed)",
            "l", ".text", 0x4200_0020, 0x4210_0020, " 1024 KiB"
        )
    );
    assert_eq!(
        t[7],
        format!(
            "[{}]   {:<10}  0x{:08X}  0x{:08X}  {}  rw-    runtime heap (grows upward)",
            "l", "heap", 0x4087_0000, 0x4080_0000, "    0 KiB"
        )
    );
    assert_eq!(
        t[9],
        format!(
            "[{}]   {:<10}  {:>10}  {:>10}  {}       SRAM static footprint (.data + .bss)",
            "l", "STATIC", "", "", "   30 KiB"
        )
    );
    assert_eq!(
        t[10],
        format!(
            "[{}]   {:<10}  {:>10}  {:>10}  {}       Flash footprint (.text + .rodata)",
            "l", "FLASH", "", "", " 1536 KiB"
        )
    );
    assert_eq!(t.len(), 12);
}

#[test]
fn heap_section() {
    let mut out = Vec::new();
    let found = print_heap(&mut out, "h", &heap(healthy()));
    assert!(found.is_empty());
    assert_eq!(out.len(), 4 + 2 * CAP_COUNT + 3);
    assert_eq!(
        out[1].text,
        format!(
            "[{}]   {:<36}  {:>6}  {:>6}  {:>6}  {:>6}  {:>5}  {:>5}  {}",
            "h", "Capability", "Total", "Used", "Free", "LargeB", "Blks", "Frag%", "Usage"
        )
    );
    assert_eq!(
        out[2].text,
        format!(
            "[{}]   {:<36}  {:>6}  {:>6}  {:>6}  {:>6}  {:>5}  {:>5}  {}",
            "h", "", "KiB", "KiB", "KiB", "KiB", "", "", "[20 chars]"
        )
    );
    assert_eq!(
        out[4].text,
        format!(
            "[{}]   {:<36}  {:>6}  {:>6}  {:>6}  {:>6}  {:>5}  {:>4}%  {}",
            "h", "INTERNAL (on-chip SRAM)", 292, 97, 195, 175, 43, 10, bar(100_000, 300_000)
        )
    );
    assert_eq!(
        out[5].text,
        format!(
            "[{}]     {:>36}  low-water {:>4} KiB  alloc-blks {:>4}  free-blks {:>4}",
            "h", "", 146, 40, 3
        )
    );
    assert_eq!(
        out[4 + 2 * CAP_COUNT + 1].text,
        "[h]   TOTAL free (default caps) :   195 KiB  lifetime-min :   146 KiB  largest-block :   175 KiB"
    );
    assert_eq!(cap_name(5, true), "SPIRAM");
    assert_eq!(cap_name(5, false), "SPIRAM (external PSRAM)");
}

#[test]
fn heap_anomalies() {
    let mut out = Vec::new();
    let high = HeapReading { free: 20_000, largest: 3_000, ..healthy() };
    assert_eq!(
        print_heap(&mut out, "h", &heap(high)),
        vec![
            "FRAG HIGH  : INTERNAL — 85% fragmented  (free 19 KiB, largest block 2 KiB)",
            "TINY BLOCK : INTERNAL — largest free block 2 KiB despite 19 KiB total free (severe fragmentation)",
        ]
    );
    let moderate = HeapReading { free: 100_000, largest: 70_000, ..healthy() };
    assert_eq!(
        print_heap(&mut out, "h", &heap(moderate)),
        vec!["FRAG MOD   : INTERNAL — 30% fragmented"]
    );
    let low = HeapReading { free: 8_191, largest: 8_191, ..healthy() };
    assert_eq!(
        print_heap(&mut out, "h", &heap(low)),
        vec!["LOW HEAP   : INTERNAL — only 7 KiB remaining"]
    );
    let absent = HeapReading { free: 0, used: 0, largest: 0, ..healthy() };
    assert!(print_heap(&mut out, "h", &heap(absent)).is_empty());
    let full = HeapReading { free: 0, largest: 0, ..healthy() };
    assert_eq!(
        print_heap(&mut out, "h", &heap(full)),
        vec!["LOW HEAP   : INTERNAL — only 0 KiB remaining"]
    );
}

#[test]
fn stack_section() {
    let mut out = Vec::new();
    assert!(print_stack(&mut out, "s", 256).is_none());
    assert_eq!(
        out[1].text,
        "[s]   Main task stack high-water mark : 256 words = 1024 bytes (1 KiB)     OK       "
    );
    out.clear();
    assert_eq!(
        print_stack(&mut out, "s", 255).as_deref(),
        Some("STACK LOW  : main task — 1020 bytes remaining (< 1 KiB)")
    );
    assert_eq!(
        out[1].text,
        "[s]   Main task stack high-water mark : 255 words = 1020 bytes (0 KiB)  !  WARNING  "
    );
    out.clear();
    print_stack(&mut out, "s", 127);
    assert!(out[1].text.ends_with("  !! CRITICAL"));
    assert_eq!(
        out[2].text,
        "[s]   (high-water mark = minimum remaining stack since task started)"
    );
}

#[test]
fn anomaly_section() {
    let mut out = Vec::new();
    print_anomalies(&mut out, "a", &vec![]);
    assert_eq!(out[1].text, "[a]   No anomalies detected.");
    assert_eq!(out.len(), 3);
    out.clear();
    print_anomalies(&mut out, "a", &vec!["one".to_string(), "two".to_string()]);
    assert_eq!(out[1].text, "[a]   2 issue(s) detected:");
    assert_eq!((out[2].warning, out[2].text.as_str()), (true, "[a]   *** one"));
    assert_eq!((out[3].warning, out[3].text.as_str()), (true, "[a]   *** two"));
}

#[test]
fn readings_that_overflow_are_told() {
    assert!(readings().is_computable());
    let edge = HeapReading { used: usize::MAX / 100, free: 0, ..healthy() };
    assert!(Readings { heap: heap(edge), ..readings() }.is_computable());
    let over = HeapReading { used: usize::MAX / 100 + 1, free: 0, ..healthy() };
    assert!(!Readings { heap: heap(over), ..readings() }.is_computable());
    let over = HeapReading { largest: usize::MAX, ..healthy() };
    assert!(!Readings { heap: heap(over), ..readings() }.is_computable());
    assert!(!Readings { stack_words: usize::MAX / 4 + 1, ..readings() }.is_computable());
    let whole = Segment { start: 0, end: usize::MAX };
    let segments = Segments { data: whole, ..segments() };
    assert!(!Readings { segments, ..readings() }.is_computable());
}

#[test]
fn reports_warn_of_each_anomaly() {
    let fine = report("boot", &readings());
    assert_eq!(fine.iter().filter(|l| l.warning).count(), 0);
    assert_eq!(fine[0].text, "");
    assert_eq!(fine[1].text, "═".repeat(74));
    assert_eq!(fine[2].text, "  MEMORY DIAGNOSTICS  ─  checkpoint: \"boot\"");
    assert_eq!(fine[fine.len() - 1].text, "");
    let bad = Readings {
        heap: heap(HeapReading { free: 20_000, largest: 3_000, ..healthy() }),
        stack_words: 10,
        ..readings()
    };
    let lines = report("boot", &bad);
    let warnings: Vec<&str> =
        lines.iter().filter(|l| l.warning).map(|l| l.text.as_str()).collect();
    assert_eq!(warnings.len(), 3);
    assert_eq!(warnings[2], "[boot]   *** STACK LOW  : main task — 40 bytes remaining (< 1 KiB)");
    assert_eq!(lines.len(), fine.len() + 3);
}
