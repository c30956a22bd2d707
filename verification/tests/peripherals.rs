use esp32_workshop::board::used_gpios;
use esp32_workshop::camera::{capture_reply, CaptureReply};
use esp32_workshop::page::{fill_display_card, health_json, PageParts};
use esp32_workshop::peripherals::button::PressCounter;
use esp32_workshop::peripherals::buzzer::{beep_request, Beep, BuzzerStep};
use esp32_workshop::peripherals::joystick::{clock, Switch};
use esp32_workshop::peripherals::led::{blink_json, blink_steps, LedColor, LedStep};
use esp32_workshop::peripherals::servo::{servo_duty, servo_json, servo_request};
use esp32_workshop::peripherals::solar::{solar_json, voltage_mv};
use esp32_workshop::peripherals::ultrasonic::{
    distance_json, error_json, error_text, is_in_range, on_level, on_trigger, start_measurement,
    EchoError, EchoPhase, EchoStep,
};
use esp32_workshop::station::{
    after_address, after_connect, after_disconnect, after_poll, poll_link, StationPhase,
};

#[test]
fn button_counts_falling_edges() {
    let mut b = PressCounter::new();
    let highs = [true, false, false, true, false, true, true, false];
    let presses = [false, true, false, false, true, false, false, true];
    for (high, press) in highs.iter().zip(presses) {
        assert_eq!(b.sample_pin(*high), press);
    }
    assert_eq!(b.count_json(), "{\"count\":3}");
    assert_eq!(b.reset(), "{\"count\":0}");
    assert_eq!(b.count_json(), "{\"count\":0}");
    assert!(b.pressed);
    let before = b;
    assert!(!b.sample(true));
    assert_eq!(b, before);
}

#[test]
fn button_counter_wraps_around() {
    let mut b = PressCounter { pressed: false, count: u32::MAX };
    assert!(b.sample(true));
    assert_eq!(b.count, 0);
}

#[test]
fn beeps() {
    assert_eq!(beep_request("/api/beep"), Beep { duration_ms: 200, frequency_hz: 2000 });
    assert_eq!(
        beep_request("/api/beep?frequency_hz=440&duration_ms=75"),
        Beep { duration_ms: 75, frequency_hz: 440 }
    );
    assert_eq!(
        beep_request("/api/beep?duration_ms=0&frequency_hz=1"),
        Beep { duration_ms: 1, frequency_hz: 100 }
    );
    assert_eq!(
        beep_request("/api/beep?duration_ms=99999&frequency_hz=99999"),
        Beep { duration_ms: 5000, frequency_hz: 8000 }
    );
    assert_eq!(
        beep_request("/api/beep?duration_ms=-1&frequency_hz=4294967296"),
        Beep { duration_ms: 200, frequency_hz: 2000 }
    );
    let beep = Beep { duration_ms: 200, frequency_hz: 2000 };
    assert_eq!(beep.json(), "{\"beeped\":true,\"duration_ms\":200}");
    assert_eq!(
        beep.steps(),
        [
            BuzzerStep::SetFrequency(2000),
            BuzzerStep::SetDuty(128),
            BuzzerStep::Sleep(200),
            BuzzerStep::SetDuty(0),
        ]
    );
}

#[test]
fn blinks() {
    assert_eq!(
        blink_steps(),
        [
            LedStep::Write(LedColor { r: 50, g: 50, b: 50 }),
            LedStep::SleepMs(1000),
            LedStep::Write(LedColor { r: 0, g: 0, b: 0 }),
        ]
    );
    assert_eq!(blink_json(), "{\"blinked\":true}");
}

#[test]
fn servo_angles() {
    assert_eq!(servo_request("/api/servo?angle=45"), 45);
    assert_eq!(servo_request("/api/servo"), 90);
    assert_eq!(servo_request("/api/servo?angle=x"), 90);
    assert_eq!(servo_request("/api/servo?angle=181"), 180);
    assert_eq!(servo_duty(0), 410);
    assert_eq!(servo_duty(90), 1229);
    assert_eq!(servo_duty(180), 2048);
    for a in 0..180 {
        assert!(servo_duty(a) < servo_duty(a + 1));
    }
    assert_eq!(servo_json(90, 1229), "{\"angle\":90,\"duty\":1229}");
}

#[test]
fn requested_angles_and_beeps_are_taken() {
    for angle in 0..=180u32 {
        assert_eq!(servo_request(&format!("/api/servo?angle={}", angle)), angle);
    }
    for (duration_ms, frequency_hz) in [(1, 100), (200, 2000), (4999, 440), (5000, 8000)] {
        let uri = format!("/api/beep?duration_ms={}&frequency_hz={}", duration_ms, frequency_hz);
        assert_eq!(beep_request(&uri), Beep { duration_ms, frequency_hz });
    }
}

#[test]
fn solar_voltages() {
    assert_eq!(voltage_mv(0), 0);
    assert_eq!(voltage_mv(4095), 3300);
    assert_eq!(voltage_mv(u16::MAX), 52812);
    assert_eq!(solar_json(2048), "{\"raw\":2048,\"voltage_mv\":1650}");
    for raw in 0..4095 {
        assert!(voltage_mv(raw) <= voltage_mv(raw + 1));
    }
}

#[test]
fn joystick_switch_is_lit_for_a_moment() {
    let mut sw = Switch::new();
    assert!(!sw.lit(0));
    sw.sample(true, 4_000_000);
    assert_eq!(sw.json(2048, 2047, 5_000_000), "{\"x\":2048,\"y\":2047,\"sw\":false}");
    sw.sample(false, 5_000_000);
    assert_eq!(sw.last_press_ms, 5000);
    sw.sample(false, 5_050_000);
    assert_eq!(sw.last_press_ms, 5000);
    assert!(sw.lit(5000) && sw.lit(5199));
    assert!(!sw.lit(5200));
    assert_eq!(sw.json(0, 4095, 5_199_999), "{\"x\":0,\"y\":4095,\"sw\":true}");
    assert_eq!(clock(4_294_967_296_000), 0);
    assert_eq!(clock(4_294_967_295_999), u32::MAX);
    assert!(sw.lit(10));
}

#[test]
fn echo_is_the_pulse_width() {
    let p = start_measurement(100);
    assert_eq!(p, EchoPhase::Clear { start_us: 100 });
    assert_eq!(on_level(p, true, 30_100), EchoStep::Continue(p));
    assert_eq!(on_level(p, true, 30_101), EchoStep::Failed(EchoError::StuckHigh));
    assert_eq!(on_level(p, false, 99_999), EchoStep::Continue(EchoPhase::Trigger));
    assert_eq!(on_trigger(false, 5), EchoStep::Failed(EchoError::TriggerFailed));
    let p = EchoPhase::Rise { start_us: 1000 };
    assert_eq!(on_trigger(true, 1000), EchoStep::Continue(p));
    assert_eq!(on_level(p, false, 31_000), EchoStep::Continue(p));
    assert_eq!(on_level(p, false, 31_001), EchoStep::Failed(EchoError::NoEcho));
    let q = EchoPhase::Fall { start_us: 40_000 };
    assert_eq!(on_level(p, true, 40_000), EchoStep::Continue(q));
    assert_eq!(on_level(q, true, 70_000), EchoStep::Continue(q));
    assert_eq!(on_level(q, true, 70_001), EchoStep::Failed(EchoError::EchoTimeout));
    assert_eq!(on_level(q, false, 41_365), EchoStep::Done { echo_us: 1365 });
    assert_eq!(on_level(q, false, 40_116), EchoStep::Failed(EchoError::OutOfRange));
    assert_eq!(on_level(q, false, 39_000), EchoStep::Failed(EchoError::OutOfRange));
}

#[test]
fn the_range_is_that_of_the_distance_in_centimetres() {
    for echo_us in (0u64..40_000).chain([1 << 40, u64::MAX]) {
        let distance_cm = echo_us as f32 * 0.0343f32 / 2.0;
        assert_eq!(is_in_range(echo_us), !(distance_cm < 2.0 || distance_cm > 400.0));
    }
    assert!(!is_in_range(116) && is_in_range(117));
    assert!(is_in_range(23_323) && !is_in_range(23_324));
}

#[test]
fn distances_and_errors_as_json() {
    assert_eq!(distance_json("23.4", 1365), "{\"distance_cm\":23.4,\"echo_us\":1365}");
    assert_eq!(error_json(EchoError::NoEcho), "{\"error\":\"no echo\"}");
    assert_eq!(error_text(EchoError::StuckHigh), "echo stuck high");
    assert_eq!(error_text(EchoError::TriggerFailed), "trig error");
    assert_eq!(error_text(EchoError::EchoTimeout), "echo timeout");
    assert_eq!(error_text(EchoError::OutOfRange), "out of range");
}

#[test]
fn pages_are_streamed_without_loss() {
    let template = "<a>{{MODULES}}<b>";
    let cards = vec!["[1]".to_string(), "".to_string(), "[3]".to_string()];
    let page = PageParts::new(template, cards).unwrap();
    assert_eq!((page.prefix, page.suffix), ("<a>", "<b>"));
    let chunks: Vec<&str> = (0..page.chunk_count()).map(|i| page.chunk(i)).collect();
    assert_eq!(chunks, vec!["<a>", "[1]", "", "[3]", "<b>"]);
    assert_eq!(chunks.concat(), template.replace("{{MODULES}}", "[1][3]"));
    assert!(PageParts::new("<a>{{MODULE}}", vec![]).is_none());
    let twice = PageParts::new("ü{{MODULES}}-{{MODULES}}", vec![]).unwrap();
    assert_eq!((twice.prefix, twice.suffix), ("ü", "-{{MODULES}}"));
}

#[test]
fn display_card_is_filled() {
    assert_eq!(
        fill_display_card("<{{BASIC_CARD}}|{{RENDERER_CARD}}>", "b{{RENDERER_CARD}}", "r"),
        "<br|r>"
    );
    assert_eq!(health_json(), "{\"status\":\"ok\"}");
}

#[test]
fn association_is_polled() {
    assert_eq!(poll_link(true, true, 99, 0), Some(true));
    assert_eq!(poll_link(false, true, 0, 99), Some(false));
    assert_eq!(poll_link(false, false, 99, 99), Some(false));
    assert_eq!(poll_link(false, false, 98, 99), None);
    assert_eq!(after_connect(1000), StationPhase::Poll { deadline_ms: 16_000 });
    assert_eq!(
        after_poll(16_000, false, false, 15_999),
        (StationPhase::Poll { deadline_ms: 16_000 }, 200)
    );
    assert_eq!(after_poll(16_000, false, false, 16_000), (StationPhase::Retry, 0));
    assert_eq!(after_poll(16_000, true, false, 1), (StationPhase::AwaitAddress, 0));
    assert_eq!(after_disconnect(), (StationPhase::Connect, 300));
    assert_eq!(after_address(true), StationPhase::Up);
    assert_eq!(after_address(false), StationPhase::Retry);
}

#[test]
fn captures() {
    match capture_reply(Some(&[0xff, 0xd8])) {
        CaptureReply::Picture { content_type, body } => {
            assert_eq!((content_type, body), ("image/jpeg", &[0xff, 0xd8][..]));
        }
        other => panic!("{:?}", other),
    }
    assert!(matches!(capture_reply(None), CaptureReply::Status(500)));
}

#[test]
fn reserved_pins_are_left_alone() {
    let pins = used_gpios();
    assert_eq!(pins, [0, 2, 3, 4, 5, 6, 7, 8, 9, 10, 11, 15, 18, 21, 20, 22]);
    for (i, pin) in pins.iter().enumerate() {
        assert!(![1, 12, 13].contains(pin));
        assert!(!pins[..i].contains(pin));
    }
}
