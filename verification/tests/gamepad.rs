use esp32_workshop::gamepad::rumble::{
    first_rumble_step, next_rumble_step, payload, Attempt, RumbleStep, WriteModes,
};
use esp32_workshop::gamepad::session::{
    ble_next, sort_characteristics, BleEvent, BlePhase, Characteristic, HID_REPORT_MAP_UUID,
    HID_REPORT_UUID, HID_SERVICE_UUID,
};
use esp32_workshop::gamepad::{accepts_name, now_ms, serialize_snapshot, GamepadHandle};

fn characteristic(uuid: u16, write: bool, quick: bool, notify: bool) -> Characteristic {
    Characteristic {
        uuid: Some(uuid),
        can_write: write,
        can_write_no_response: quick,
        can_notify: notify,
    }
}

/// A handle and the phase of a session that is up, with one writable report.
fn running() -> (GamepadHandle, BlePhase) {
    let mut h = GamepadHandle::new();
    let p = h.start();
    assert!(matches!(p, BlePhase::Scan));
    let found = BleEvent::Found { name: b"8BitDo Ultimate 2C".to_vec(), addr: "AA:BB".to_string() };
    let p = ble_next(p, found, &mut h);
    assert!(matches!(&p, BlePhase::Connect { name, addr } if name == "8BitDo Ultimate 2C" && addr == "AA:BB"));
    assert!(!h.state.connected);
    let p = ble_next(p, BleEvent::Succeeded, &mut h);
    assert!(matches!(p, BlePhase::Secure { .. }));
    assert!(!h.state.connected);
    let p = ble_next(p, BleEvent::Secured { now_ms: 1234 }, &mut h);
    assert!(matches!(p, BlePhase::FindService));
    assert!(h.state.connected);
    let p = ble_next(p, BleEvent::Succeeded, &mut h);
    assert!(matches!(p, BlePhase::ReadReportMap));
    let p = ble_next(p, BleEvent::ReportMap { map: vec![5, 1] }, &mut h);
    assert!(matches!(p, BlePhase::ListCharacteristics));
    let chars = vec![
        characteristic(HID_REPORT_MAP_UUID, false, false, true),
        characteristic(HID_REPORT_UUID, false, false, true),
        characteristic(HID_REPORT_UUID, true, false, true),
        characteristic(HID_REPORT_UUID, false, false, false),
        characteristic(HID_REPORT_UUID, false, false, true),
    ];
    let p = ble_next(p, BleEvent::Characteristics { chars }, &mut h);
    match &p {
        BlePhase::Subscribe { pending, done, writable } => {
            assert_eq!((pending, *done, writable), (&vec![1, 2, 4], 0, &vec![2]));
        }
        other => panic!("{:?}", other),
    }
    let p = ble_next(p, BleEvent::Succeeded, &mut h);
    assert!(matches!(p, BlePhase::Subscribe { done: 1, .. }));
    let p = ble_next(p, BleEvent::Succeeded, &mut h);
    assert!(matches!(p, BlePhase::Subscribe { done: 2, .. }));
    assert_eq!(h.writable_chars, 0);
    let p = ble_next(p, BleEvent::Succeeded, &mut h);
    assert!(matches!(&p, BlePhase::Poll { writable } if *writable == vec![2]));
    assert_eq!(h.writable_chars, 1);
    (h, p)
}

#[test]
fn names_are_matched_anywhere() {
    assert!(accepts_name(b"8BitDo Ultimate 2C"));
    assert!(accepts_name(b"My Ultimate Pad"));
    assert!(accepts_name(b"Xbox Wireless Controller"));
    assert!(accepts_name(b"\xff\xfeGamepad\xff"));
    assert!(!accepts_name(b"8bitdo"));
    assert!(!accepts_name(b"Headphones"));
    assert!(!accepts_name(b""));
}

#[test]
fn snapshot_of_nothing() {
    let h = GamepadHandle::new();
    assert_eq!(
        h.snapshot(),
        r#"{"connected":false,"name":"","addr":"","ts":0,"report":"","reportMap":""}"#
    );
}

#[test]
fn snapshot_follows_the_session() {
    let (mut h, _) = running();
    assert_eq!(
        h.snapshot(),
        r#"{"connected":true,"name":"8BitDo Ultimate 2C","addr":"AA:BB","ts":1234,"report":"","reportMap":"0501"}"#
    );
    h.on_report(&[], 9999);
    assert_eq!(h.state.timestamp_ms, 1234);
    h.on_report(&[0x80, 0x7f, 0x00], 2000);
    assert_eq!(
        serialize_snapshot(&h.state),
        r#"{"connected":true,"name":"8BitDo Ultimate 2C","addr":"AA:BB","ts":2000,"report":"807f00","reportMap":"0501"}"#
    );
}

#[test]
fn different_states_have_different_snapshots() {
    let mut seen = Vec::new();
    for name in ["", "a", "\",\"addr\":\"", "\\"] {
        for addr in ["", "a", "\",\"ts\":1"] {
            for report in [vec![], vec![0u8], vec![0x10, 0x01]] {
                let mut h = GamepadHandle::new();
                h.state.name = name.to_string();
                h.state.addr = addr.to_string();
                h.state.report = report;
                seen.push(h.snapshot());
            }
        }
    }
    let count = seen.len();
    seen.sort();
    seen.dedup();
    assert_eq!(seen.len(), count);
}

#[test]
fn names_that_are_not_utf8_are_decoded_with_replacement() {
    let mut h = GamepadHandle::new();
    let found = BleEvent::Found { name: b"Gamepad\xff\"".to_vec(), addr: String::new() };
    let p = ble_next(BlePhase::Scan, found, &mut h);
    let p = ble_next(p, BleEvent::Succeeded, &mut h);
    let _ = ble_next(p, BleEvent::Secured { now_ms: 1 }, &mut h);
    assert_eq!(h.state.name, "Gamepad\u{fffd}\"");
    assert!(h.snapshot().contains("\"name\":\"Gamepad\u{fffd}\\\"\""));
}

#[test]
fn a_rumble_request_is_served_once() {
    let (mut h, p) = running();
    assert_eq!(h.request_vibration(), r#"{"ok":true}"#);
    assert!(h.vibrate_request);
    let p = ble_next(p, BleEvent::Link { up: true }, &mut h);
    assert!(matches!(&p, BlePhase::Rumble { writable } if *writable == vec![2]));
    assert!(!h.vibrate_request);
    let p = ble_next(p, BleEvent::Failed, &mut h);
    assert!(matches!(p, BlePhase::Idle { .. }));
    let p = ble_next(p, BleEvent::Elapsed, &mut h);
    let p = ble_next(p, BleEvent::Link { up: true }, &mut h);
    assert!(matches!(p, BlePhase::Idle { .. }));
}

#[test]
fn a_lost_link_resets_the_handle() {
    let (mut h, p) = running();
    h.request_vibration();
    let p = ble_next(p, BleEvent::Link { up: false }, &mut h);
    assert!(matches!(p, BlePhase::Cooldown));
    assert!(!h.state.connected && !h.vibrate_request);
    assert_eq!(h.writable_chars, 0);
    assert_eq!(h.state.name, "8BitDo Ultimate 2C");
    assert!(matches!(ble_next(p, BleEvent::Elapsed, &mut h), BlePhase::Scan));
}

#[test]
fn failures_end_the_session_where_it_cannot_do_without() {
    let phases: Vec<fn() -> BlePhase> = vec![
        || BlePhase::Scan,
        || BlePhase::Connect { name: String::new(), addr: String::new() },
        || BlePhase::FindService,
        || BlePhase::ListCharacteristics,
        || BlePhase::Subscribe { pending: vec![0], done: 0, writable: vec![] },
    ];
    for make in phases {
        let mut h = GamepadHandle::new();
        h.state.connected = true;
        assert!(matches!(ble_next(make(), BleEvent::Failed, &mut h), BlePhase::Cooldown));
        assert!(!h.state.connected);
    }
    let mut h = GamepadHandle::new();
    let p = ble_next(BlePhase::ReadReportMap, BleEvent::Failed, &mut h);
    assert!(matches!(p, BlePhase::ListCharacteristics));
}

#[test]
fn a_device_without_notifying_reports_is_left() {
    let mut h = GamepadHandle::new();
    h.state.connected = true;
    let chars = vec![
        characteristic(HID_REPORT_UUID, true, true, false),
        characteristic(HID_REPORT_MAP_UUID, false, false, true),
    ];
    let p = ble_next(BlePhase::ListCharacteristics, BleEvent::Characteristics { chars }, &mut h);
    assert!(matches!(p, BlePhase::Cooldown));
    assert!(!h.state.connected);
    assert_eq!(h.writable_chars, 0);
}

#[test]
fn a_report_that_notifies_and_can_be_written_is_subscribed() {
    let mut h = GamepadHandle::new();
    let chars = vec![characteristic(HID_REPORT_UUID, true, true, true)];
    let p = ble_next(BlePhase::ListCharacteristics, BleEvent::Characteristics { chars }, &mut h);
    match &p {
        BlePhase::Subscribe { pending, done, writable } => {
            assert_eq!((pending, *done, writable), (&vec![0], 0, &vec![0]));
        }
        other => panic!("{:?}", other),
    }
    let p = ble_next(p, BleEvent::Succeeded, &mut h);
    assert!(matches!(&p, BlePhase::Poll { writable } if *writable == vec![0]));
    assert_eq!(h.writable_chars, 1);
}

#[test]
fn a_request_without_a_gamepad_is_answered_alike() {
    let mut h = GamepadHandle::new();
    assert_eq!(h.request_vibration(), r#"{"ok":true}"#);
    assert!(h.vibrate_request);
}

#[test]
fn only_reports_are_used() {
    let chars = [
        Characteristic { uuid: None, can_write: true, can_write_no_response: true, can_notify: true },
        characteristic(HID_SERVICE_UUID, true, true, true),
        characteristic(HID_REPORT_UUID, false, true, true),
        characteristic(HID_REPORT_UUID, false, false, true),
    ];
    assert_eq!(sort_characteristics(&chars), (vec![2], vec![2, 3]));
}

/// The writes of a rumble and how it ended, where `accepts` answers each write.
fn run(modes: &[WriteModes], accepts: impl Fn(&Attempt) -> bool) -> (Vec<Attempt>, RumbleStep) {
    let mut writes = Vec::new();
    let mut step = first_rumble_step(modes);
    while let RumbleStep::Try { attempt, accepted: before } = step {
        writes.push(attempt);
        step = next_rumble_step(modes, attempt, before, accepts(&attempt));
    }
    (writes, step)
}

fn write(characteristic: usize, payload: usize, with_response: bool) -> Attempt {
    Attempt { characteristic, payload, with_response }
}

const BOTH: WriteModes = WriteModes { can_write: true, can_write_no_response: true };
const QUICK: WriteModes = WriteModes { can_write: false, can_write_no_response: true };
const NEITHER: WriteModes = WriteModes { can_write: false, can_write_no_response: false };

#[test]
fn rumble_payloads() {
    assert_eq!(payload(0), [0x0F, 0, 0, 80, 80, 100, 0, 0]);
    assert_eq!(payload(1), [0xFF, 0xFF]);
    assert_eq!(payload(2), [0x00, 0xFF, 0xFF, 0x00]);
    assert_eq!(payload(3), [0x03, 0xFF]);
}

#[test]
fn the_report_goes_to_every_characteristic() {
    let (writes, end) = run(&[BOTH, QUICK, BOTH], |_| true);
    assert_eq!(writes, [write(0, 0, true), write(1, 0, false), write(2, 0, true)]);
    assert_eq!(end, RumbleStep::Done);
    let (writes, end) = run(&[QUICK, BOTH], |a| a.characteristic == 0 && a.payload == 2);
    assert!(writes.contains(&write(0, 0, false)) && writes.contains(&write(1, 0, true)));
    assert_eq!(writes.iter().filter(|a| a.characteristic == 0).count(), 3);
    assert_eq!(writes.iter().filter(|a| a.characteristic == 1).count(), 8);
    assert_eq!(end, RumbleStep::Done);
}

#[test]
fn refused_payloads_are_followed_by_the_next() {
    let (writes, end) = run(&[BOTH, NEITHER, QUICK], |_| false);
    let mut wanted = Vec::new();
    for p in 0..4 {
        wanted.push(write(0, p, true));
        wanted.push(write(0, p, false));
    }
    for p in 0..4 {
        wanted.push(write(2, p, false));
    }
    assert_eq!(writes, wanted);
    assert_eq!(end, RumbleStep::Refused);
}

#[test]
fn a_rumble_with_nothing_to_write_to_is_done() {
    assert_eq!(first_rumble_step(&[]), RumbleStep::Done);
    assert_eq!(first_rumble_step(&[NEITHER]), RumbleStep::Refused);
    assert_eq!(run(&[BOTH, NEITHER], |a| !a.with_response).1, RumbleStep::Done);
}

#[test]
fn milliseconds_are_rounded_down() {
    assert_eq!(now_ms(0), 0);
    assert_eq!(now_ms(1_999), 1);
    assert_eq!(now_ms(i64::MAX), i64::MAX as u64 / 1000);
    assert_eq!(now_ms(-1), u64::MAX / 1000);
}
