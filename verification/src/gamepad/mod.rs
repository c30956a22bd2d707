//! The BLE gamepad: what is known of it, how the dashboard is told, and the BLE session.

pub mod rumble;
pub mod session;

use crate::json::{
    bool_literal, bool_text, bytes_to_hex, escaped, hex_text, json_escape,
    law_byte_strings_can_be_told_apart, law_strings_can_be_told_apart,
};
use crate::number::{decimal, law_parse_inverts_decimal, to_decimal};
use crate::query::lemma_decimal_is_digits;
use crate::text::{contains, lemma_cut_at_stop, lemma_same_beginning, occurs_at};
use bstr::ByteSlice;
use vstd::prelude::*;
use vstd::utf8::{decode_utf8, encode_utf8, valid_utf8};

verus! {

/// The latest that is known of the gamepad.
#[derive(Debug)]
pub struct GamepadState {
    pub connected: bool,
    pub name: String,
    pub addr: String,
    pub timestamp_ms: u64,
    pub report: Vec<u8>,
    pub report_map: Vec<u8>,
}

/// The contents of a [`GamepadState`].
#[verifier::ext_equal]
pub struct GamepadView {
    pub connected: bool,
    pub name: Seq<char>,
    pub addr: Seq<char>,
    pub timestamp_ms: u64,
    pub report: Seq<u8>,
    pub report_map: Seq<u8>,
}

impl View for GamepadState {
    type V = GamepadView;

    open spec fn view(&self) -> GamepadView {
        GamepadView {
            connected: self.connected,
            name: self.name@,
            addr: self.addr@,
            timestamp_ms: self.timestamp_ms,
            report: self.report@,
            report_map: self.report_map@,
        }
    }
}

/// Nothing known: no gamepad connected.
pub open spec fn unknown_gamepad() -> GamepadView {
    GamepadView {
        connected: false,
        name: Seq::empty(),
        addr: Seq::empty(),
        timestamp_ms: 0,
        report: Seq::empty(),
        report_map: Seq::empty(),
    }
}

/// The JSON object for the dashboard. Texts are escaped and byte strings are hexadecimal.
pub open spec fn snapshot_json(g: GamepadView) -> Seq<char> {
    "{\"connected\":"@ + bool_text(g.connected) + ",\"name\":\""@ + escaped(g.name)
        + "\",\"addr\":\""@ + escaped(g.addr) + "\",\"ts\":"@ + decimal(g.timestamp_ms as nat)
        + ",\"report\":\""@ + hex_text(g.report) + "\",\"reportMap\":\""@ + hex_text(g.report_map)
        + "\"}"@
}

/// Serializes the state for the dashboard.
pub fn serialize_snapshot(s: &GamepadState) -> (r: String)
    ensures
        r@ == snapshot_json(s@),
{
    let report_hex = bytes_to_hex(&s.report);
    let map_hex = bytes_to_hex(&s.report_map);
    let name_escaped = json_escape(s.name.as_str());
    let addr_escaped = json_escape(s.addr.as_str());
    let time = to_decimal(s.timestamp_ms);
    let mut out = "{\"connected\":".to_owned();
    out.append(bool_literal(s.connected));
    out.append(",\"name\":\"");
    out.append(name_escaped.as_str());
    out.append("\",\"addr\":\"");
    out.append(addr_escaped.as_str());
    out.append("\",\"ts\":");
    out.append(time.as_str());
    out.append(",\"report\":\"");
    out.append(report_hex.as_str());
    out.append("\",\"reportMap\":\"");
    out.append(map_hex.as_str());
    out.append("\"}");
    out
}

/// `bstr::ByteSlice::contains_str`: whether the needle's bytes stand anywhere in the haystack.
#[verifier::external_body]
fn bytes_contain(haystack: &[u8], needle: &str) -> (r: bool)
    ensures
        r == contains(haystack@, encode_utf8(needle@)),
{
    haystack.contains_str(needle)
}

/// What `String::from_utf8_lossy` makes of the bytes.
pub uninterp spec fn lossy_text(bytes: Seq<u8>) -> Seq<char>;

/// `String::from_utf8_lossy`: valid UTF-8 is decoded; what it makes of other bytes, replacement
/// characters among them, is given the name `lossy_text`.
#[verifier::external_body]
pub(crate) fn decode_lossy(bytes: &[u8]) -> (r: String)
    ensures
        r@ == lossy_text(bytes@),
        valid_utf8(bytes@) ==> r@ == decode_utf8(bytes@),
{
    String::from_utf8_lossy(bytes).into_owned()
}

/// Whether an advertised name is one of those that gamepads have.
pub open spec fn is_gamepad_name(name: Seq<u8>) -> bool {
    ||| contains(name, encode_utf8("8BitDo"@))
    ||| contains(name, encode_utf8("Ultimate"@))
    ||| contains(name, encode_utf8("Controller"@))
    ||| contains(name, encode_utf8("Gamepad"@))
}

/// Decides whether to connect to a device that advertises `name`.
pub fn accepts_name(name: &[u8]) -> (r: bool)
    ensures
        r == is_gamepad_name(name@),
{
    bytes_contain(name, "8BitDo") || bytes_contain(name, "Ultimate") || bytes_contain(
        name,
        "Controller",
    ) || bytes_contain(name, "Gamepad")
}

/// The count of a 64-bit timer, taken as unsigned.
pub open spec fn timer_count(timer_us: i64) -> int {
    if timer_us >= 0 {
        timer_us as int
    } else {
        timer_us + 0x1_0000_0000_0000_0000
    }
}

/// Milliseconds of a microsecond timer.
pub fn now_ms(timer_us: i64) -> (r: u64)
    ensures
        r == timer_count(timer_us) / 1000,
        timer_us >= 0 ==> r * 1000 <= timer_us < (r + 1) * 1000,
{
    let count: u64 = timer_us as u64;
    assert(timer_us < 0 ==> timer_us as u64 == timer_us + 0x1_0000_0000_0000_0000)
        by (bit_vector);
    count / 1000
}

/// What the BLE session and the HTTP handlers share.
#[derive(Debug)]
pub struct GamepadHandle {
    pub state: GamepadState,
    pub vibrate_request: bool,
    pub writable_chars: u8,
}

/// The contents of a [`GamepadHandle`].
#[verifier::ext_equal]
pub struct HandleView {
    pub state: GamepadView,
    pub vibrate_request: bool,
    pub writable_chars: u8,
}

impl View for GamepadHandle {
    type V = HandleView;

    open spec fn view(&self) -> HandleView {
        HandleView {
            state: self.state@,
            vibrate_request: self.vibrate_request,
            writable_chars: self.writable_chars,
        }
    }
}

impl HandleView {
    /// After an input report arrived. Empty reports are ignored.
    pub open spec fn with_report(self, data: Seq<u8>, now: u64) -> HandleView {
        if data.len() == 0 {
            self
        } else {
            HandleView { state: GamepadView { report: data, timestamp_ms: now, ..self.state }, ..self }
        }
    }

    /// After the session has ended: not connected, no rumble pending, nothing to write to.
    pub open spec fn ended(self) -> HandleView {
        HandleView {
            state: GamepadView { connected: false, ..self.state },
            vibrate_request: false,
            writable_chars: 0,
        }
    }
}

/// Copies bytes.
pub(crate) fn copy_bytes(bytes: &[u8]) -> (r: Vec<u8>)
    ensures
        r@ == bytes@,
{
    let mut out: Vec<u8> = Vec::new();
    let mut i: usize = 0;
    while i < bytes.len()
        invariant
            i <= bytes@.len(),
            out@ == bytes@.take(i as int),
        decreases bytes@.len() - i,
    {
        out.push(bytes[i]);
        i = i + 1;
        assert(bytes@.take(i as int) =~= bytes@.take(i - 1).push(bytes@[i - 1]));
    }
    assert(bytes@.take(i as int) =~= bytes@);
    out
}

impl GamepadHandle {
    /// The handle before any BLE session.
    pub fn new() -> (r: GamepadHandle)
        ensures
            r@ == (HandleView {
                state: unknown_gamepad(),
                vibrate_request: false,
                writable_chars: 0,
            }),
    {
        let r = GamepadHandle {
            state: GamepadState {
                connected: false,
                name: String::new(),
                addr: String::new(),
                timestamp_ms: 0,
                report: Vec::new(),
                report_map: Vec::new(),
            },
            vibrate_request: false,
            writable_chars: 0,
        };
        assert(r.state@ =~= unknown_gamepad());
        r
    }

    /// The phase in which the BLE state machine starts.
    pub fn start(&self) -> (phase: session::BlePhase)
        ensures
            phase@ == session::PhaseView::Scan,
    {
        session::BlePhase::Scan
    }

    /// Answers `GET /api/gamepad`.
    pub fn snapshot(&self) -> (r: String)
        ensures
            r@ == snapshot_json(self@.state),
    {
        serialize_snapshot(&self.state)
    }

    /// Answers `GET /api/gamepad/vibrate`: asks for a rumble, whether or not a gamepad is
    /// connected.
    pub fn request_vibration(&mut self) -> (r: String)
        ensures
            final(self)@ == (HandleView { vibrate_request: true, ..old(self)@ }),
            r@ == "{\"ok\":true}"@,
    {
        self.vibrate_request = true;
        "{\"ok\":true}".to_owned()
    }

    /// Takes in an input report of the gamepad.
    pub fn on_report(&mut self, data: &[u8], now: u64)
        ensures
            final(self)@ == old(self)@.with_report(data@, now),
            data@.len() > 0 ==> final(self).state.report@ == data@ && final(self).state.timestamp_ms
                == now,
    {
        if data.len() == 0 {
            return;
        }
        self.state.report = copy_bytes(data);
        self.state.timestamp_ms = now;
    }
}

/// What follows the opening quotation mark of the name in a snapshot.
spec fn after_name_mark(g: GamepadView) -> Seq<char> {
    escaped(g.name) + seq!['"'] + (",\"addr\":\""@ + after_addr_mark(g))
}

spec fn after_addr_mark(g: GamepadView) -> Seq<char> {
    escaped(g.addr) + seq!['"'] + (",\"ts\":"@ + after_time_key(g))
}

spec fn after_time_key(g: GamepadView) -> Seq<char> {
    decimal(g.timestamp_ms as nat) + seq![','] + ("\"report\":\""@ + after_report_mark(g))
}

spec fn after_report_mark(g: GamepadView) -> Seq<char> {
    hex_text(g.report) + seq!['"'] + (",\"reportMap\":\""@ + after_map_mark(g))
}

spec fn after_map_mark(g: GamepadView) -> Seq<char> {
    hex_text(g.report_map) + seq!['"'] + "}"@
}

/// The pieces of a snapshot between two values begin with the mark that ends the first of them.
proof fn lemma_snapshot_pieces()
    ensures
        "\",\"addr\":\""@ == seq!['"'] + ",\"addr\":\""@,
        "\",\"ts\":"@ == seq!['"'] + ",\"ts\":"@,
        ",\"report\":\""@ == seq![','] + "\"report\":\""@,
        "\",\"reportMap\":\""@ == seq!['"'] + ",\"reportMap\":\""@,
        "\"}"@ == seq!['"'] + "}"@,
{
    reveal_strlit("\",\"addr\":\"");
    reveal_strlit(",\"addr\":\"");
    reveal_strlit("\",\"ts\":");
    reveal_strlit(",\"ts\":");
    reveal_strlit(",\"report\":\"");
    reveal_strlit("\"report\":\"");
    reveal_strlit("\",\"reportMap\":\"");
    reveal_strlit(",\"reportMap\":\"");
    reveal_strlit("\"}");
    reveal_strlit("}");
    assert("\",\"addr\":\""@ =~= seq!['"'] + ",\"addr\":\""@);
    assert("\",\"ts\":"@ =~= seq!['"'] + ",\"ts\":"@);
    assert(",\"report\":\""@ =~= seq![','] + "\"report\":\""@);
    assert("\",\"reportMap\":\""@ =~= seq!['"'] + ",\"reportMap\":\""@);
    assert("\"}"@ =~= seq!['"'] + "}"@);
}

/// A value and the piece behind it, taken to what follows.
proof fn lemma_regroup(
    before: Seq<char>,
    value: Seq<char>,
    mark: Seq<char>,
    key: Seq<char>,
    after: Seq<char>,
)
    ensures
        before + value + (mark + key) + after == before + (value + mark + (key + after)),
{
    assert(before + value + (mark + key) + after =~= before + (value + mark + (key + after)));
}

proof fn lemma_snapshot_parts(g: GamepadView)
    ensures
        snapshot_json(g) == "{\"connected\":"@ + (bool_text(g.connected) + (",\"name\":\""@
            + after_name_mark(g))),
{
    lemma_snapshot_pieces();
    let start = "{\"connected\":"@ + bool_text(g.connected) + ",\"name\":\""@;
    let to_addr = start + escaped(g.name) + "\",\"addr\":\""@;
    let to_time = to_addr + escaped(g.addr) + "\",\"ts\":"@;
    let to_report = to_time + decimal(g.timestamp_ms as nat) + ",\"report\":\""@;
    let to_map = to_report + hex_text(g.report) + "\",\"reportMap\":\""@;
    let quote = seq!['"'];
    lemma_regroup(to_map, hex_text(g.report_map), quote, "}"@, Seq::empty());
    assert("}"@ + Seq::<char>::empty() =~= "}"@);
    assert(snapshot_json(g) + Seq::<char>::empty() =~= snapshot_json(g));
    assert(snapshot_json(g) == to_map + after_map_mark(g));
    lemma_regroup(
        to_report,
        hex_text(g.report),
        quote,
        ",\"reportMap\":\""@,
        after_map_mark(g),
    );
    lemma_regroup(
        to_time,
        decimal(g.timestamp_ms as nat),
        seq![','],
        "\"report\":\""@,
        after_report_mark(g),
    );
    lemma_regroup(to_addr, escaped(g.addr), quote, ",\"ts\":"@, after_time_key(g));
    lemma_regroup(start, escaped(g.name), quote, ",\"addr\":\""@, after_addr_mark(g));
    assert(snapshot_json(g) == start + after_name_mark(g));
    assert(start + after_name_mark(g) =~= "{\"connected\":"@ + (bool_text(g.connected)
        + (",\"name\":\""@ + after_name_mark(g))));
}

/// A snapshot tells all: what the dashboard receives determines every part of the state.
pub proof fn law_snapshot_determines_the_state(a: GamepadView, b: GamepadView)
    requires
        snapshot_json(a) == snapshot_json(b),
    ensures
        a == b,
{
    lemma_snapshot_parts(a);
    lemma_snapshot_parts(b);
    reveal_strlit("true");
    reveal_strlit("false");
    let rest_a = bool_text(a.connected) + (",\"name\":\""@ + after_name_mark(a));
    let rest_b = bool_text(b.connected) + (",\"name\":\""@ + after_name_mark(b));
    lemma_same_beginning("{\"connected\":"@, rest_a, rest_b);
    assert(rest_a[0] == bool_text(a.connected)[0] && rest_b[0] == bool_text(b.connected)[0]);
    assert(a.connected == b.connected);
    lemma_same_beginning(
        bool_text(a.connected),
        ",\"name\":\""@ + after_name_mark(a),
        ",\"name\":\""@ + after_name_mark(b),
    );
    lemma_same_beginning(",\"name\":\""@, after_name_mark(a), after_name_mark(b));
    law_strings_can_be_told_apart(
        a.name,
        b.name,
        ",\"addr\":\""@ + after_addr_mark(a),
        ",\"addr\":\""@ + after_addr_mark(b),
    );
    lemma_same_beginning(",\"addr\":\""@, after_addr_mark(a), after_addr_mark(b));
    law_strings_can_be_told_apart(
        a.addr,
        b.addr,
        ",\"ts\":"@ + after_time_key(a),
        ",\"ts\":"@ + after_time_key(b),
    );
    lemma_same_beginning(",\"ts\":"@, after_time_key(a), after_time_key(b));
    let (ta, tb) = (a.timestamp_ms as nat, b.timestamp_ms as nat);
    lemma_decimal_is_digits(ta, ',');
    lemma_decimal_is_digits(tb, ',');
    lemma_cut_at_stop(
        decimal(ta),
        decimal(tb),
        ',',
        "\"report\":\""@ + after_report_mark(a),
        "\"report\":\""@ + after_report_mark(b),
    );
    law_parse_inverts_decimal(ta, u64::MAX as nat);
    law_parse_inverts_decimal(tb, u64::MAX as nat);
    lemma_same_beginning("\"report\":\""@, after_report_mark(a), after_report_mark(b));
    law_byte_strings_can_be_told_apart(
        a.report,
        b.report,
        ",\"reportMap\":\""@ + after_map_mark(a),
        ",\"reportMap\":\""@ + after_map_mark(b),
    );
    lemma_same_beginning(",\"reportMap\":\""@, after_map_mark(a), after_map_mark(b));
    law_byte_strings_can_be_told_apart(a.report_map, b.report_map, "}"@, "}"@);
}

/// The dashboard shows the live input: every report that is not empty takes the place of what was
/// there before, with its time, and leaves all else as it was; an empty one changes nothing.
pub proof fn law_report_replaces_the_last(h: HandleView, data: Seq<u8>, now: u64)
    ensures
        data.len() > 0 ==> h.with_report(data, now).state.report == data,
        data.len() > 0 ==> h.with_report(data, now).state.timestamp_ms == now,
        data.len() == 0 ==> h.with_report(data, now) == h,
        ({
            let after = h.with_report(data, now);
            &&& after.state.connected == h.state.connected
            &&& after.state.name == h.state.name
            &&& after.state.addr == h.state.addr
            &&& after.state.report_map == h.state.report_map
            &&& after.vibrate_request == h.vibrate_request
            &&& after.writable_chars == h.writable_chars
        }),
{
}

/// The state after reports, each with its time, in order.
pub open spec fn after_reports(h: HandleView, reports: Seq<(Seq<u8>, u64)>) -> HandleView
    decreases reports.len(),
{
    if reports.len() == 0 {
        h
    } else {
        after_reports(h, reports.drop_last()).with_report(reports.last().0, reports.last().1)
    }
}

/// Of several reports the last that is not empty shows, with its time.
pub proof fn law_last_report_shows(h: HandleView, reports: Seq<(Seq<u8>, u64)>, k: int)
    requires
        0 <= k < reports.len(),
        reports[k].0.len() > 0,
        forall|i: int| k < i < reports.len() ==> (#[trigger] reports[i]).0.len() == 0,
    ensures
        after_reports(h, reports).state.report == reports[k].0,
        after_reports(h, reports).state.timestamp_ms == reports[k].1,
    decreases reports.len(),
{
    let before = reports.drop_last();
    if k < reports.len() - 1 {
        assert(reports[reports.len() - 1].0.len() == 0);
        assert forall|i: int| k < i < before.len() implies (#[trigger] before[i]).0.len() == 0 by {
            assert(before[i] == reports[i]);
        }
        law_last_report_shows(h, before, k);
        law_report_replaces_the_last(
            after_reports(h, before),
            reports.last().0,
            reports.last().1,
        );
    } else {
        law_report_replaces_the_last(
            after_reports(h, before),
            reports.last().0,
            reports.last().1,
        );
    }
}

/// A device is a gamepad by any of four words, wherever in its name the word stands.
pub proof fn law_any_word_makes_a_gamepad(before: Seq<u8>, after: Seq<u8>, word: Seq<char>)
    requires
        word == "8BitDo"@ || word == "Ultimate"@ || word == "Controller"@ || word == "Gamepad"@,
    ensures
        is_gamepad_name(before + encode_utf8(word) + after),
{
    let name = before + encode_utf8(word) + after;
    let i = before.len() as int;
    assert(name.subrange(i, i + encode_utf8(word).len()) =~= encode_utf8(word));
    assert(occurs_at(name, encode_utf8(word), i));
}

/// A device whose name holds none of the four words is no gamepad.
pub proof fn law_other_names_are_passed_over(name: Seq<u8>)
    requires
        forall|i: int| !occurs_at(name, encode_utf8("8BitDo"@), i),
        forall|i: int| !occurs_at(name, encode_utf8("Ultimate"@), i),
        forall|i: int| !occurs_at(name, encode_utf8("Controller"@), i),
        forall|i: int| !occurs_at(name, encode_utf8("Gamepad"@), i),
    ensures
        !is_gamepad_name(name),
{
}

/// A timer that counts up from zero is taken as it is.
pub proof fn law_timer_is_unsigned(timer_us: i64)
    ensures
        timer_us >= 0 ==> timer_count(timer_us) == timer_us,
        timer_us < 0 ==> timer_count(timer_us) - timer_us == 0x1_0000_0000_0000_0000,
{
}

/// A session that has ended keeps what was known of the gamepad but the connection.
pub proof fn law_ended_session_keeps_the_last_input(h: HandleView)
    ensures
        !h.ended().state.connected,
        !h.ended().vibrate_request,
        h.ended().writable_chars == 0,
        h.ended().state.name == h.state.name,
        h.ended().state.addr == h.state.addr,
        h.ended().state.report == h.state.report,
        h.ended().state.report_map == h.state.report_map,
        h.ended().state.timestamp_ms == h.state.timestamp_ms,
{
}

} // verus!
