//! The joystick: two axes and a switch that stays lit for a moment.

use crate::json::{bool_literal, bool_text};
use crate::number::{decimal, law_parse_inverts_decimal, to_decimal};
use crate::query::lemma_decimal_is_digits;
use crate::text::{lemma_cut_at_stop, lemma_same_beginning};
use vstd::prelude::*;

verus! {

/// How long the switch stays lit after a press, in milliseconds.
pub const SW_HIGHLIGHT_MS: u32 = 200;

/// How often the switch is sampled, in milliseconds.
pub const SW_POLL_INTERVAL_MS: u64 = 50;

/// The low 32 bits of the milliseconds of a microsecond timer.
pub open spec fn clock_ms(timer_us: u64) -> u32 {
    ((timer_us / 1000) % 0x1_0000_0000) as u32
}

/// The low 32 bits of the milliseconds of a microsecond timer.
pub fn clock(timer_us: u64) -> (r: u32)
    ensures
        r == clock_ms(timer_us),
{
    ((timer_us / 1000) % 0x1_0000_0000) as u32
}

/// The switch: the last level that was seen and the time of the last press, 0 where there was
/// none.
#[derive(Clone, Copy, PartialEq, Eq, Structural, Debug)]
pub struct Switch {
    pub was_high: bool,
    pub last_press_ms: u32,
}

/// Whether the switch is lit.
pub open spec fn is_lit(last_press_ms: u32, now_ms: u32) -> bool {
    last_press_ms > 0 && (now_ms <= last_press_ms || now_ms - last_press_ms < SW_HIGHLIGHT_MS)
}

/// The JSON object with the axes and the switch.
pub open spec fn joystick_text(x: u16, y: u16, lit: bool) -> Seq<char> {
    "{\"x\":"@ + decimal(x as nat) + ",\"y\":"@ + decimal(y as nat) + ",\"sw\":"@ + bool_text(lit)
        + "}"@
}

impl Switch {
    /// After the level of the active-low pin was seen: a falling edge is a press.
    pub open spec fn sampled(self, high: bool, timer_us: u64) -> Switch {
        Switch {
            was_high: high,
            last_press_ms: if self.was_high && !high {
                clock_ms(timer_us)
            } else {
                self.last_press_ms
            },
        }
    }

    /// A switch that was never pressed.
    pub fn new() -> (r: Switch)
        ensures
            r == (Switch { was_high: true, last_press_ms: 0 }),
    {
        Switch { was_high: true, last_press_ms: 0 }
    }

    /// Takes in the level of the active-low pin: a falling edge is a press.
    pub fn sample(&mut self, high: bool, timer_us: u64)
        ensures
            *final(self) == old(self).sampled(high, timer_us),
            *final(self) == (Switch {
                was_high: high,
                last_press_ms: if old(self).was_high && !high {
                    clock_ms(timer_us)
                } else {
                    old(self).last_press_ms
                },
            }),
            old(self).was_high && !high ==> final(self).last_press_ms == (timer_us / 1000)
                % 0x1_0000_0000,
    {
        if self.was_high && !high {
            self.last_press_ms = clock(timer_us);
        }
        self.was_high = high;
    }

    /// Whether the switch is lit.
    pub fn lit(&self, now_ms: u32) -> (r: bool)
        ensures
            r == is_lit(self.last_press_ms, now_ms),
    {
        let elapsed: u32 = if now_ms > self.last_press_ms {
            now_ms - self.last_press_ms
        } else {
            0
        };
        self.last_press_ms > 0 && elapsed < SW_HIGHLIGHT_MS
    }

    /// Answers `GET /api/joystick`.
    pub fn json(&self, x: u16, y: u16, timer_us: u64) -> (r: String)
        ensures
            r@ == joystick_text(x, y, is_lit(self.last_press_ms, clock_ms(timer_us))),
            r@ == "{\"x\":"@ + decimal(x as nat) + ",\"y\":"@ + decimal(y as nat) + ",\"sw\":"@
                + bool_text(is_lit(self.last_press_ms, clock_ms(timer_us))) + "}"@,
    {
        let x_text = to_decimal(x as u64);
        let y_text = to_decimal(y as u64);
        let lit = self.lit(clock(timer_us));
        let mut s = "{\"x\":".to_owned();
        s.append(x_text.as_str());
        s.append(",\"y\":");
        s.append(y_text.as_str());
        s.append(",\"sw\":");
        s.append(bool_literal(lit));
        s.append("}");
        s
    }
}

/// The switch is lit for 200 ms after a press and dark afterwards, as long as the 32-bit clock of
/// milliseconds does not wrap around in between and did not stand at zero at the press.
pub proof fn law_switch_is_lit_for_200_ms(press_us: u64, now_us: u64)
    requires
        press_us <= now_us,
        1000 <= press_us,
        now_us / 1000 < 0x1_0000_0000,
    ensures
        is_lit(clock_ms(press_us), clock_ms(now_us)) <==> now_us / 1000 - press_us / 1000 < 200,
{
}

/// A switch that was never pressed is dark.
pub proof fn law_unpressed_switch_is_dark(now_ms: u32)
    ensures
        !is_lit(0, now_ms),
{
}

/// A press lights the switch at once and for 200 ms, whether it is then held or let go; what is
/// seen meanwhile makes no difference, as long as it is no further press.
pub proof fn law_press_lights_the_switch(
    s: Switch,
    press_us: u64,
    held: bool,
    later_us: u64,
    now_us: u64,
)
    requires
        s.was_high,
        1000 <= press_us <= later_us <= now_us,
        now_us / 1000 < 0x1_0000_0000,
    ensures
        ({
            let pressed = s.sampled(false, press_us);
            let later = pressed.sampled(!held, later_us);
            &&& is_lit(later.last_press_ms, clock_ms(now_us)) <==> now_us / 1000 - press_us / 1000
                < 200
            &&& is_lit(pressed.last_press_ms, clock_ms(press_us))
        }),
{
}

/// Only a press changes when the switch was last pressed: a switch that is held, let go or left
/// alone keeps it.
pub proof fn law_only_a_press_counts(s: Switch, high: bool, timer_us: u64)
    requires
        high || !s.was_high,
    ensures
        s.sampled(high, timer_us).last_press_ms == s.last_press_ms,
        s.sampled(high, timer_us).was_high == high,
{
}

/// What follows the first number of an answer.
spec fn after_x(y: u16, lit: bool) -> Seq<char> {
    "\"y\":"@ + (decimal(y as nat) + seq![','] + after_y(lit))
}

/// What follows the second number of an answer.
spec fn after_y(lit: bool) -> Seq<char> {
    "\"sw\":"@ + (bool_text(lit) + "}"@)
}

proof fn lemma_joystick_parts(x: u16, y: u16, lit: bool)
    ensures
        joystick_text(x, y, lit) == "{\"x\":"@ + (decimal(x as nat) + seq![','] + after_x(y, lit)),
{
    reveal_strlit(",\"y\":");
    reveal_strlit("\"y\":");
    reveal_strlit(",\"sw\":");
    reveal_strlit("\"sw\":");
    assert(",\"y\":"@ =~= seq![','] + "\"y\":"@);
    assert(",\"sw\":"@ =~= seq![','] + "\"sw\":"@);
    let (a, b, c) = (decimal(x as nat), decimal(y as nat), bool_text(lit));
    let (k, l) = ("\"y\":"@, "\"sw\":"@);
    let comma = seq![','];
    let start = "{\"x\":"@;
    lemma_regroup(start, a, comma, k, b, l, c, "}"@);
}

proof fn lemma_regroup(
    start: Seq<char>,
    a: Seq<char>,
    comma: Seq<char>,
    k: Seq<char>,
    b: Seq<char>,
    l: Seq<char>,
    c: Seq<char>,
    end: Seq<char>,
)
    ensures
        start + a + (comma + k) + b + (comma + l) + c + end == start + (a + comma + (k + (b + comma
            + (l + (c + end))))),
{
    assert(start + a + (comma + k) + b + (comma + l) + c + end =~= start + (a + comma + (k + (b
        + comma + (l + (c + end))))));
}

/// The answer tells all: both axes and the switch can be read off it.
pub proof fn law_joystick_answer_tells_all(
    x1: u16,
    y1: u16,
    lit1: bool,
    x2: u16,
    y2: u16,
    lit2: bool,
)
    requires
        joystick_text(x1, y1, lit1) == joystick_text(x2, y2, lit2),
    ensures
        x1 == x2,
        y1 == y2,
        lit1 == lit2,
{
    lemma_joystick_parts(x1, y1, lit1);
    lemma_joystick_parts(x2, y2, lit2);
    let (a1, b1) = (decimal(x1 as nat), decimal(y1 as nat));
    let (a2, b2) = (decimal(x2 as nat), decimal(y2 as nat));
    let comma = seq![','];
    lemma_same_beginning(
        "{\"x\":"@,
        a1 + comma + after_x(y1, lit1),
        a2 + comma + after_x(y2, lit2),
    );
    lemma_decimal_is_digits(x1 as nat, ',');
    lemma_decimal_is_digits(x2 as nat, ',');
    lemma_decimal_is_digits(y1 as nat, ',');
    lemma_decimal_is_digits(y2 as nat, ',');
    lemma_cut_at_stop(a1, a2, ',', after_x(y1, lit1), after_x(y2, lit2));
    lemma_same_beginning("\"y\":"@, b1 + comma + after_y(lit1), b2 + comma + after_y(lit2));
    lemma_cut_at_stop(b1, b2, ',', after_y(lit1), after_y(lit2));
    lemma_same_beginning("\"sw\":"@, bool_text(lit1) + "}"@, bool_text(lit2) + "}"@);
    reveal_strlit("true");
    reveal_strlit("false");
    assert((bool_text(lit1) + "}"@)[0] == bool_text(lit1)[0]);
    assert((bool_text(lit2) + "}"@)[0] == bool_text(lit2)[0]);
    law_parse_inverts_decimal(x1 as nat, 65535);
    law_parse_inverts_decimal(x2 as nat, 65535);
    law_parse_inverts_decimal(y1 as nat, 65535);
    law_parse_inverts_decimal(y2 as nat, 65535);
}

/// The clock shows whole milliseconds, and shows the same again after 2^32 of them.
pub proof fn law_clock_counts_milliseconds(timer_us: u64)
    ensures
        timer_us < 4_294_967_296_000 ==> clock_ms(timer_us) * 1000 <= timer_us < (clock_ms(timer_us)
            + 1) * 1000,
        timer_us + 4_294_967_296_000 <= u64::MAX ==> clock_ms(
            (timer_us + 4_294_967_296_000) as u64,
        ) == clock_ms(timer_us),
{
}

/// A switch that was pressed is lit until 200 ms have passed since, and while the clock shows no
/// later time than that of the press.
pub proof fn law_lit_switch_goes_dark(press_ms: u32, now_ms: u32)
    requires
        press_ms > 0,
    ensures
        is_lit(press_ms, now_ms) <==> now_ms - press_ms < 200,
{
}

} // verus!
