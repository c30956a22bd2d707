//! The HC-SR04 distance sensor: timing an echo.

use crate::number::{decimal, to_decimal};
use vstd::prelude::*;

verus! {

/// The width of the trigger pulse, in microseconds.
pub const TRIG_PULSE_US: u64 = 10;

/// How long to wait for the echo line, in microseconds.
pub const ECHO_TIMEOUT_US: u64 = 30_000;

/// What a measurement does next.
#[derive(Clone, Copy, PartialEq, Eq, Structural, Debug)]
pub enum EchoPhase {
    /// Wait for the echo line to be low, since `start_us`.
    Clear { start_us: u64 },
    /// Send the trigger pulse.
    Trigger,
    /// Wait for the echo line to rise, since `start_us`.
    Rise { start_us: u64 },
    /// Wait for the echo line to fall; it has been high since `start_us`.
    Fall { start_us: u64 },
}

/// Why a measurement failed.
#[derive(Clone, Copy, PartialEq, Eq, Structural, Debug)]
pub enum EchoError {
    StuckHigh,
    TriggerFailed,
    NoEcho,
    EchoTimeout,
    OutOfRange,
}

/// What comes of a step.
#[derive(Clone, Copy, PartialEq, Eq, Structural, Debug)]
pub enum EchoStep {
    Continue(EchoPhase),
    Done { echo_us: u64 },
    Failed(EchoError),
}

/// The time from `start` to `now`; nothing where the clock went back.
pub open spec fn elapsed(start: u64, now: u64) -> u64 {
    if now >= start {
        (now - start) as u64
    } else {
        0
    }
}

/// Whether the distance of an echo is from 2 cm to 400 cm. Sound travels 343 cm in 10000
/// microseconds, there and back.
pub open spec fn in_range(echo_us: int) -> bool {
    2 * 20000 <= echo_us * 343 <= 400 * 20000
}

/// What comes of looking at the echo line, which is at the given level at `now_us`.
pub open spec fn level_step(phase: EchoPhase, high: bool, now_us: u64) -> EchoStep {
    match phase {
        EchoPhase::Clear { start_us } => if !high {
            EchoStep::Continue(EchoPhase::Trigger)
        } else if elapsed(start_us, now_us) > ECHO_TIMEOUT_US {
            EchoStep::Failed(EchoError::StuckHigh)
        } else {
            EchoStep::Continue(phase)
        },
        EchoPhase::Rise { start_us } => if high {
            EchoStep::Continue(EchoPhase::Fall { start_us: now_us })
        } else if elapsed(start_us, now_us) > ECHO_TIMEOUT_US {
            EchoStep::Failed(EchoError::NoEcho)
        } else {
            EchoStep::Continue(phase)
        },
        EchoPhase::Fall { start_us } => if !high {
            if in_range(elapsed(start_us, now_us) as int) {
                EchoStep::Done { echo_us: elapsed(start_us, now_us) }
            } else {
                EchoStep::Failed(EchoError::OutOfRange)
            }
        } else if elapsed(start_us, now_us) > ECHO_TIMEOUT_US {
            EchoStep::Failed(EchoError::EchoTimeout)
        } else {
            EchoStep::Continue(phase)
        },
        EchoPhase::Trigger => EchoStep::Continue(phase),
    }
}

fn since(start: u64, now: u64) -> (r: u64)
    ensures
        r == elapsed(start, now),
{
    if now >= start {
        now - start
    } else {
        0
    }
}

/// Decides whether the distance of an echo is within the sensor's range.
pub fn is_in_range(echo_us: u64) -> (r: bool)
    ensures
        r == in_range(echo_us as int),
        r == (117 <= echo_us <= 23_323),
{
    117 <= echo_us && echo_us <= 23_323
}

/// How a measurement starts, at `now_us`.
pub fn start_measurement(now_us: u64) -> (r: EchoPhase)
    ensures
        r == (EchoPhase::Clear { start_us: now_us }),
{
    EchoPhase::Clear { start_us: now_us }
}

/// Goes on after the echo line was looked at. The time is read after the level.
pub fn on_level(phase: EchoPhase, high: bool, now_us: u64) -> (r: EchoStep)
    requires
        !(phase is Trigger),
    ensures
        r == level_step(phase, high, now_us),
        phase is Clear && !high ==> r == EchoStep::Continue(EchoPhase::Trigger),
        phase is Rise && high ==> r == EchoStep::Continue(EchoPhase::Fall { start_us: now_us }),
{
    match phase {
        EchoPhase::Clear { start_us } => if !high {
            EchoStep::Continue(EchoPhase::Trigger)
        } else if since(start_us, now_us) > ECHO_TIMEOUT_US {
            EchoStep::Failed(EchoError::StuckHigh)
        } else {
            EchoStep::Continue(phase)
        },
        EchoPhase::Rise { start_us } => if high {
            EchoStep::Continue(EchoPhase::Fall { start_us: now_us })
        } else if since(start_us, now_us) > ECHO_TIMEOUT_US {
            EchoStep::Failed(EchoError::NoEcho)
        } else {
            EchoStep::Continue(phase)
        },
        EchoPhase::Fall { start_us } => if !high {
            let echo_us: u64 = since(start_us, now_us);
            if is_in_range(echo_us) {
                EchoStep::Done { echo_us }
            } else {
                EchoStep::Failed(EchoError::OutOfRange)
            }
        } else if since(start_us, now_us) > ECHO_TIMEOUT_US {
            EchoStep::Failed(EchoError::EchoTimeout)
        } else {
            EchoStep::Continue(phase)
        },
        EchoPhase::Trigger => EchoStep::Continue(phase),
    }
}

/// What comes of the trigger pulse.
pub open spec fn trigger_step(sent: bool, now_us: u64) -> EchoStep {
    if sent {
        EchoStep::Continue(EchoPhase::Rise { start_us: now_us })
    } else {
        EchoStep::Failed(EchoError::TriggerFailed)
    }
}

/// Goes on after the trigger pulse was sent, or could not be, at `now_us`.
pub fn on_trigger(sent: bool, now_us: u64) -> (r: EchoStep)
    ensures
        r == trigger_step(sent, now_us),
        r == (if sent {
            EchoStep::Continue(EchoPhase::Rise { start_us: now_us })
        } else {
            EchoStep::Failed(EchoError::TriggerFailed)
        }),
{
    if sent {
        EchoStep::Continue(EchoPhase::Rise { start_us: now_us })
    } else {
        EchoStep::Failed(EchoError::TriggerFailed)
    }
}

/// What an error is called.
pub open spec fn error_name(e: EchoError) -> Seq<char> {
    match e {
        EchoError::StuckHigh => "echo stuck high"@,
        EchoError::TriggerFailed => "trig error"@,
        EchoError::NoEcho => "no echo"@,
        EchoError::EchoTimeout => "echo timeout"@,
        EchoError::OutOfRange => "out of range"@,
    }
}

/// What an error is called.
pub fn error_text(e: EchoError) -> (r: &'static str)
    ensures
        r@ == error_name(e),
{
    match e {
        EchoError::StuckHigh => "echo stuck high",
        EchoError::TriggerFailed => "trig error",
        EchoError::NoEcho => "no echo",
        EchoError::EchoTimeout => "echo timeout",
        EchoError::OutOfRange => "out of range",
    }
}

/// What goes out after a measurement that failed.
pub fn error_json(e: EchoError) -> (r: String)
    ensures
        r@ == "{\"error\":\""@ + error_name(e) + "\"}"@,
{
    let mut s = "{\"error\":\"".to_owned();
    s.append(error_text(e));
    s.append("\"}");
    s
}

/// What goes out after a measurement. The distance comes as text, in centimetres.
pub fn distance_json(distance_cm: &str, echo_us: u64) -> (r: String)
    ensures
        r@ == "{\"distance_cm\":"@ + distance_cm@ + ",\"echo_us\":"@ + decimal(echo_us as nat)
            + "}"@,
{
    let echo = to_decimal(echo_us);
    let mut s = "{\"distance_cm\":".to_owned();
    s.append(distance_cm);
    s.append(",\"echo_us\":");
    s.append(echo.as_str());
    s.append("}");
    s
}

/// No wait is unbounded: a measurement that goes on in the same phase has waited for at most 30 ms.
pub proof fn law_waits_are_bounded(phase: EchoPhase, high: bool, now_us: u64)
    requires
        !(phase is Trigger),
        level_step(phase, high, now_us) == EchoStep::Continue(phase),
    ensures
        match phase {
            EchoPhase::Clear { start_us } => elapsed(start_us, now_us) <= 30_000,
            EchoPhase::Rise { start_us } => elapsed(start_us, now_us) <= 30_000,
            EchoPhase::Fall { start_us } => elapsed(start_us, now_us) <= 30_000,
            EchoPhase::Trigger => false,
        },
{
}

/// What is measured is how long the line was high: from the moment at which it was seen to rise to
/// the moment at which it was seen to fall.
pub proof fn law_echo_is_the_pulse_width(wait_us: u64, rise_us: u64, fall_us: u64)
    requires
        rise_us <= fall_us,
    ensures
        ({
            let risen = level_step(EchoPhase::Rise { start_us: wait_us }, true, rise_us);
            &&& risen == EchoStep::Continue(EchoPhase::Fall { start_us: rise_us })
            &&& in_range(fall_us - rise_us) ==> level_step(
                risen->Continue_0,
                false,
                fall_us,
            ) == (EchoStep::Done { echo_us: (fall_us - rise_us) as u64 })
            &&& !in_range(fall_us - rise_us) ==> level_step(risen->Continue_0, false, fall_us)
                == EchoStep::Failed(EchoError::OutOfRange)
        }),
{
}

/// A line that is low is clear, at whatever time: the trigger pulse is sent. A line that is high is
/// waited for, for 30 ms, and is stuck after that.
pub proof fn law_low_line_is_clear(start_us: u64, high: bool, now_us: u64)
    ensures
        ({
            let phase = EchoPhase::Clear { start_us };
            let step = level_step(phase, high, now_us);
            &&& !high <==> step == EchoStep::Continue(EchoPhase::Trigger)
            &&& high && now_us - start_us > 30_000 <==> step == EchoStep::Failed(
                EchoError::StuckHigh,
            )
            &&& high && now_us - start_us <= 30_000 <==> step == EchoStep::Continue(phase)
        }),
{
}

/// A line that stays low after the trigger pulse is waited for, for 30 ms, and gives no echo after
/// that.
pub proof fn law_missing_echo_is_told(start_us: u64, high: bool, now_us: u64)
    ensures
        ({
            let phase = EchoPhase::Rise { start_us };
            let step = level_step(phase, high, now_us);
            &&& high <==> step == EchoStep::Continue(EchoPhase::Fall { start_us: now_us })
            &&& !high && now_us - start_us > 30_000 <==> step == EchoStep::Failed(EchoError::NoEcho)
            &&& !high && now_us - start_us <= 30_000 <==> step == EchoStep::Continue(phase)
        }),
{
}

/// A line that stays high is waited for, for 30 ms; one that falls ends the measurement, with the
/// width of the pulse where that is from 117 to 23323 microseconds.
pub proof fn law_pulse_ends_the_measurement(start_us: u64, high: bool, now_us: u64)
    requires
        start_us <= now_us,
    ensures
        ({
            let phase = EchoPhase::Fall { start_us };
            let step = level_step(phase, high, now_us);
            let width = now_us - start_us;
            &&& high && width > 30_000 <==> step == EchoStep::Failed(EchoError::EchoTimeout)
            &&& high && width <= 30_000 <==> step == EchoStep::Continue(phase)
            &&& !high && !(117 <= width <= 23_323) <==> step == EchoStep::Failed(
                EchoError::OutOfRange,
            )
            &&& !high && 117 <= width <= 23_323 <==> step == (EchoStep::Done {
                echo_us: width as u64,
            })
        }),
{
}

/// A measurement succeeds where the sensor works: the line is low at first, the pulse is sent, the
/// line rises and falls within its times, and the width of the pulse is what comes out.
pub proof fn law_measurement_succeeds(
    start_us: u64,
    first_us: u64,
    sent_us: u64,
    rise_us: u64,
    fall_us: u64,
)
    requires
        rise_us <= fall_us,
        117 <= fall_us - rise_us <= 23_323,
    ensures
        ({
            let clear = level_step(EchoPhase::Clear { start_us }, false, first_us);
            let sent = trigger_step(true, sent_us);
            let risen = level_step(sent->Continue_0, true, rise_us);
            &&& clear == EchoStep::Continue(EchoPhase::Trigger)
            &&& sent is Continue
            &&& risen is Continue
            &&& level_step(risen->Continue_0, false, fall_us) == (EchoStep::Done {
                echo_us: (fall_us - rise_us) as u64,
            })
        }),
{
}

/// A pulse that cannot be sent fails the measurement, and the wait for the echo starts when the
/// pulse was sent.
pub proof fn law_trigger_starts_the_wait(sent: bool, now_us: u64)
    ensures
        !sent <==> trigger_step(sent, now_us) == EchoStep::Failed(EchoError::TriggerFailed),
        sent <==> trigger_step(sent, now_us) == EchoStep::Continue(
            EchoPhase::Rise { start_us: now_us },
        ),
{
}

/// The range in time is the range in distance: an echo is in range exactly where its distance, at
/// 343 metres per second there and back, is from 2 to 400 centimetres.
pub proof fn law_range_is_that_of_the_sensor(echo_us: int)
    ensures
        in_range(echo_us) <==> 117 <= echo_us <= 23_323,
        in_range(echo_us) <==> 20_000 * 2 <= 343 * echo_us && 343 * echo_us <= 20_000 * 400,
{
}

/// The time that has passed leads from the start to now; none has where the clock went back.
pub proof fn law_elapsed_time_leads_to_now(start: u64, now: u64)
    ensures
        start <= now ==> start + elapsed(start, now) == now,
        now <= start ==> elapsed(start, now) == 0,
{
}

/// Different errors have different names.
pub proof fn law_errors_can_be_told_apart(a: EchoError, b: EchoError)
    ensures
        error_name(a) == error_name(b) <==> a == b,
{
    reveal_strlit("echo stuck high");
    reveal_strlit("trig error");
    reveal_strlit("no echo");
    reveal_strlit("echo timeout");
    reveal_strlit("out of range");
    let n = error_name(a);
    let m = error_name(b);
    assert(n == m ==> n.len() == m.len() && n[0] == m[0]);
}

} // verus!
