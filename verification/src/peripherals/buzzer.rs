//! The buzzer: how long and how high it sounds.

use crate::number::{decimal, to_decimal};
use crate::query::{
    find_number, law_absent_parameter_gives_default, law_later_parameter_is_found,
    law_number_is_read_back, law_query_follows_the_mark, law_too_large_number_gives_default,
    lemma_decimal_is_digits, lemma_joined_has_none, number_parameter, query_chars, query_of,
};
use vstd::prelude::*;

verus! {

/// The duty that makes the loudest square wave: half of the 8-bit scale.
pub const DUTY_ON: u32 = 128;

/// The duty at which the buzzer is silent.
pub const DUTY_OFF: u32 = 0;

/// How long the buzzer sounds where the request does not say.
pub const DEFAULT_DURATION_MS: u64 = 200;

/// How long the buzzer sounds at most.
pub const MAX_DURATION_MS: u64 = 5000;

/// The pitch where the request does not say.
pub const DEFAULT_FREQUENCY_HZ: u32 = 2000;

/// The lowest pitch.
pub const MIN_FREQUENCY_HZ: u32 = 100;

/// The highest pitch.
pub const MAX_FREQUENCY_HZ: u32 = 8000;

/// `v` brought into the range from `low` to `high`.
pub open spec fn clamped(v: int, low: int, high: int) -> int {
    if v < low {
        low
    } else if v > high {
        high
    } else {
        v
    }
}

/// What a request asks for.
#[derive(Clone, Copy, PartialEq, Eq, Structural, Debug)]
pub struct Beep {
    pub duration_ms: u64,
    pub frequency_hz: u32,
}

/// How long a request asks the buzzer to sound.
pub open spec fn requested_duration(uri: Seq<char>) -> int {
    clamped(
        number_parameter(
            query_of(uri),
            "duration_ms="@,
            u64::MAX as nat,
            DEFAULT_DURATION_MS as nat,
        ) as int,
        1,
        MAX_DURATION_MS as int,
    )
}

/// How high a request asks the buzzer to sound.
pub open spec fn requested_frequency(uri: Seq<char>) -> int {
    clamped(
        number_parameter(
            query_of(uri),
            "frequency_hz="@,
            u32::MAX as nat,
            DEFAULT_FREQUENCY_HZ as nat,
        ) as int,
        MIN_FREQUENCY_HZ as int,
        MAX_FREQUENCY_HZ as int,
    )
}

fn clamp(v: u64, low: u64, high: u64) -> (r: u64)
    ensures
        r == clamped(v as int, low as int, high as int),
{
    if v < low {
        low
    } else if v > high {
        high
    } else {
        v
    }
}

/// Reads `GET /api/beep?duration_ms=<1-5000>&frequency_hz=<100-8000>`.
pub fn beep_request(uri: &str) -> (r: Beep)
    ensures
        r.duration_ms == requested_duration(uri@),
        r.frequency_hz == requested_frequency(uri@),
{
    let query = query_chars(uri);
    let duration: u64 = find_number(&query, "duration_ms=", u64::MAX, DEFAULT_DURATION_MS);
    let frequency: u64 = find_number(
        &query,
        "frequency_hz=",
        u32::MAX as u64,
        DEFAULT_FREQUENCY_HZ as u64,
    );
    Beep {
        duration_ms: clamp(duration, 1, MAX_DURATION_MS),
        frequency_hz: clamp(frequency, MIN_FREQUENCY_HZ as u64, MAX_FREQUENCY_HZ as u64) as u32,
    }
}

/// What is done to the buzzer.
#[derive(Clone, Copy, PartialEq, Eq, Structural, Debug)]
pub enum BuzzerStep {
    SetFrequency(u32),
    SetDuty(u32),
    Sleep(u64),
}

impl Beep {
    /// What is done for a beep: the pitch is set, the buzzer sounds, and it is silent again.
    pub open spec fn plan(self) -> Seq<BuzzerStep> {
        seq![
            BuzzerStep::SetFrequency(self.frequency_hz),
            BuzzerStep::SetDuty(DUTY_ON),
            BuzzerStep::Sleep(self.duration_ms),
            BuzzerStep::SetDuty(DUTY_OFF),
        ]
    }

    /// What is done for a beep.
    pub fn steps(&self) -> (r: [BuzzerStep; 4])
        ensures
            r@ == self.plan(),
    {
        let r = [
            BuzzerStep::SetFrequency(self.frequency_hz),
            BuzzerStep::SetDuty(DUTY_ON),
            BuzzerStep::Sleep(self.duration_ms),
            BuzzerStep::SetDuty(DUTY_OFF),
        ];
        assert(r@ =~= self.plan());
        r
    }

    /// What goes out after the beep.
    pub fn json(&self) -> (r: String)
        ensures
            r@ == "{\"beeped\":true,\"duration_ms\":"@ + decimal(self.duration_ms as nat) + "}"@,
    {
        let duration = to_decimal(self.duration_ms);
        let mut s = "{\"beeped\":true,\"duration_ms\":".to_owned();
        s.append(duration.as_str());
        s.append("}");
        s
    }
}

/// The duty after steps, starting from `duty`.
pub open spec fn duty_after(duty: u32, steps: Seq<BuzzerStep>) -> u32
    decreases steps.len(),
{
    if steps.len() == 0 {
        duty
    } else {
        match steps.last() {
            BuzzerStep::SetDuty(d) => d,
            _ => duty_after(duty, steps.drop_last()),
        }
    }
}

/// Whatever the request says, the buzzer sounds for at least a millisecond and at most five
/// seconds, within its range of pitches, and is silent afterwards.
pub proof fn law_beeps_are_bounded_and_end(uri: Seq<char>, beep: Beep, duty: u32)
    requires
        beep.duration_ms == requested_duration(uri),
        beep.frequency_hz == requested_frequency(uri),
    ensures
        1 <= beep.duration_ms <= 5000,
        100 <= beep.frequency_hz <= 8000,
        duty_after(duty, beep.plan()) == DUTY_OFF,
{
}

/// A beep is as it was asked for: a duration and a pitch within their ranges are taken as they
/// are.
pub proof fn law_requested_beep_is_sounded(duration: nat, frequency: nat)
    requires
        1 <= duration <= MAX_DURATION_MS,
        MIN_FREQUENCY_HZ <= frequency <= MAX_FREQUENCY_HZ,
    ensures
        ({
            let uri = "/api/beep?duration_ms="@ + decimal(duration) + "&frequency_hz="@ + decimal(
                frequency,
            );
            requested_duration(uri) == duration && requested_frequency(uri) == frequency
        }),
{
    reveal_strlit("/api/beep?duration_ms=");
    reveal_strlit("/api/beep");
    reveal_strlit("duration_ms=");
    reveal_strlit("&frequency_hz=");
    reveal_strlit("frequency_hz=");
    let uri = "/api/beep?duration_ms="@ + decimal(duration) + "&frequency_hz="@ + decimal(
        frequency,
    );
    let first = "duration_ms="@ + decimal(duration);
    let second = "frequency_hz="@ + decimal(frequency);
    let query = first + seq!['&'] + second;
    assert(uri =~= "/api/beep"@ + seq!['?'] + query);
    law_query_follows_the_mark("/api/beep"@, query);
    law_number_is_read_back(
        "duration_ms="@,
        duration,
        u64::MAX as nat,
        DEFAULT_DURATION_MS as nat,
        second,
    );
    lemma_decimal_is_digits(duration, '&');
    lemma_joined_has_none("duration_ms="@, decimal(duration), '&');
    assert(first.subrange(0, "frequency_hz="@.len() as int)[0] == 'd' || first.len()
        < "frequency_hz="@.len());
    law_later_parameter_is_found(first, "frequency_hz="@, second);
    law_number_is_read_back(
        "frequency_hz="@,
        frequency,
        u32::MAX as nat,
        DEFAULT_FREQUENCY_HZ as nat,
        Seq::empty(),
    );
}

/// What is heard of steps, starting from a pitch and a duty: for each wait the pitch, the duty and
/// how long it lasts.
pub open spec fn heard(steps: Seq<BuzzerStep>, pitch: u32, duty: u32) -> Seq<(u32, u32, u64)>
    decreases steps.len(),
{
    if steps.len() == 0 {
        Seq::empty()
    } else {
        let rest = steps.skip(1);
        match steps[0] {
            BuzzerStep::SetFrequency(f) => heard(rest, f, duty),
            BuzzerStep::SetDuty(d) => heard(rest, pitch, d),
            BuzzerStep::Sleep(ms) => seq![(pitch, duty, ms)] + heard(rest, pitch, duty),
        }
    }
}

/// What is heard of a beep is one tone: of the wanted pitch, at half the scale of the duty, for the
/// wanted time, whatever sounded before.
pub proof fn law_beep_is_one_tone(beep: Beep, pitch: u32, duty: u32)
    ensures
        heard(beep.plan(), pitch, duty) == seq![(beep.frequency_hz, 128u32, beep.duration_ms)],
        duty_after(duty, beep.plan()) == 0,
{
    let p0 = beep.plan();
    let p1 = p0.skip(1);
    let p2 = p1.skip(1);
    let p3 = p2.skip(1);
    let p4 = p3.skip(1);
    assert(p4 =~= Seq::<BuzzerStep>::empty());
    assert(p3[0] == BuzzerStep::SetDuty(DUTY_OFF));
    assert(heard(p4, beep.frequency_hz, 0) == Seq::<(u32, u32, u64)>::empty());
    assert(heard(p3, beep.frequency_hz, 128) == Seq::<(u32, u32, u64)>::empty());
    assert(p2[0] == BuzzerStep::Sleep(beep.duration_ms));
    assert(heard(p2, beep.frequency_hz, 128) =~= seq![
        (beep.frequency_hz, 128u32, beep.duration_ms),
    ]);
    assert(p1[0] == BuzzerStep::SetDuty(DUTY_ON));
    assert(heard(p1, beep.frequency_hz, duty) == heard(p2, beep.frequency_hz, 128));
    assert(p0[0] == BuzzerStep::SetFrequency(beep.frequency_hz));
}

/// Every request is answered within the limits: a duration or pitch outside its range becomes the
/// nearest one inside, and one that is missing or too large for its type becomes the default.
pub proof fn law_every_request_has_a_beep(path: Seq<char>, duration: nat, frequency: nat)
    requires
        !path.contains('?'),
    ensures
        ({
            let d = requested_duration(path + seq!['?'] + ("duration_ms="@ + decimal(duration)));
            &&& duration == 0 ==> d == 1
            &&& 1 <= duration <= 5000 ==> d == duration
            &&& 5000 < duration <= u64::MAX ==> d == 5000
            &&& duration > u64::MAX ==> d == 200
        }),
        ({
            let f = requested_frequency(path + seq!['?'] + ("frequency_hz="@ + decimal(frequency)));
            &&& frequency < 100 ==> f == 100
            &&& 100 <= frequency <= 8000 ==> f == frequency
            &&& 8000 < frequency <= u32::MAX ==> f == 8000
            &&& frequency > u32::MAX ==> f == 2000
        }),
        requested_duration(path) == 200,
        requested_frequency(path) == 2000,
{
    reveal_strlit("duration_ms=");
    reveal_strlit("frequency_hz=");
    law_query_follows_the_mark(path, "duration_ms="@ + decimal(duration));
    law_query_follows_the_mark(path, "frequency_hz="@ + decimal(frequency));
    if duration <= u64::MAX {
        law_number_is_read_back("duration_ms="@, duration, u64::MAX as nat, 200, Seq::empty());
    } else {
        law_too_large_number_gives_default(
            "duration_ms="@,
            duration,
            u64::MAX as nat,
            200,
            Seq::empty(),
        );
    }
    if frequency <= u32::MAX {
        law_number_is_read_back("frequency_hz="@, frequency, u32::MAX as nat, 2000, Seq::empty());
    } else {
        law_too_large_number_gives_default(
            "frequency_hz="@,
            frequency,
            u32::MAX as nat,
            2000,
            Seq::empty(),
        );
    }
    law_absent_parameter_gives_default(Seq::empty(), "duration_ms="@, u64::MAX as nat, 200);
    law_absent_parameter_gives_default(Seq::empty(), "frequency_hz="@, u32::MAX as nat, 2000);
}

} // verus!
