//! The SG90 servo: from an angle to a pulse width.

use crate::number::{decimal, to_decimal};
use crate::query::{
    find_number, law_absent_parameter_gives_default, law_later_parameter_is_found,
    law_number_is_read_back, law_query_follows_the_mark, law_too_large_number_gives_default,
    number_parameter, query_chars, query_of,
};
use crate::text::starts_with;
use vstd::prelude::*;

verus! {

/// The duty of a pulse of half a millisecond, at 50 Hz with 14 bits.
pub const MIN_DUTY: u32 = 410;

/// The duty of a pulse of two and a half milliseconds.
pub const MAX_DUTY: u32 = 2048;

/// The largest angle, in degrees.
pub const MAX_ANGLE: u32 = 180;

/// The angle where the request does not say.
pub const DEFAULT_ANGLE: u32 = 90;

/// The angle that a request asks for.
pub open spec fn requested_angle(uri: Seq<char>) -> int {
    let angle = number_parameter(
        query_of(uri),
        "angle="@,
        u32::MAX as nat,
        DEFAULT_ANGLE as nat,
    );
    if angle < MAX_ANGLE {
        angle as int
    } else {
        MAX_ANGLE as int
    }
}

/// The duty for an angle.
pub open spec fn duty_of(angle: int) -> int {
    MIN_DUTY + (angle * (MAX_DUTY - MIN_DUTY)) / 180
}

/// Reads `GET /api/servo?angle=<0-180>`.
pub fn servo_request(uri: &str) -> (angle: u32)
    ensures
        angle == requested_angle(uri@),
        angle <= MAX_ANGLE,
{
    let query = query_chars(uri);
    let angle: u64 = find_number(&query, "angle=", u32::MAX as u64, DEFAULT_ANGLE as u64);
    if angle < MAX_ANGLE as u64 {
        angle as u32
    } else {
        MAX_ANGLE
    }
}

/// The duty for an angle.
pub fn servo_duty(angle: u32) -> (duty: u32)
    requires
        angle <= MAX_ANGLE,
    ensures
        duty == duty_of(angle as int),
        (duty - 410) * 180 <= angle * 1638 < (duty - 410 + 1) * 180,
{
    let range: u32 = MAX_DUTY - MIN_DUTY;
    assert(angle * range <= 180 * 1638) by (nonlinear_arith)
        requires
            angle <= 180,
            range == 1638,
    ;
    MIN_DUTY + (angle * range) / 180
}

/// What goes out after the servo was moved.
pub fn servo_json(angle: u32, duty: u32) -> (r: String)
    ensures
        r@ == "{\"angle\":"@ + decimal(angle as nat) + ",\"duty\":"@ + decimal(duty as nat) + "}"@,
{
    let angle_text = to_decimal(angle as u64);
    let duty_text = to_decimal(duty as u64);
    let mut s = "{\"angle\":".to_owned();
    s.append(angle_text.as_str());
    s.append(",\"duty\":");
    s.append(duty_text.as_str());
    s.append("}");
    s
}

/// The duty runs from the shortest pulse at no angle to the longest at the largest angle, never
/// leaves that range, and grows with the angle.
pub proof fn law_duty_follows_the_angle(a: int, b: int)
    requires
        0 <= a < b <= MAX_ANGLE,
    ensures
        duty_of(0) == MIN_DUTY,
        duty_of(MAX_ANGLE as int) == MAX_DUTY,
        MIN_DUTY <= duty_of(a) < duty_of(b) <= MAX_DUTY,
{
}

/// The servo goes where it is asked to go: an angle in the request is the angle that is set.
pub proof fn law_requested_angle_is_set(angle: nat)
    requires
        angle <= MAX_ANGLE,
    ensures
        requested_angle("/api/servo?angle="@ + decimal(angle)) == angle,
{
    reveal_strlit("/api/servo?angle=");
    reveal_strlit("/api/servo");
    reveal_strlit("angle=");
    let uri = "/api/servo?angle="@ + decimal(angle);
    law_query_follows_the_mark("/api/servo"@, "angle="@ + decimal(angle));
    assert(uri =~= "/api/servo"@ + seq!['?'] + ("angle="@ + decimal(angle)));
    law_number_is_read_back(
        "angle="@,
        angle,
        u32::MAX as nat,
        DEFAULT_ANGLE as nat,
        Seq::empty(),
    );
}

/// The duty is proportional to the angle: 1638 steps of duty above the shortest pulse are spread
/// evenly over 180 degrees, and a fraction of a step is dropped.
pub proof fn law_duty_is_proportional(angle: int)
    requires
        0 <= angle <= 180,
    ensures
        (duty_of(angle) - 410) * 180 <= angle * 1638,
        angle * 1638 < (duty_of(angle) - 410 + 1) * 180,
{
}

/// Equal turns are equal changes of duty, up to one step.
pub proof fn law_turns_add_up(a: int, b: int)
    requires
        0 <= a,
        0 <= b,
        a + b <= 180,
    ensures
        0 <= (duty_of(a + b) - 410) - (duty_of(a) - 410) - (duty_of(b) - 410) <= 1,
{
    law_duty_is_proportional(a);
    law_duty_is_proportional(b);
    law_duty_is_proportional(a + b);
}

/// A request for more than 180 degrees turns the servo all the way, whatever other parameters
/// stand before and after; a number that does not fit 32 bits and a request without an angle leave
/// it in the middle.
pub proof fn law_every_request_has_an_angle(
    path: Seq<char>,
    first: Seq<char>,
    n: nat,
    rest: Seq<char>,
)
    requires
        !path.contains('?'),
        !first.contains('&'),
        !starts_with(first, "angle="@),
    ensures
        ({
            let query = first + seq!['&'] + ("angle="@ + decimal(n) + seq!['&'] + rest);
            let angle = requested_angle(path + seq!['?'] + query);
            &&& n <= 180 ==> angle == n
            &&& 180 < n <= u32::MAX ==> angle == 180
            &&& n > u32::MAX ==> angle == 90
        }),
        requested_angle(path) == 90,
        requested_angle(path + seq!['?'] + first) == 90,
{
    reveal_strlit("angle=");
    let query = first + seq!['&'] + ("angle="@ + decimal(n) + seq!['&'] + rest);
    law_query_follows_the_mark(path, query);
    law_query_follows_the_mark(path, first);
    law_later_parameter_is_found(first, "angle="@, "angle="@ + decimal(n) + seq!['&'] + rest);
    if n <= u32::MAX {
        law_number_is_read_back("angle="@, n, u32::MAX as nat, 90, rest);
    } else {
        law_too_large_number_gives_default("angle="@, n, u32::MAX as nat, 90, rest);
    }
    law_absent_parameter_gives_default(first, "angle="@, u32::MAX as nat, 90);
    law_absent_parameter_gives_default(Seq::empty(), "angle="@, u32::MAX as nat, 90);
}

} // verus!
