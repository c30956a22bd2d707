//! The WS2812 LED: a blink on request.

use vstd::prelude::*;

verus! {

/// A colour of the LED.
#[derive(Clone, Copy, PartialEq, Eq, Structural, Debug)]
pub struct LedColor {
    pub r: u8,
    pub g: u8,
    pub b: u8,
}

/// What is done to the LED.
#[derive(Clone, Copy, PartialEq, Eq, Structural, Debug)]
pub enum LedStep {
    Write(LedColor),
    SleepMs(u64),
}

/// A blink: dim white for one second, then off.
pub open spec fn blink_plan() -> Seq<LedStep> {
    seq![
        LedStep::Write(LedColor { r: 50, g: 50, b: 50 }),
        LedStep::SleepMs(1000),
        LedStep::Write(LedColor { r: 0, g: 0, b: 0 }),
    ]
}

/// What is done for `GET /api/blink`.
pub fn blink_steps() -> (r: [LedStep; 3])
    ensures
        r@ == blink_plan(),
{
    let r = [
        LedStep::Write(LedColor { r: 50, g: 50, b: 50 }),
        LedStep::SleepMs(1000),
        LedStep::Write(LedColor { r: 0, g: 0, b: 0 }),
    ];
    assert(r@ =~= blink_plan());
    r
}

/// What goes out after the blink.
pub fn blink_json() -> (r: &'static str)
    ensures
        r@ == "{\"blinked\":true}"@,
{
    "{\"blinked\":true}"
}

} // verus!
