//! Buttons: counting presses in sampled levels, and the press counter of the dashboard.

use crate::number::{decimal, to_decimal};
use vstd::prelude::*;

verus! {

/// How often the level is sampled, in milliseconds.
pub const POLL_INTERVAL_MS: u64 = 50;

/// A press counter: the last level that was seen, and how often it changed to pressed.
#[derive(Clone, Copy, PartialEq, Eq, Structural, Debug)]
pub struct PressCounter {
    pub pressed: bool,
    pub count: u32,
}

/// The counter after one more press; it wraps around.
pub open spec fn next_count(count: u32) -> u32 {
    ((count + 1) % 0x1_0000_0000) as u32
}

/// The state after a sampled level.
pub open spec fn sampled(s: PressCounter, pressed: bool) -> PressCounter {
    PressCounter {
        pressed,
        count: if pressed && !s.pressed {
            next_count(s.count)
        } else {
            s.count
        },
    }
}

/// The state after sampled levels.
pub open spec fn sampled_all(s: PressCounter, levels: Seq<bool>) -> PressCounter
    decreases levels.len(),
{
    if levels.len() == 0 {
        s
    } else {
        sampled(sampled_all(s, levels.drop_last()), levels.last())
    }
}

/// The level before sample `i`.
pub open spec fn level_before(start: bool, levels: Seq<bool>, i: int) -> bool {
    if i <= 0 {
        start
    } else {
        levels[i - 1]
    }
}

/// How many of the first `n` samples are presses: pressed, and not pressed just before.
pub open spec fn presses(start: bool, levels: Seq<bool>, n: int) -> nat
    decreases n,
{
    if n <= 0 {
        0
    } else {
        presses(start, levels, n - 1) + if levels[n - 1] && !level_before(start, levels, n - 1) {
            1nat
        } else {
            0nat
        }
    }
}

impl PressCounter {
    /// A counter at zero, with the button not pressed.
    pub fn new() -> (r: PressCounter)
        ensures
            r == (PressCounter { pressed: false, count: 0 }),
    {
        PressCounter { pressed: false, count: 0 }
    }

    /// Takes in a sampled level and tells whether it is a press. The counter wraps around.
    pub fn sample(&mut self, pressed: bool) -> (press: bool)
        ensures
            *final(self) == sampled(*old(self), pressed),
            press == (pressed && !old(self).pressed),
    {
        let press = pressed && !self.pressed;
        if press {
            self.count = self.count.wrapping_add(1);
        }
        self.pressed = pressed;
        press
    }

    /// Takes in the level of an active-low pin.
    pub fn sample_pin(&mut self, high: bool) -> (press: bool)
        ensures
            *final(self) == sampled(*old(self), !high),
            press == (!high && !old(self).pressed),
    {
        self.sample(!high)
    }

    /// Answers `GET /api/button`.
    pub fn count_json(&self) -> (r: String)
        ensures
            r@ == count_text(self.count),
    {
        let n = to_decimal(self.count as u64);
        let mut s = "{\"count\":".to_owned();
        s.append(n.as_str());
        s.append("}");
        s
    }

    /// Answers `GET /api/button/reset`: sets the counter to zero.
    pub fn reset(&mut self) -> (r: String)
        ensures
            *final(self) == (PressCounter { count: 0, ..*old(self) }),
            r@ == "{\"count\":0}"@,
    {
        self.count = 0;
        "{\"count\":0}".to_owned()
    }
}

/// The JSON object with a count.
pub open spec fn count_text(count: u32) -> Seq<char> {
    "{\"count\":"@ + decimal(count as nat) + "}"@
}

/// The counter counts the presses: over any samples it grows by their number, up to wrapping
/// around.
pub proof fn law_counter_counts_presses(s: PressCounter, levels: Seq<bool>)
    ensures
        sampled_all(s, levels).pressed == level_before(s.pressed, levels, levels.len() as int),
        sampled_all(s, levels).count == (s.count + presses(
            s.pressed,
            levels,
            levels.len() as int,
        )) % 0x1_0000_0000,
    decreases levels.len(),
{
    if levels.len() > 0 {
        let before = levels.drop_last();
        law_counter_counts_presses(s, before);
        lemma_presses_of_prefix(s.pressed, levels, before.len() as int);
    }
}

proof fn lemma_presses_of_prefix(start: bool, levels: Seq<bool>, n: int)
    requires
        n < levels.len(),
    ensures
        presses(start, levels, n) == presses(start, levels.drop_last(), n),
    decreases n,
{
    if n > 0 {
        lemma_presses_of_prefix(start, levels, n - 1);
    }
}

/// A level that does not change counts nothing: bounces within one sampling interval and a button
/// that is held are one press at most.
pub proof fn law_steady_level_counts_nothing(s: PressCounter)
    ensures
        sampled(s, s.pressed) == s,
{
}

/// The answer to a reset is the answer that the counter then gives.
pub proof fn law_reset_answers_zero()
    ensures
        count_text(0) == "{\"count\":0}"@,
{
    reveal_strlit("{\"count\":");
    reveal_strlit("}");
    reveal_strlit("{\"count\":0}");
    assert(decimal(0) =~= seq!['0']);
    assert(count_text(0) =~= "{\"count\":0}"@);
}

/// Pressing and letting go counts one, for however long the button is held; the counter starts
/// again at zero behind the largest 32-bit number.
pub proof fn law_press_and_release_count_one(count: u32, held: nat)
    ensures
        ({
            let levels = seq![true] + Seq::new(held, |i: int| true) + seq![false];
            let after = sampled_all(PressCounter { pressed: false, count }, levels);
            &&& !after.pressed
            &&& count < u32::MAX ==> after.count == count + 1
            &&& count == u32::MAX ==> after.count == 0
        }),
    decreases held,
{
    let start = PressCounter { pressed: false, count };
    let held_down = seq![true] + Seq::new(held, |i: int| true);
    let levels = held_down + seq![false];
    lemma_held_counts_one(start, held);
    assert(levels.drop_last() =~= held_down);
    assert(levels.last() == false);
}

proof fn lemma_held_counts_one(start: PressCounter, held: nat)
    requires
        !start.pressed,
    ensures
        sampled_all(start, seq![true] + Seq::new(held, |i: int| true)) == (PressCounter {
            pressed: true,
            count: next_count(start.count),
        }),
    decreases held,
{
    let levels = seq![true] + Seq::new(held, |i: int| true);
    if held > 0 {
        let before = seq![true] + Seq::new((held - 1) as nat, |i: int| true);
        lemma_held_counts_one(start, (held - 1) as nat);
        assert(levels.drop_last() =~= before);
        assert(levels.last() == true);
    } else {
        assert(levels.drop_last() =~= Seq::<bool>::empty());
        assert(sampled_all(start, levels.drop_last()) == start);
        assert(levels.last() == true);
    }
}

} // verus!
