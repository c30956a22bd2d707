//! The render loops: when to draw, when to blank the screen, and the timing figures.

use super::frame::{pixels, solid, FB_BYTES};
use super::panel::{
    fill_ops, frame_ops, full_window_ops, law_fill_shows_the_colour, law_flush_shows_the_frame,
    law_full_window_selects_all, lemma_after_all_joins, OpView, Panel,
};
use super::shader::{sum32, sum64};
use vstd::prelude::*;

verus! {

/// How long a renderer that is not active waits before it looks again, in milliseconds.
pub const INACTIVE_DELAY_MS: u32 = 50;

/// How long a renderer that owns the display waits while it is stopped, in milliseconds.
pub const STOPPED_DELAY_MS: u32 = 100;

/// What a renderer that shares the display does next.
#[derive(Clone, Copy, PartialEq, Eq, Structural, Debug)]
pub enum RenderAction {
    /// Wait; before that, blank the screen where `blank` says so.
    Wait { blank: bool },
    /// Draw and send a frame; before that, select the whole area where `select` says so.
    Draw { select: bool },
}

/// What a renderer that was inactive or not does next.
pub open spec fn render_action(was_inactive: bool, active: bool) -> RenderAction {
    if active {
        RenderAction::Draw { select: was_inactive }
    } else {
        RenderAction::Wait { blank: !was_inactive }
    }
}

/// Decides what a renderer that shares the display does next. It is active while its mode is
/// selected and it is running.
pub fn render_tick(was_inactive: &mut bool, mode_selected: bool, running: bool) -> (r: RenderAction)
    ensures
        r == render_action(*old(was_inactive), mode_selected && running),
        r is Draw <==> mode_selected && running,
        *final(was_inactive) == !(mode_selected && running),
{
    let active = mode_selected && running;
    let before = *was_inactive;
    *was_inactive = !active;
    if active {
        RenderAction::Draw { select: before }
    } else {
        RenderAction::Wait { blank: !before }
    }
}

/// What is sent to the panel for an action, with the frame that was drawn.
pub open spec fn action_ops(action: RenderAction, fb: Seq<u8>) -> Seq<OpView> {
    match action {
        RenderAction::Wait { blank } => if blank {
            fill_ops(0)
        } else {
            Seq::empty()
        },
        RenderAction::Draw { select } => if select {
            full_window_ops() + frame_ops(fb)
        } else {
            frame_ops(fb)
        },
    }
}

/// Every frame that a renderer draws is what the panel then shows, and a renderer that becomes
/// inactive leaves a black screen. The area that is selected when one frame is sent is still
/// selected for the next.
pub proof fn law_render_loop_shows_its_frames(
    p: Panel,
    was_inactive: bool,
    active: bool,
    fb: Seq<u8>,
)
    requires
        fb.len() == FB_BYTES,
        was_inactive || p.window_is_full(),
    ensures
        ({
            let after = p.after_all(action_ops(render_action(was_inactive, active), fb));
            &&& !active || after.window_is_full()
            &&& active ==> after.visible == pixels(fb)
            &&& !active && !was_inactive ==> after.visible == solid(0)
            &&& !active && was_inactive ==> after == p
        }),
{
    if active {
        if was_inactive {
            lemma_after_all_joins(p, full_window_ops(), frame_ops(fb));
            law_full_window_selects_all(p);
            law_flush_shows_the_frame(p.after_all(full_window_ops()), fb);
        } else {
            law_flush_shows_the_frame(p, fb);
        }
    } else if !was_inactive {
        law_fill_shows_the_colour(p, 0);
    }
}

/// What a renderer that owns the display does next.
#[derive(Clone, Copy, PartialEq, Eq, Structural, Debug)]
pub enum OwnerAction {
    /// Send a black frame.
    Blank,
    /// Wait.
    Wait,
    /// Select the whole area, then draw and send a frame.
    Resume,
    /// Draw and send a frame.
    Draw,
}

/// What a renderer that was stopped or not does next.
pub open spec fn owner_action(was_stopped: bool, running: bool) -> OwnerAction {
    if running {
        if was_stopped {
            OwnerAction::Resume
        } else {
            OwnerAction::Draw
        }
    } else if was_stopped {
        OwnerAction::Wait
    } else {
        OwnerAction::Blank
    }
}

/// Decides what a renderer that owns the display does next.
pub fn owner_tick(was_stopped: &mut bool, running: bool) -> (r: OwnerAction)
    ensures
        r == owner_action(*old(was_stopped), running),
        *final(was_stopped) == !running,
{
    let before = *was_stopped;
    *was_stopped = !running;
    if running {
        if before {
            OwnerAction::Resume
        } else {
            OwnerAction::Draw
        }
    } else if before {
        OwnerAction::Wait
    } else {
        OwnerAction::Blank
    }
}

/// The sums of the times of `N` stages over the frames since the last log line.
#[derive(Clone, Copy, Debug)]
pub struct StageTimes<const N: usize> {
    pub frames: u32,
    pub sums_us: [u64; N],
}

impl<const N: usize> StageTimes<N> {
    /// Whether nothing was summed up.
    pub open spec fn is_zero(self) -> bool {
        &&& self.frames == 0
        &&& forall|i: int| 0 <= i < N ==> #[trigger] self.sums_us@[i] == 0
    }

    /// The number of frames to divide by.
    pub open spec fn divisor(self) -> u64 {
        if self.frames == 0 {
            1
        } else {
            self.frames as u64
        }
    }

    /// Starts at zero.
    pub fn new() -> (r: StageTimes<N>)
        ensures
            r.is_zero(),
            r.frames == 0,
            forall|i: int| 0 <= i < N ==> #[trigger] r.sums_us@[i] == 0,
    {
        StageTimes { frames: 0, sums_us: [0;N] }
    }

    /// Sets everything back to zero.
    pub fn reset(&mut self)
        ensures
            final(self).is_zero(),
            final(self).frames == 0,
            forall|i: int| 0 <= i < N ==> #[trigger] final(self).sums_us@[i] == 0,
    {
        *self = StageTimes::<N>::new();
    }

    /// Adds the times of a frame.
    pub fn add_frame(&mut self, times_us: &[u64; N])
        ensures
            final(self).frames == sum32(old(self).frames, 1),
            forall|i: int|
                0 <= i < N ==> #[trigger] final(self).sums_us@[i] == sum64(
                    old(self).sums_us@[i],
                    times_us@[i],
                ),
    {
        let mut i: usize = 0;
        while i < N
            invariant
                i <= N,
                self.frames == old(self).frames,
                forall|j: int|
                    0 <= j < N ==> #[trigger] self.sums_us@[j] == (if j < i {
                        sum64(old(self).sums_us@[j], times_us@[j])
                    } else {
                        old(self).sums_us@[j]
                    }),
            decreases N - i,
        {
            let sum: u64 = self.sums_us[i].wrapping_add(times_us[i]);
            self.sums_us[i] = sum;
            i = i + 1;
        }
        self.frames = self.frames.wrapping_add(1);
    }

    /// The average time of a stage, rounded down.
    pub fn average_us(&self, stage: usize) -> (r: u64)
        requires
            stage < N,
        ensures
            r == self.sums_us@[stage as int] / self.divisor(),
            self.frames > 0 ==> r * self.frames <= self.sums_us@[stage as int] < (r + 1)
                * self.frames,
            self.frames == 0 ==> r == self.sums_us@[stage as int],
    {
        let frames: u64 = if self.frames == 0 {
            1
        } else {
            self.frames as u64
        };
        let sum: u64 = self.sums_us[stage];
        let average: u64 = sum / frames;
        proof {
            vstd::arithmetic::div_mod::lemma_fundamental_div_mod(sum as int, frames as int);
            vstd::arithmetic::div_mod::lemma_mod_bound(sum as int, frames as int);
            assert(frames * average == average * frames) by (nonlinear_arith);
            assert((average + 1) * frames == average * frames + frames) by (nonlinear_arith);
        }
        average
    }

    /// Whether it is time for a log line.
    pub fn is_due(elapsed_secs: u64) -> (r: bool)
        ensures
            r == (elapsed_secs >= 1),
    {
        elapsed_secs >= 1
    }
}

/// A renderer draws exactly while it is active; it selects the area when it becomes active, and
/// blanks the screen once when it no longer is.
pub proof fn law_renderer_draws_while_active(was_inactive: bool, active: bool)
    ensures
        active <==> render_action(was_inactive, active) is Draw,
        active && was_inactive <==> render_action(was_inactive, active) == (RenderAction::Draw {
            select: true,
        }),
        !active && !was_inactive <==> render_action(was_inactive, active) == (RenderAction::Wait {
            blank: true,
        }),
{
}

/// A renderer that owns the display draws exactly while it is running, selects the area when it
/// goes on after a stop, and blanks the screen once when it is stopped.
pub proof fn law_owner_draws_while_running(was_stopped: bool, running: bool)
    ensures
        running && was_stopped <==> owner_action(was_stopped, running) == OwnerAction::Resume,
        running && !was_stopped <==> owner_action(was_stopped, running) == OwnerAction::Draw,
        !running && !was_stopped <==> owner_action(was_stopped, running) == OwnerAction::Blank,
        !running && was_stopped <==> owner_action(was_stopped, running) == OwnerAction::Wait,
{
}

} // verus!
