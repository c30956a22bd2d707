//! The tasks around the server, as decisions between awaits.

use crate::peripherals::button::{sampled, PressCounter};
use vstd::prelude::*;

verus! {

/// How long the button is left alone after a press, in milliseconds.
pub const PRESS_DELAY_MS: u64 = 50;

/// How long the button is left alone after a release, in milliseconds.
pub const RELEASE_DELAY_MS: u64 = 200;

/// How long to wait between two samples of the button, in milliseconds.
pub const SAMPLE_DELAY_MS: u64 = 30;

/// How long to wait after the button went from one level to another.
pub open spec fn sample_delay(was_pressed: bool, pressed: bool) -> int {
    SAMPLE_DELAY_MS + if pressed && !was_pressed {
        PRESS_DELAY_MS as int
    } else if !pressed && was_pressed {
        RELEASE_DELAY_MS as int
    } else {
        0
    }
}

/// What is printed when the button is pressed.
pub fn press_message() -> (r: &'static str)
    ensures
        r@ == "Hello"@,
{
    "Hello"
}

/// What is done after a sample of the button: something may be printed, and then the next sample
/// is waited for.
#[derive(Clone, Copy, Debug)]
pub struct ButtonStep {
    pub message: Option<&'static str>,
    pub delay_ms: u64,
}

/// Takes in a sample of the button. A press is counted and greeted, once for as long as the button
/// stays pressed; changes are followed by a longer wait, so that the contact can settle.
pub fn sample_button(button: &mut PressCounter, is_low: bool) -> (r: ButtonStep)
    ensures
        *final(button) == sampled(*old(button), is_low),
        r.delay_ms == sample_delay(old(button).pressed, is_low),
        match r.message {
            Some(m) => is_low && !old(button).pressed && m@ == "Hello"@,
            None => !is_low || old(button).pressed,
        },
{
    let was_pressed = button.pressed;
    let press = button.sample(is_low);
    if press {
        ButtonStep {
            message: Some(press_message()),
            delay_ms: PRESS_DELAY_MS + SAMPLE_DELAY_MS,
        }
    } else if !is_low && was_pressed {
        ButtonStep { message: None, delay_ms: RELEASE_DELAY_MS + SAMPLE_DELAY_MS }
    } else {
        ButtonStep { message: None, delay_ms: SAMPLE_DELAY_MS }
    }
}

/// What the Wi-Fi task does next.
#[derive(Clone, Copy, PartialEq, Eq, Structural, Debug)]
pub enum WifiPhase {
    /// Look whether the station is connected.
    CheckConnected,
    /// Wait until the station is no longer connected.
    AwaitDisconnect,
    /// Look whether the controller is started.
    CheckStarted,
    /// Configure and start the controller.
    Start,
    /// Scan for networks.
    Scan,
    /// Connect to the access point.
    Connect,
}

/// How long to wait after a disconnect and after a failed attempt, in milliseconds.
pub const RECONNECT_DELAY_MS: u64 = 5000;

/// The next phase, and how many milliseconds to wait before it. `yes` is the answer of a check
/// and the success of an attempt.
pub open spec fn wifi_step(phase: WifiPhase, yes: bool) -> (WifiPhase, u64) {
    match phase {
        WifiPhase::CheckConnected => if yes {
            (WifiPhase::AwaitDisconnect, 0)
        } else {
            (WifiPhase::CheckStarted, 0)
        },
        WifiPhase::AwaitDisconnect => (WifiPhase::CheckStarted, RECONNECT_DELAY_MS),
        WifiPhase::CheckStarted => if yes {
            (WifiPhase::Connect, 0)
        } else {
            (WifiPhase::Start, 0)
        },
        WifiPhase::Start => (WifiPhase::Scan, 0),
        WifiPhase::Scan => (WifiPhase::Connect, 0),
        WifiPhase::Connect => if yes {
            (WifiPhase::CheckConnected, 0)
        } else {
            (WifiPhase::CheckConnected, RECONNECT_DELAY_MS)
        },
    }
}

/// Decides what the Wi-Fi task does next.
pub fn wifi_next(phase: WifiPhase, yes: bool) -> (r: (WifiPhase, u64))
    ensures
        r == wifi_step(phase, yes),
{
    match phase {
        WifiPhase::CheckConnected => if yes {
            (WifiPhase::AwaitDisconnect, 0)
        } else {
            (WifiPhase::CheckStarted, 0)
        },
        WifiPhase::AwaitDisconnect => (WifiPhase::CheckStarted, RECONNECT_DELAY_MS),
        WifiPhase::CheckStarted => if yes {
            (WifiPhase::Connect, 0)
        } else {
            (WifiPhase::Start, 0)
        },
        WifiPhase::Start => (WifiPhase::Scan, 0),
        WifiPhase::Scan => (WifiPhase::Connect, 0),
        WifiPhase::Connect => if yes {
            (WifiPhase::CheckConnected, 0)
        } else {
            (WifiPhase::CheckConnected, RECONNECT_DELAY_MS)
        },
    }
}

/// The phase after answers, starting from `phase`.
pub open spec fn wifi_phase_after(phase: WifiPhase, answers: Seq<bool>) -> WifiPhase
    decreases answers.len(),
{
    if answers.len() == 0 {
        phase
    } else {
        wifi_phase_after(wifi_step(phase, answers[0]).0, answers.skip(1))
    }
}

/// The task keeps trying: whatever the answers are, within five steps it tries to connect.
pub proof fn law_wifi_keeps_connecting(phase: WifiPhase, answers: Seq<bool>)
    requires
        answers.len() == 5,
    ensures
        exists|n: int|
            0 <= n <= 5 && #[trigger] wifi_phase_after(phase, answers.take(n))
                == WifiPhase::Connect,
{
    let p0 = phase;
    let p1 = wifi_step(p0, answers[0]).0;
    let p2 = wifi_step(p1, answers[1]).0;
    let p3 = wifi_step(p2, answers[2]).0;
    let p4 = wifi_step(p3, answers[3]).0;
    let p5 = wifi_step(p4, answers[4]).0;
    lemma_wifi_phase_extends(phase, answers, 0);
    lemma_wifi_phase_extends(phase, answers, 1);
    lemma_wifi_phase_extends(phase, answers, 2);
    lemma_wifi_phase_extends(phase, answers, 3);
    lemma_wifi_phase_extends(phase, answers, 4);
    assert(answers.take(0) =~= Seq::empty());
    assert(wifi_phase_after(phase, answers.take(0)) == p0);
    assert(wifi_phase_after(phase, answers.take(1)) == p1);
    assert(wifi_phase_after(phase, answers.take(2)) == p2);
    assert(wifi_phase_after(phase, answers.take(3)) == p3);
    assert(wifi_phase_after(phase, answers.take(4)) == p4);
    assert(wifi_phase_after(phase, answers.take(5)) == p5);
}

proof fn lemma_wifi_phase_extends(phase: WifiPhase, answers: Seq<bool>, n: int)
    requires
        0 <= n < answers.len(),
    ensures
        wifi_phase_after(phase, answers.take(n + 1)) == wifi_step(
            wifi_phase_after(phase, answers.take(n)),
            answers[n],
        ).0,
    decreases n,
{
    reveal_with_fuel(wifi_phase_after, 2);
    if n > 0 {
        let next = wifi_step(phase, answers[0]).0;
        let rest = answers.skip(1);
        lemma_wifi_phase_extends(next, rest, n - 1);
        assert(answers.take(n + 1).skip(1) =~= rest.take(n));
        assert(answers.take(n).skip(1) =~= rest.take(n - 1));
    } else {
        assert(answers.take(1).skip(1) =~= Seq::empty());
    }
}

/// What the server task does next.
#[derive(Clone, Copy, PartialEq, Eq, Structural, Debug)]
pub enum ServerPhase {
    /// Look whether the link is up.
    CheckLink,
    /// Look whether there is an address.
    CheckAddress,
    /// Accept a connection.
    Accept,
    /// Read and answer a request, then close the connection.
    Handle,
}

/// How often the link and the address are looked at, in milliseconds.
pub const NETWORK_POLL_MS: u64 = 500;

/// How long to wait after a connection was closed, in milliseconds.
pub const CLOSE_DELAY_MS: u64 = 100;

/// The next phase, and how many milliseconds to wait before it. `yes` is the answer of a check
/// and the success of an attempt.
pub open spec fn server_step(phase: ServerPhase, yes: bool) -> (ServerPhase, u64) {
    match phase {
        ServerPhase::CheckLink => if yes {
            (ServerPhase::CheckAddress, 0)
        } else {
            (ServerPhase::CheckLink, NETWORK_POLL_MS)
        },
        ServerPhase::CheckAddress => if yes {
            (ServerPhase::Accept, 0)
        } else {
            (ServerPhase::CheckAddress, NETWORK_POLL_MS)
        },
        ServerPhase::Accept => if yes {
            (ServerPhase::Handle, 0)
        } else {
            (ServerPhase::Accept, 0)
        },
        ServerPhase::Handle => (ServerPhase::Accept, CLOSE_DELAY_MS),
    }
}

/// Decides what the server task does next.
pub fn server_next(phase: ServerPhase, yes: bool) -> (r: (ServerPhase, u64))
    ensures
        r == server_step(phase, yes),
{
    match phase {
        ServerPhase::CheckLink => if yes {
            (ServerPhase::CheckAddress, 0)
        } else {
            (ServerPhase::CheckLink, NETWORK_POLL_MS)
        },
        ServerPhase::CheckAddress => if yes {
            (ServerPhase::Accept, 0)
        } else {
            (ServerPhase::CheckAddress, NETWORK_POLL_MS)
        },
        ServerPhase::Accept => if yes {
            (ServerPhase::Handle, 0)
        } else {
            (ServerPhase::Accept, 0)
        },
        ServerPhase::Handle => (ServerPhase::Accept, CLOSE_DELAY_MS),
    }
}

/// A request that cannot be handled does not stop the server: it accepts the next connection, just
/// as after one that was handled.
pub proof fn law_server_outlives_requests(handled: bool)
    ensures
        server_step(ServerPhase::Handle, handled) == (ServerPhase::Accept, CLOSE_DELAY_MS),
{
}

/// The button is left alone for 80 ms after a press and for 230 ms after a release, and is looked
/// at again after 30 ms where nothing changed.
pub proof fn law_contact_gets_time_to_settle(was_pressed: bool, pressed: bool)
    ensures
        pressed && !was_pressed <==> sample_delay(was_pressed, pressed) == 80,
        !pressed && was_pressed <==> sample_delay(was_pressed, pressed) == 230,
        pressed == was_pressed <==> sample_delay(was_pressed, pressed) == 30,
{
}

/// A station that is connected is left alone until it no longer is, and one that is not is brought
/// up: a controller that is not started is started and scans before it connects.
pub proof fn law_wifi_is_brought_up(answer: bool, other: bool)
    ensures
        wifi_step(WifiPhase::CheckConnected, true).0 == WifiPhase::AwaitDisconnect,
        wifi_step(WifiPhase::CheckConnected, false).0 == WifiPhase::CheckStarted,
        wifi_step(WifiPhase::AwaitDisconnect, answer).0 == WifiPhase::CheckStarted,
        wifi_step(WifiPhase::CheckStarted, true).0 == WifiPhase::Connect,
        ({
            let start = wifi_step(WifiPhase::CheckStarted, false).0;
            let scan = wifi_step(start, answer).0;
            &&& start == WifiPhase::Start
            &&& scan == WifiPhase::Scan
            &&& wifi_step(scan, other).0 == WifiPhase::Connect
        }),
        wifi_step(WifiPhase::Connect, answer).0 == WifiPhase::CheckConnected,
{
}

/// The task waits for five seconds after it lost the connection and after an attempt that failed,
/// and for nothing else.
pub proof fn law_wifi_waits_after_failures(phase: WifiPhase, yes: bool)
    ensures
        phase == WifiPhase::AwaitDisconnect || (phase == WifiPhase::Connect && !yes)
            <==> wifi_step(phase, yes).1 == 5000,
        wifi_step(phase, yes).1 == 5000 || wifi_step(phase, yes).1 == 0,
{
}

/// The server waits for the link and then for an address, looking twice a second, and from then on
/// accepts one connection after the other.
pub proof fn law_server_waits_for_the_network(yes: bool)
    ensures
        server_step(ServerPhase::CheckLink, false) == (ServerPhase::CheckLink, 500u64),
        server_step(ServerPhase::CheckLink, true) == (ServerPhase::CheckAddress, 0u64),
        server_step(ServerPhase::CheckAddress, false) == (ServerPhase::CheckAddress, 500u64),
        server_step(ServerPhase::CheckAddress, true) == (ServerPhase::Accept, 0u64),
        server_step(ServerPhase::Accept, false) == (ServerPhase::Accept, 0u64),
        server_step(ServerPhase::Accept, true) == (ServerPhase::Handle, 0u64),
        server_step(ServerPhase::Handle, yes) == (ServerPhase::Accept, 100u64),
{
}

} // verus!
