//! Joining the Wi-Fi network, with retries.

use vstd::prelude::*;

verus! {

/// How long an attempt may take, in milliseconds.
pub const ASSOCIATION_TIMEOUT_MS: u64 = 15_000;

/// How often the link is looked at, in milliseconds.
pub const LINK_POLL_MS: u64 = 200;

/// How long to wait after a failed attempt, so that the access point can forget it, in
/// milliseconds.
pub const RETRY_DELAY_MS: u64 = 300;

/// What is done next.
#[derive(Clone, Copy, PartialEq, Eq, Structural, Debug)]
pub enum StationPhase {
    /// Forget earlier rejections and start an attempt.
    Connect,
    /// Look at the link; the attempt fails at `deadline_ms`.
    Poll { deadline_ms: u64 },
    /// Wait for an address.
    AwaitAddress,
    /// Disconnect, wait, and try again.
    Retry,
    /// The network can be used.
    Up,
}

/// The result of looking at the link.
pub open spec fn link_result(connected: bool, rejected: bool, now_ms: u64, deadline_ms: u64) -> Option<
    bool,
> {
    if connected {
        Some(true)
    } else if rejected || now_ms >= deadline_ms {
        Some(false)
    } else {
        None
    }
}

/// Looks at the link: `Some(true)` once it is up, `Some(false)` once the attempt has failed, by a
/// rejection or by taking too long, and nothing while it goes on.
pub fn poll_link(connected: bool, rejected: bool, now_ms: u64, deadline_ms: u64) -> (r: Option<
    bool,
>)
    ensures
        r == link_result(connected, rejected, now_ms, deadline_ms),
{
    if connected {
        Some(true)
    } else if rejected {
        Some(false)
    } else if now_ms >= deadline_ms {
        Some(false)
    } else {
        None
    }
}

/// The phase behind the start of an attempt.
pub open spec fn connect_step(now_ms: u64) -> StationPhase {
    StationPhase::Poll { deadline_ms: (now_ms + ASSOCIATION_TIMEOUT_MS) as u64 }
}

/// After an attempt was started at `now_ms`.
pub fn after_connect(now_ms: u64) -> (r: StationPhase)
    requires
        now_ms + ASSOCIATION_TIMEOUT_MS <= u64::MAX,
    ensures
        r == connect_step(now_ms),
        r == (StationPhase::Poll { deadline_ms: (now_ms + ASSOCIATION_TIMEOUT_MS) as u64 }),
{
    StationPhase::Poll { deadline_ms: now_ms + ASSOCIATION_TIMEOUT_MS }
}

/// The phase behind a look at the link, and how many milliseconds to wait before it.
pub open spec fn poll_step(
    deadline_ms: u64,
    connected: bool,
    rejected: bool,
    now_ms: u64,
) -> (StationPhase, u64) {
    match link_result(connected, rejected, now_ms, deadline_ms) {
        Some(true) => (StationPhase::AwaitAddress, 0u64),
        Some(false) => (StationPhase::Retry, 0u64),
        None => (StationPhase::Poll { deadline_ms }, LINK_POLL_MS),
    }
}

/// After the link was looked at: the next phase, and how many milliseconds to wait before it.
pub fn after_poll(deadline_ms: u64, connected: bool, rejected: bool, now_ms: u64) -> (r: (
    StationPhase,
    u64,
))
    ensures
        r == poll_step(deadline_ms, connected, rejected, now_ms),
        r == (match link_result(connected, rejected, now_ms, deadline_ms) {
            Some(true) => (StationPhase::AwaitAddress, 0u64),
            Some(false) => (StationPhase::Retry, 0u64),
            None => (StationPhase::Poll { deadline_ms }, LINK_POLL_MS),
        }),
{
    match poll_link(connected, rejected, now_ms, deadline_ms) {
        Some(up) => if up {
            (StationPhase::AwaitAddress, 0)
        } else {
            (StationPhase::Retry, 0)
        },
        None => (StationPhase::Poll { deadline_ms }, LINK_POLL_MS),
    }
}

/// The phase behind the wait for an address.
pub open spec fn address_step(obtained: bool) -> StationPhase {
    if obtained {
        StationPhase::Up
    } else {
        StationPhase::Retry
    }
}

/// After waiting for an address.
pub fn after_address(obtained: bool) -> (r: StationPhase)
    ensures
        r == address_step(obtained),
        r == (if obtained {
            StationPhase::Up
        } else {
            StationPhase::Retry
        }),
{
    if obtained {
        StationPhase::Up
    } else {
        StationPhase::Retry
    }
}

/// After the disconnect: the next attempt, and how many milliseconds to wait before it.
pub fn after_disconnect() -> (r: (StationPhase, u64))
    ensures
        r == (StationPhase::Connect, RETRY_DELAY_MS),
{
    (StationPhase::Connect, RETRY_DELAY_MS)
}

/// A link that is up counts, even where it was rejected before or is late.
pub proof fn law_success_comes_first(rejected: bool, now_ms: u64, deadline_ms: u64)
    ensures
        link_result(true, rejected, now_ms, deadline_ms) == Some(true),
{
}

/// No attempt goes on beyond its deadline.
pub proof fn law_attempts_end(connected: bool, rejected: bool, now_ms: u64, deadline_ms: u64)
    requires
        now_ms >= deadline_ms,
    ensures
        link_result(connected, rejected, now_ms, deadline_ms) is Some,
{
}

/// An attempt that is neither rejected nor late goes on, is looked at again after 200 ms and keeps
/// its deadline; one that is rejected or late is given up; one that succeeds waits for an address.
pub proof fn law_attempt_goes_on_until_decided(
    connected: bool,
    rejected: bool,
    now_ms: u64,
    deadline_ms: u64,
)
    ensures
        ({
            let step = poll_step(deadline_ms, connected, rejected, now_ms);
            &&& connected <==> step == (StationPhase::AwaitAddress, 0u64)
            &&& !connected && (rejected || now_ms >= deadline_ms) <==> step == (
                StationPhase::Retry,
                0u64,
            )
            &&& !connected && !rejected && now_ms < deadline_ms <==> step == (
                StationPhase::Poll { deadline_ms },
                200u64,
            )
        }),
        connected <==> link_result(connected, rejected, now_ms, deadline_ms) == Some(true),
        !connected && (rejected || now_ms >= deadline_ms) <==> link_result(
            connected,
            rejected,
            now_ms,
            deadline_ms,
        ) == Some(false),
{
}

/// An attempt has fifteen seconds: before that it is not late, and from then on it is.
pub proof fn law_attempt_has_fifteen_seconds(start_ms: u64, now_ms: u64)
    requires
        start_ms + 15_000 <= u64::MAX,
    ensures
        ({
            let phase = connect_step(start_ms);
            &&& phase is Poll
            &&& link_result(false, false, now_ms, phase->deadline_ms) is None <==> now_ms - start_ms
                < 15_000
        }),
{
}

/// The network is up exactly when an address was obtained; without one the attempt starts anew.
pub proof fn law_address_brings_the_network_up(obtained: bool)
    ensures
        obtained <==> address_step(obtained) == StationPhase::Up,
        !obtained <==> address_step(obtained) == StationPhase::Retry,
{
}

} // verus!
