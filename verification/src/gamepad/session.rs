//! The BLE session as a state machine: each phase says what to do next, each event what came of it.

use super::{decode_lossy, lossy_text, GamepadHandle, GamepadView, HandleView};
use vstd::prelude::*;

verus! {

/// The 16-bit identifier of the HID service.
pub const HID_SERVICE_UUID: u16 = 0x1812;

/// The 16-bit identifier of HID report characteristics.
pub const HID_REPORT_UUID: u16 = 0x2A4D;

/// The 16-bit identifier of the HID report map characteristic.
pub const HID_REPORT_MAP_UUID: u16 = 0x2A4B;

/// How long a scan lasts, in milliseconds.
pub const SCAN_TIMEOUT_MS: u32 = 30_000;

/// How long to wait after a session before the next one, in milliseconds.
pub const RECONNECT_DELAY_MS: u64 = 2_000;

/// How often rumble requests are looked for, in milliseconds.
pub const POLL_MS: u32 = 100;

/// What is known of a characteristic of the HID service. `uuid` is its 16-bit identifier, where
/// it has one in short or in expanded form.
#[derive(Clone, Copy, Debug)]
pub struct Characteristic {
    pub uuid: Option<u16>,
    pub can_write: bool,
    pub can_write_no_response: bool,
    pub can_notify: bool,
}

impl Characteristic {
    /// A report that the host may write to.
    pub open spec fn is_writable_report(self) -> bool {
        self.uuid == Some(HID_REPORT_UUID) && (self.can_write || self.can_write_no_response)
    }

    /// A report that notifies, whether or not the host may write to it.
    pub open spec fn is_notifying_report(self) -> bool {
        self.uuid == Some(HID_REPORT_UUID) && self.can_notify
    }

    fn is_report(&self) -> (r: bool)
        ensures
            r == (self.uuid == Some(HID_REPORT_UUID)),
    {
        match self.uuid {
            Some(u) => u == HID_REPORT_UUID,
            None => false,
        }
    }
}

/// The numbers of the writable reports among the first `n` characteristics.
pub open spec fn writable_reports(chars: Seq<Characteristic>, n: int) -> Seq<usize>
    decreases n,
{
    if n <= 0 {
        Seq::empty()
    } else if chars[n - 1].is_writable_report() {
        writable_reports(chars, n - 1).push((n - 1) as usize)
    } else {
        writable_reports(chars, n - 1)
    }
}

/// The numbers of the notifying reports among the first `n` characteristics.
pub open spec fn notifying_reports(chars: Seq<Characteristic>, n: int) -> Seq<usize>
    decreases n,
{
    if n <= 0 {
        Seq::empty()
    } else if chars[n - 1].is_notifying_report() {
        notifying_reports(chars, n - 1).push((n - 1) as usize)
    } else {
        notifying_reports(chars, n - 1)
    }
}

/// Picks the characteristics to write rumble to and those to subscribe to; one characteristic can
/// be both.
pub fn sort_characteristics(chars: &[Characteristic]) -> (r: (Vec<usize>, Vec<usize>))
    ensures
        r.0@ == writable_reports(chars@, chars@.len() as int),
        r.1@ == notifying_reports(chars@, chars@.len() as int),
{
    let mut writable: Vec<usize> = Vec::new();
    let mut notifying: Vec<usize> = Vec::new();
    let mut i: usize = 0;
    while i < chars.len()
        invariant
            i <= chars@.len(),
            writable@ == writable_reports(chars@, i as int),
            notifying@ == notifying_reports(chars@, i as int),
        decreases chars@.len() - i,
    {
        let c = chars[i];
        if c.is_report() {
            if c.can_write || c.can_write_no_response {
                writable.push(i);
            }
            if c.can_notify {
                notifying.push(i);
            }
        }
        i = i + 1;
    }
    (writable, notifying)
}

/// What the session does next.
#[derive(Debug)]
pub enum BlePhase {
    /// Scan for a device with an accepted name.
    Scan,
    /// Connect to the device found.
    Connect { name: String, addr: String },
    /// Try to bond and encrypt; the session goes on whatever comes of it.
    Secure { name: String, addr: String },
    /// Look up the HID service.
    FindService,
    /// Read the report map; the session goes on without it.
    ReadReportMap,
    /// List the characteristics of the HID service.
    ListCharacteristics,
    /// Subscribe to the characteristic `pending[done]`.
    Subscribe { pending: Vec<usize>, done: usize, writable: Vec<usize> },
    /// Look whether the link is still up.
    Poll { writable: Vec<usize> },
    /// Send a rumble to the writable characteristics.
    Rumble { writable: Vec<usize> },
    /// Wait for the polling interval.
    Idle { writable: Vec<usize> },
    /// Wait before the next session.
    Cooldown,
}

/// What came of a phase.
#[derive(Debug)]
pub enum BleEvent {
    /// The scan found a device; `name` is the advertised name as it came.
    Found { name: Vec<u8>, addr: String },
    Succeeded,
    Failed,
    /// Bonding was tried; it is `now_ms`.
    Secured { now_ms: u64 },
    ReportMap { map: Vec<u8> },
    Characteristics { chars: Vec<Characteristic> },
    Link { up: bool },
    Elapsed,
}

/// The contents of a [`BlePhase`].
pub enum PhaseView {
    Scan,
    Connect { name: Seq<char>, addr: Seq<char> },
    Secure { name: Seq<char>, addr: Seq<char> },
    FindService,
    ReadReportMap,
    ListCharacteristics,
    Subscribe { pending: Seq<usize>, done: int, writable: Seq<usize> },
    Poll { writable: Seq<usize> },
    Rumble { writable: Seq<usize> },
    Idle { writable: Seq<usize> },
    Cooldown,
}

impl View for BlePhase {
    type V = PhaseView;

    open spec fn view(&self) -> PhaseView {
        match *self {
            BlePhase::Scan => PhaseView::Scan,
            BlePhase::Connect { name, addr } => PhaseView::Connect { name: name@, addr: addr@ },
            BlePhase::Secure { name, addr } => PhaseView::Secure { name: name@, addr: addr@ },
            BlePhase::FindService => PhaseView::FindService,
            BlePhase::ReadReportMap => PhaseView::ReadReportMap,
            BlePhase::ListCharacteristics => PhaseView::ListCharacteristics,
            BlePhase::Subscribe { pending, done, writable } => PhaseView::Subscribe {
                pending: pending@,
                done: done as int,
                writable: writable@,
            },
            BlePhase::Poll { writable } => PhaseView::Poll { writable: writable@ },
            BlePhase::Rumble { writable } => PhaseView::Rumble { writable: writable@ },
            BlePhase::Idle { writable } => PhaseView::Idle { writable: writable@ },
            BlePhase::Cooldown => PhaseView::Cooldown,
        }
    }
}

/// A phase that the machine can be in: of the characteristics to subscribe to, one is left.
pub open spec fn phase_wf(p: PhaseView) -> bool {
    p matches PhaseView::Subscribe { pending, done, .. } ==> 0 <= done < pending.len()
}

/// Whether the event can come of the phase.
pub open spec fn expects(p: PhaseView, e: BleEvent) -> bool {
    match p {
        PhaseView::Scan => e is Found || e is Failed,
        PhaseView::Connect { .. } => e is Succeeded || e is Failed,
        PhaseView::Secure { .. } => e is Secured,
        PhaseView::FindService => e is Succeeded || e is Failed,
        PhaseView::ReadReportMap => e is ReportMap || e is Failed,
        PhaseView::ListCharacteristics => e is Characteristics || e is Failed,
        PhaseView::Subscribe { .. } => e is Succeeded || e is Failed,
        PhaseView::Poll { .. } => e is Link,
        PhaseView::Rumble { .. } => e is Succeeded || e is Failed,
        PhaseView::Idle { .. } => e is Elapsed,
        PhaseView::Cooldown => e is Elapsed,
    }
}

/// After all subscriptions: the number of writable characteristics is made known, and without a
/// single subscription the session ends.
pub open spec fn after_discovery(subscribed: int, writable: Seq<usize>, h: HandleView) -> (
    PhaseView,
    HandleView,
) {
    let counted = HandleView { writable_chars: (writable.len() % 256) as u8, ..h };
    if subscribed == 0 {
        (PhaseView::Cooldown, counted.ended())
    } else {
        (PhaseView::Poll { writable }, counted)
    }
}

/// The phase and the shared state after an event.
pub open spec fn ble_step(p: PhaseView, e: BleEvent, h: HandleView) -> (PhaseView, HandleView) {
    match (p, e) {
        (PhaseView::Scan, BleEvent::Found { name, addr }) => (
            PhaseView::Connect { name: lossy_text(name@), addr: addr@ },
            h,
        ),
        (PhaseView::Connect { name, addr }, BleEvent::Succeeded) => (
            PhaseView::Secure { name, addr },
            h,
        ),
        (PhaseView::Secure { name, addr }, BleEvent::Secured { now_ms }) => (
            PhaseView::FindService,
            HandleView {
                state: GamepadView {
                    connected: true,
                    name,
                    addr,
                    timestamp_ms: now_ms,
                    report: Seq::empty(),
                    report_map: Seq::empty(),
                },
                ..h
            },
        ),
        (PhaseView::FindService, BleEvent::Succeeded) => (PhaseView::ReadReportMap, h),
        (PhaseView::ReadReportMap, BleEvent::ReportMap { map }) => (
            PhaseView::ListCharacteristics,
            HandleView { state: GamepadView { report_map: map@, ..h.state }, ..h },
        ),
        (PhaseView::ReadReportMap, BleEvent::Failed) => (PhaseView::ListCharacteristics, h),
        (PhaseView::ListCharacteristics, BleEvent::Characteristics { chars }) => {
            let writable = writable_reports(chars@, chars@.len() as int);
            let pending = notifying_reports(chars@, chars@.len() as int);
            if pending.len() == 0 {
                after_discovery(0, writable, h)
            } else {
                (PhaseView::Subscribe { pending, done: 0, writable }, h)
            }
        },
        (PhaseView::Subscribe { pending, done, writable }, BleEvent::Succeeded) => if done + 1
            < pending.len() {
            (PhaseView::Subscribe { pending, done: done + 1, writable }, h)
        } else {
            after_discovery(pending.len() as int, writable, h)
        },
        (PhaseView::Poll { writable }, BleEvent::Link { up }) => if !up {
            (PhaseView::Cooldown, h.ended())
        } else if h.vibrate_request {
            (PhaseView::Rumble { writable }, HandleView { vibrate_request: false, ..h })
        } else {
            (PhaseView::Idle { writable }, h)
        },
        (PhaseView::Rumble { writable }, _) => (PhaseView::Idle { writable }, h),
        (PhaseView::Idle { writable }, _) => (PhaseView::Poll { writable }, h),
        (PhaseView::Cooldown, _) => (PhaseView::Scan, h),
        _ => (PhaseView::Cooldown, h.ended()),
    }
}

fn end_session(handle: &mut GamepadHandle) -> (r: BlePhase)
    ensures
        r@ == PhaseView::Cooldown,
        final(handle)@ == old(handle)@.ended(),
{
    handle.state.connected = false;
    handle.vibrate_request = false;
    handle.writable_chars = 0;
    BlePhase::Cooldown
}

fn finish_discovery(subscribed: usize, writable: Vec<usize>, handle: &mut GamepadHandle) -> (r:
    BlePhase)
    ensures
        (r@, final(handle)@) == after_discovery(subscribed as int, writable@, old(handle)@),
{
    handle.writable_chars = (writable.len() % 256) as u8;
    if subscribed == 0 {
        end_session(handle)
    } else {
        BlePhase::Poll { writable }
    }
}

/// Goes from one phase of the session to the next.
pub fn ble_next(phase: BlePhase, event: BleEvent, handle: &mut GamepadHandle) -> (r: BlePhase)
    requires
        phase_wf(phase@),
        expects(phase@, event),
    ensures
        (r@, final(handle)@) == ble_step(phase@, event, old(handle)@),
        phase_wf(r@),
{
    match (phase, event) {
        (BlePhase::Scan, BleEvent::Found { name, addr }) => {
            BlePhase::Connect { name: decode_lossy(&name), addr }
        },
        (BlePhase::Connect { name, addr }, BleEvent::Succeeded) => {
            BlePhase::Secure { name, addr }
        },
        (BlePhase::Secure { name, addr }, BleEvent::Secured { now_ms }) => {
            handle.state.connected = true;
            handle.state.name = name;
            handle.state.addr = addr;
            handle.state.timestamp_ms = now_ms;
            handle.state.report = Vec::new();
            handle.state.report_map = Vec::new();
            BlePhase::FindService
        },
        (BlePhase::FindService, BleEvent::Succeeded) => BlePhase::ReadReportMap,
        (BlePhase::ReadReportMap, BleEvent::ReportMap { map }) => {
            handle.state.report_map = map;
            BlePhase::ListCharacteristics
        },
        (BlePhase::ReadReportMap, BleEvent::Failed) => BlePhase::ListCharacteristics,
        (BlePhase::ListCharacteristics, BleEvent::Characteristics { chars }) => {
            let (writable, pending) = sort_characteristics(&chars);
            if pending.len() == 0 {
                finish_discovery(0, writable, handle)
            } else {
                BlePhase::Subscribe { pending, done: 0, writable }
            }
        },
        (BlePhase::Subscribe { pending, done, writable }, BleEvent::Succeeded) => {
            let count: usize = pending.len();
            if done + 1 < count {
                BlePhase::Subscribe { pending, done: done + 1, writable }
            } else {
                finish_discovery(count, writable, handle)
            }
        },
        (BlePhase::Poll { writable }, BleEvent::Link { up }) => {
            if !up {
                end_session(handle)
            } else if handle.vibrate_request {
                handle.vibrate_request = false;
                BlePhase::Rumble { writable }
            } else {
                BlePhase::Idle { writable }
            }
        },
        (BlePhase::Rumble { writable }, _) => BlePhase::Idle { writable },
        (BlePhase::Idle { writable }, _) => BlePhase::Poll { writable },
        (BlePhase::Cooldown, _) => BlePhase::Scan,
        _ => end_session(handle),
    }
}

/// Whether the shared state claims a connection exactly in the phases that have one.
pub open spec fn tells_the_truth(p: PhaseView, h: HandleView) -> bool {
    h.state.connected == !(p is Scan || p is Connect || p is Secure || p is Cooldown)
}

/// The dashboard reflects reality: a fresh handle tells the truth about the phase in which the
/// machine starts.
pub proof fn law_start_tells_the_truth(h: HandleView)
    requires
        h.state == super::unknown_gamepad(),
    ensures
        tells_the_truth(PhaseView::Scan, h),
{
}

/// The dashboard reflects reality: every step, every input report and every rumble request keeps
/// the claim of a connection true.
pub proof fn law_state_tells_the_truth(
    p: PhaseView,
    e: BleEvent,
    h: HandleView,
    data: Seq<u8>,
    now: u64,
)
    requires
        tells_the_truth(p, h),
    ensures
        expects(p, e) ==> tells_the_truth(ble_step(p, e, h).0, ble_step(p, e, h).1),
        tells_the_truth(p, h.with_report(data, now)),
        tells_the_truth(p, HandleView { vibrate_request: true, ..h }),
{
}

/// A session that ends leaves no claim of a connection, no pending rumble and no writable
/// characteristic, and the machine then scans again.
pub proof fn law_session_end_resets(p: PhaseView, e: BleEvent, h: HandleView)
    requires
        phase_wf(p),
        expects(p, e),
        ble_step(p, e, h).0 is Cooldown,
    ensures
        ({
            let after = ble_step(p, e, h).1;
            &&& !after.state.connected
            &&& !after.vibrate_request
            &&& after.writable_chars == 0
            &&& ble_step(PhaseView::Cooldown, BleEvent::Elapsed, after) == (PhaseView::Scan, after)
        }),
{
}

/// A failure ends the session, except where the session can do without: a report map that cannot
/// be read and a rumble that is refused.
pub proof fn law_failures_end_the_session(p: PhaseView, h: HandleView)
    requires
        expects(p, BleEvent::Failed),
    ensures
        ble_step(p, BleEvent::Failed, h).0 is Cooldown <==> !(p is ReadReportMap || p is Rumble),
{
}

/// A rumble request is served once: it starts one rumble and is then gone.
pub proof fn law_rumble_request_is_served_once(writable: Seq<usize>, h: HandleView)
    requires
        h.vibrate_request,
    ensures
        ({
            let (p1, h1) = ble_step(PhaseView::Poll { writable }, BleEvent::Link { up: true }, h);
            &&& p1 == PhaseView::Rumble { writable }
            &&& !h1.vibrate_request
            &&& h1.state == h.state
            &&& h1.writable_chars == h.writable_chars
        }),
{
}

/// Only reports are written to or subscribed to.
pub proof fn law_only_reports_are_used(c: Characteristic)
    requires
        c.is_writable_report() || c.is_notifying_report(),
    ensures
        c.uuid == Some(HID_REPORT_UUID),
{
}

proof fn lemma_notifying_is_kept(chars: Seq<Characteristic>, i: int, n: int)
    requires
        0 <= i < n <= usize::MAX,
        chars[i].is_notifying_report(),
    ensures
        notifying_reports(chars, n).contains(i as usize),
    decreases n,
{
    let all = notifying_reports(chars, n);
    if i == n - 1 {
        assert(all.last() == i as usize);
    } else {
        lemma_notifying_is_kept(chars, i, n - 1);
        let before = notifying_reports(chars, n - 1);
        let k = choose|k: int| 0 <= k < before.len() && before[k] == i as usize;
        assert(all[k] == i as usize);
    }
}

proof fn lemma_writable_is_kept(chars: Seq<Characteristic>, i: int, n: int)
    requires
        0 <= i < n <= usize::MAX,
        chars[i].is_writable_report(),
    ensures
        writable_reports(chars, n).contains(i as usize),
    decreases n,
{
    let all = writable_reports(chars, n);
    if i == n - 1 {
        assert(all.last() == i as usize);
    } else {
        lemma_writable_is_kept(chars, i, n - 1);
        let before = writable_reports(chars, n - 1);
        let k = choose|k: int| 0 <= k < before.len() && before[k] == i as usize;
        assert(all[k] == i as usize);
    }
}

/// Every report that notifies is subscribed to, one after the other, and every report that can be
/// written to is remembered for rumble; a report that does both is in both lists.
pub proof fn law_every_notifying_report_is_subscribed(
    chars: Vec<Characteristic>,
    h: HandleView,
    i: int,
)
    requires
        0 <= i < chars@.len() <= usize::MAX,
        chars@[i].is_notifying_report(),
    ensures
        ({
            let (p, _) = ble_step(
                PhaseView::ListCharacteristics,
                BleEvent::Characteristics { chars },
                h,
            );
            &&& p is Subscribe
            &&& p->Subscribe_done == 0
            &&& p->pending.contains(i as usize)
            &&& chars@[i].is_writable_report() ==> p->Subscribe_writable.contains(i as usize)
        }),
{
    lemma_notifying_is_kept(chars@, i, chars@.len() as int);
    if chars@[i].is_writable_report() {
        lemma_writable_is_kept(chars@, i, chars@.len() as int);
    }
}

/// A session comes up: a device that is found, connects, has the service and lists its
/// characteristics ends up connected under its name and address, with its report map and without
/// any input yet. The first of its notifying reports is then subscribed to.
pub proof fn law_session_comes_up(
    name: Vec<u8>,
    addr: String,
    now_ms: u64,
    map: Vec<u8>,
    chars: Vec<Characteristic>,
    h: HandleView,
)
    requires
        notifying_reports(chars@, chars@.len() as int).len() > 0,
    ensures
        ({
            let (p1, h1) = ble_step(PhaseView::Scan, BleEvent::Found { name, addr }, h);
            let (p2, h2) = ble_step(p1, BleEvent::Succeeded, h1);
            let (p3, h3) = ble_step(p2, BleEvent::Secured { now_ms }, h2);
            let (p4, h4) = ble_step(p3, BleEvent::Succeeded, h3);
            let (p5, h5) = ble_step(p4, BleEvent::ReportMap { map }, h4);
            let (p6, h6) = ble_step(p5, BleEvent::Characteristics { chars }, h5);
            &&& p1 == (PhaseView::Connect { name: lossy_text(name@), addr: addr@ })
            &&& p2 == (PhaseView::Secure { name: lossy_text(name@), addr: addr@ })
            &&& p3 == PhaseView::FindService
            &&& p4 == PhaseView::ReadReportMap
            &&& p5 == PhaseView::ListCharacteristics
            &&& p6 is Subscribe
            &&& p6->Subscribe_done == 0
            &&& h2 == h
            &&& h6.state.connected
            &&& h6.state.name == lossy_text(name@)
            &&& h6.state.addr == addr@
            &&& h6.state.timestamp_ms == now_ms
            &&& h6.state.report.len() == 0
            &&& h6.state.report_map == map@
            &&& h6.vibrate_request == h.vibrate_request
            &&& h6.writable_chars == h.writable_chars
        }),
{
}

/// A report map that cannot be read is done without: none is known, and the session goes on.
pub proof fn law_session_does_without_the_map(h: HandleView)
    ensures
        ble_step(PhaseView::ReadReportMap, BleEvent::Failed, h) == (
            PhaseView::ListCharacteristics,
            h,
        ),
{
}

/// All notifying reports are subscribed to, in order; with the last of them the session is up, and
/// the number of writable reports is known in eight bits.
pub proof fn law_every_report_has_its_turn(
    pending: Seq<usize>,
    done: int,
    writable: Seq<usize>,
    h: HandleView,
)
    requires
        0 <= done < pending.len(),
    ensures
        ({
            let here = PhaseView::Subscribe { pending, done, writable };
            let (p, after) = ble_step(here, BleEvent::Succeeded, h);
            &&& done + 1 < pending.len() ==> p == (PhaseView::Subscribe {
                pending,
                done: done + 1,
                writable,
            }) && after == h
            &&& done + 1 == pending.len() ==> p == (PhaseView::Poll { writable })
            &&& done + 1 == pending.len() && writable.len() < 256 ==> after.writable_chars
                == writable.len()
            &&& done + 1 == pending.len() ==> (writable.len() - after.writable_chars) % 256 == 0
            &&& after.state == h.state
            &&& after.vibrate_request == h.vibrate_request
        }),
{
}

/// A device without a notifying report is left: the session ends.
pub proof fn law_silent_device_is_left(chars: Vec<Characteristic>, h: HandleView)
    requires
        forall|i: int|
            0 <= i < chars@.len() ==> !(#[trigger] chars@[i]).can_notify || chars@[i].uuid != Some(
                0x2A4Du16,
            ),
    ensures
        ({
            let (p, after) = ble_step(
                PhaseView::ListCharacteristics,
                BleEvent::Characteristics { chars },
                h,
            );
            p == PhaseView::Cooldown && !after.state.connected
        }),
{
    lemma_none_notifies(chars@, chars@.len() as int);
}

proof fn lemma_none_notifies(chars: Seq<Characteristic>, n: int)
    requires
        0 <= n <= chars.len(),
        forall|i: int|
            0 <= i < chars.len() ==> !(#[trigger] chars[i]).can_notify || chars[i].uuid != Some(
                0x2A4Du16,
            ),
    ensures
        notifying_reports(chars, n).len() == 0,
    decreases n,
{
    if n > 0 {
        assert(!chars[n - 1].can_notify || chars[n - 1].uuid != Some(0x2A4Du16));
        lemma_none_notifies(chars, n - 1);
    }
}

/// What makes a report writable, and what makes it notifying.
pub proof fn law_reports_by_their_properties(c: Characteristic)
    ensures
        c.is_notifying_report() <==> c.uuid == Some(0x2A4Du16) && c.can_notify,
        c.is_writable_report() <==> c.uuid == Some(0x2A4Du16) && (c.can_write
            || c.can_write_no_response),
{
}

/// The two lists hold each report once, in the order of the characteristics, and nothing else.
pub proof fn law_lists_are_in_order(chars: Seq<Characteristic>, n: int, i: int, j: int)
    requires
        0 <= n <= chars.len() <= usize::MAX,
    ensures
        0 <= i < j < notifying_reports(chars, n).len() ==> notifying_reports(chars, n)[i]
            < notifying_reports(chars, n)[j],
        0 <= i < j < writable_reports(chars, n).len() ==> writable_reports(chars, n)[i]
            < writable_reports(chars, n)[j],
        0 <= i < notifying_reports(chars, n).len() ==> notifying_reports(chars, n)[i] < n
            && chars[notifying_reports(chars, n)[i] as int].is_notifying_report(),
        0 <= i < writable_reports(chars, n).len() ==> writable_reports(chars, n)[i] < n
            && chars[writable_reports(chars, n)[i] as int].is_writable_report(),
    decreases n,
{
    if n > 0 {
        law_lists_are_in_order(chars, n - 1, i, j);
        law_lists_are_in_order(chars, n - 1, i, i);
    }
}

/// A session that is up looks after its link: it goes on while the link is up, and ends when the
/// link is lost. Neither the input nor the name changes by looking.
pub proof fn law_session_looks_after_its_link(writable: Seq<usize>, h: HandleView, event: BleEvent)
    ensures
        ({
            let poll = PhaseView::Poll { writable };
            let idle = PhaseView::Idle { writable };
            &&& !h.vibrate_request ==> ble_step(poll, BleEvent::Link { up: true }, h) == (idle, h)
            &&& ble_step(idle, BleEvent::Elapsed, h) == (poll, h)
            &&& ble_step(PhaseView::Rumble { writable }, event, h) == (idle, h)
            &&& ble_step(poll, BleEvent::Link { up: false }, h).0 == PhaseView::Cooldown
            &&& ble_step(PhaseView::Cooldown, BleEvent::Elapsed, h) == (PhaseView::Scan, h)
        }),
{
}

/// The end of a session leaves what was last known of the gamepad as it is, but for the claim of a
/// connection.
pub proof fn law_session_end_keeps_what_is_known(p: PhaseView, e: BleEvent, h: HandleView)
    requires
        expects(p, e),
        ble_step(p, e, h).0 is Cooldown,
    ensures
        ble_step(p, e, h).1.state == (GamepadView { connected: false, ..h.state }),
{
}

/// Every report that can be written to is remembered for rumble, whether or not it notifies.
pub proof fn law_every_writable_report_is_remembered(
    chars: Vec<Characteristic>,
    h: HandleView,
    i: int,
    j: int,
)
    requires
        0 <= i < chars@.len() <= usize::MAX,
        0 <= j < chars@.len(),
        chars@[i].is_notifying_report(),
        chars@[j].is_writable_report(),
    ensures
        ({
            let (p, after) = ble_step(
                PhaseView::ListCharacteristics,
                BleEvent::Characteristics { chars },
                h,
            );
            p is Subscribe && p->Subscribe_writable.contains(j as usize) && after == h
        }),
{
    lemma_notifying_is_kept(chars@, i, chars@.len() as int);
    lemma_writable_is_kept(chars@, j, chars@.len() as int);
}

} // verus!
