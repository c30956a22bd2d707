//! Rumble over BLE: which payloads are written to which characteristics, and in which order.

use vstd::prelude::*;

verus! {

/// How many payload formats there are.
pub const PAYLOAD_COUNT: usize = 4;

/// How many writes there are to try on one characteristic: each payload with a response and
/// without.
pub const WRITE_COUNT: usize = 8;

/// The payload formats, in the order in which they are tried: the eight-byte Xbox report, and for
/// characteristics that refuse it a strong and a weak intensity, the same between a duration and a
/// spare byte, and a typed intensity.
pub open spec fn payload_bytes(i: int) -> Seq<u8> {
    if i == 0 {
        seq![0x0Fu8, 0, 0, 80, 80, 100, 0, 0]
    } else if i == 1 {
        seq![0xFFu8, 0xFF]
    } else if i == 2 {
        seq![0x00u8, 0xFF, 0xFF, 0x00]
    } else {
        seq![0x03u8, 0xFF]
    }
}

/// The payload with the given number.
pub fn payload(i: usize) -> (r: Vec<u8>)
    requires
        i < PAYLOAD_COUNT,
    ensures
        r@ == payload_bytes(i as int),
{
    let r: Vec<u8> = if i == 0 {
        vec![0x0F, 0, 0, 80, 80, 100, 0, 0]
    } else if i == 1 {
        vec![0xFF, 0xFF]
    } else if i == 2 {
        vec![0x00, 0xFF, 0xFF, 0x00]
    } else {
        vec![0x03, 0xFF]
    };
    assert(r@ =~= payload_bytes(i as int));
    r
}

/// One write to try.
#[derive(Clone, Copy, PartialEq, Eq, Structural, Debug)]
pub struct Attempt {
    pub characteristic: usize,
    pub payload: usize,
    pub with_response: bool,
}

/// How a characteristic can be written to.
#[derive(Clone, Copy, PartialEq, Eq, Structural, Debug)]
pub struct WriteModes {
    pub can_write: bool,
    pub can_write_no_response: bool,
}

impl WriteModes {
    /// Whether the characteristic can be written to at all.
    pub open spec fn writable(self) -> bool {
        self.can_write || self.can_write_no_response
    }

    /// Whether the characteristic can be written to in the way of its `n`-th write.
    pub open spec fn allows(self, n: int) -> bool {
        if n % 2 == 0 {
            self.can_write
        } else {
            self.can_write_no_response
        }
    }

    /// The number of the first write from the `n`-th on that is possible; `WRITE_COUNT` where none
    /// is.
    pub open spec fn next_write(self, n: int) -> int
        decreases WRITE_COUNT - n,
    {
        if n >= WRITE_COUNT {
            WRITE_COUNT as int
        } else if self.allows(n) {
            n
        } else {
            self.next_write(n + 1)
        }
    }
}

/// The `n`-th write on characteristic `c`: the payloads in their order, each with a response first
/// and then without.
pub open spec fn attempt(c: int, n: int) -> Attempt {
    Attempt { characteristic: c as usize, payload: (n / 2) as usize, with_response: n % 2 == 0 }
}

impl Attempt {
    /// The number of the write among those on its characteristic.
    pub open spec fn number(self) -> int {
        2 * self.payload + if self.with_response {
            0int
        } else {
            1int
        }
    }

    /// Whether this is a write on one of the given characteristics, with one of the payloads.
    pub open spec fn wf(self, modes: Seq<WriteModes>) -> bool {
        self.characteristic < modes.len() && self.payload < PAYLOAD_COUNT
    }
}

/// How sending a rumble goes on.
#[derive(Clone, Copy, PartialEq, Eq, Structural, Debug)]
pub enum RumbleStep {
    /// Try this write; `accepted` tells whether an earlier one was accepted.
    Try { attempt: Attempt, accepted: bool },
    /// Some write was accepted, or there is nothing to write to.
    Done,
    /// All writes were refused.
    Refused,
}

/// The step that goes on with the `n`-th write on characteristic `c`. Where no write is left, the
/// rumble is done if some write was accepted or there was nothing to write to.
pub open spec fn step_from(
    modes: Seq<WriteModes>,
    c: int,
    n: int,
    accepted: bool,
) -> RumbleStep
    decreases modes.len() - c,
{
    if c >= modes.len() {
        if accepted || modes.len() == 0 {
            RumbleStep::Done
        } else {
            RumbleStep::Refused
        }
    } else {
        let k = modes[c].next_write(n);
        if k < WRITE_COUNT {
            RumbleStep::Try { attempt: attempt(c, k), accepted }
        } else {
            step_from(modes, c + 1, 0, accepted)
        }
    }
}

/// The first step.
pub open spec fn rumble_start(modes: Seq<WriteModes>) -> RumbleStep {
    step_from(modes, 0, 0, false)
}

/// The step after a write: one that was accepted ends the writes on its characteristic, one that
/// was refused is followed by the next on the same characteristic.
pub open spec fn rumble_next(
    modes: Seq<WriteModes>,
    tried: Attempt,
    before: bool,
    accepted: bool,
) -> RumbleStep {
    if accepted {
        step_from(modes, tried.characteristic + 1, 0, true)
    } else {
        step_from(modes, tried.characteristic as int, tried.number() + 1, before)
    }
}

fn next_write(m: WriteModes, from: usize) -> (r: usize)
    requires
        from <= WRITE_COUNT,
    ensures
        r == m.next_write(from as int),
        from <= r <= WRITE_COUNT,
{
    let mut n: usize = from;
    while n < WRITE_COUNT
        invariant_except_break
            from <= n <= WRITE_COUNT,
            m.next_write(n as int) == m.next_write(from as int),
        ensures
            from <= n <= WRITE_COUNT,
            n == m.next_write(from as int),
        decreases WRITE_COUNT - n,
    {
        let allowed = if n % 2 == 0 {
            m.can_write
        } else {
            m.can_write_no_response
        };
        if allowed {
            break;
        }
        n = n + 1;
    }
    n
}

fn find_step(modes: &[WriteModes], characteristic: usize, number: usize, accepted: bool) -> (r:
    RumbleStep)
    requires
        characteristic <= modes@.len(),
        number <= WRITE_COUNT,
    ensures
        r == step_from(modes@, characteristic as int, number as int, accepted),
        r matches RumbleStep::Try { attempt, .. } ==> attempt.wf(modes@),
{
    let mut c: usize = characteristic;
    let mut from: usize = number;
    while c < modes.len()
        invariant
            c <= modes@.len(),
            from <= WRITE_COUNT,
            step_from(modes@, c as int, from as int, accepted) == step_from(
                modes@,
                characteristic as int,
                number as int,
                accepted,
            ),
        decreases modes@.len() - c,
    {
        let n: usize = next_write(modes[c], from);
        if n < WRITE_COUNT {
            let attempt = Attempt { characteristic: c, payload: n / 2, with_response: n % 2 == 0 };
            return RumbleStep::Try { attempt, accepted };
        }
        c = c + 1;
        from = 0;
    }
    if accepted || modes.len() == 0 {
        RumbleStep::Done
    } else {
        RumbleStep::Refused
    }
}

/// The first step of a rumble on the given characteristics.
pub fn first_rumble_step(modes: &[WriteModes]) -> (r: RumbleStep)
    ensures
        r == rumble_start(modes@),
        r matches RumbleStep::Try { attempt, .. } ==> attempt.wf(modes@),
{
    find_step(modes, 0, 0, false)
}

/// The step after the write `tried` was accepted or refused; `before` tells whether an earlier one
/// was accepted.
pub fn next_rumble_step(
    modes: &[WriteModes],
    tried: Attempt,
    before: bool,
    accepted: bool,
) -> (r: RumbleStep)
    requires
        tried.wf(modes@),
    ensures
        r == rumble_next(modes@, tried, before, accepted),
        r matches RumbleStep::Try { attempt, .. } ==> attempt.wf(modes@),
{
    let count: usize = modes.len();
    assert(tried.characteristic < count);
    if accepted {
        find_step(modes, tried.characteristic + 1, 0, true)
    } else {
        let number: usize = 2 * tried.payload + if tried.with_response {
            0
        } else {
            1
        };
        find_step(modes, tried.characteristic, number + 1, before)
    }
}

/// The step after answers to the writes, in order; `true` stands for a write that was accepted.
pub open spec fn rumble_after(modes: Seq<WriteModes>, answers: Seq<bool>) -> RumbleStep
    decreases answers.len(),
{
    if answers.len() == 0 {
        rumble_start(modes)
    } else {
        match rumble_after(modes, answers.drop_last()) {
            RumbleStep::Try { attempt, accepted } => rumble_next(
                modes,
                attempt,
                accepted,
                answers.last(),
            ),
            step => step,
        }
    }
}

/// The first write on a characteristic that can be written to.
pub open spec fn first_attempt(modes: Seq<WriteModes>, c: int) -> Attempt {
    Attempt { characteristic: c as usize, payload: 0, with_response: modes[c].can_write }
}

/// Whether each answer is one to a write that was made.
pub open spec fn all_are_answers(modes: Seq<WriteModes>, answers: Seq<bool>) -> bool {
    forall|i: int|
        0 <= i < answers.len() ==> #[trigger] rumble_after(modes, answers.take(i)) is Try
}

/// Whether the write was made on the way to the answers, or is the one that is to be made next.
pub open spec fn is_made(modes: Seq<WriteModes>, answers: Seq<bool>, a: Attempt) -> bool {
    exists|i: int|
        0 <= i <= answers.len() && (#[trigger] rumble_after(modes, answers.take(i)) matches
            RumbleStep::Try { attempt, .. } && attempt == a)
}

proof fn lemma_next_write(m: WriteModes, n: int)
    requires
        0 <= n <= WRITE_COUNT,
    ensures
        n <= m.next_write(n) <= WRITE_COUNT,
        m.next_write(n) < WRITE_COUNT ==> m.allows(m.next_write(n)),
        n == 0 && m.writable() ==> m.next_write(n) == if m.can_write {
            0int
        } else {
            1int
        },
    decreases WRITE_COUNT - n,
{
    if n < WRITE_COUNT {
        lemma_next_write(m, n + 1);
        if n == 0 {
            reveal_with_fuel(WriteModes::next_write, 3);
        }
    }
}

/// Where the search for the next write ends: the characteristics that it passes over cannot be
/// written to.
proof fn lemma_step_from(modes: Seq<WriteModes>, c: int, n: int, accepted: bool)
    requires
        0 <= c <= modes.len() <= usize::MAX,
        0 <= n <= WRITE_COUNT,
    ensures
        match step_from(modes, c, n, accepted) {
            RumbleStep::Try { attempt: a, accepted: before } => {
                &&& a.wf(modes)
                &&& before == accepted
                &&& c <= a.characteristic
                &&& a.characteristic == c ==> n <= a.number()
                &&& modes[a.characteristic as int].allows(a.number())
                &&& a == attempt(a.characteristic as int, a.number())
                &&& a.characteristic > c ==> a == first_attempt(modes, a.characteristic as int)
                &&& n == 0 ==> a == first_attempt(modes, a.characteristic as int)
                &&& forall|k: int|
                    c < k < a.characteristic ==> !(#[trigger] modes[k]).writable()
                &&& n == 0 && c < a.characteristic ==> !modes[c].writable()
            },
            RumbleStep::Done => {
                &&& accepted || modes.len() == 0
                &&& forall|k: int| c < k < modes.len() ==> !(#[trigger] modes[k]).writable()
                &&& n == 0 && c < modes.len() ==> !modes[c].writable()
            },
            RumbleStep::Refused => {
                &&& !accepted
                &&& modes.len() > 0
                &&& forall|k: int| c < k < modes.len() ==> !(#[trigger] modes[k]).writable()
                &&& n == 0 && c < modes.len() ==> !modes[c].writable()
            },
        },
    decreases modes.len() - c,
{
    if c < modes.len() {
        lemma_next_write(modes[c], n);
        lemma_next_write(modes[c], 0);
        let k = modes[c].next_write(n);
        if k >= WRITE_COUNT {
            lemma_step_from(modes, c + 1, 0, accepted);
        }
    }
}

/// What comes before the last answer: the write that it answers, and answers to earlier writes.
proof fn lemma_before_the_last(modes: Seq<WriteModes>, answers: Seq<bool>)
    requires
        all_are_answers(modes, answers),
        answers.len() > 0,
    ensures
        all_are_answers(modes, answers.drop_last()),
        rumble_after(modes, answers.drop_last()) is Try,
        answers.contains(true) == (answers.drop_last().contains(true) || answers.last()),
{
    let before = answers.drop_last();
    assert(answers.take(answers.len() - 1) =~= before);
    assert(rumble_after(modes, answers.take(answers.len() - 1)) is Try);
    assert forall|i: int| 0 <= i < before.len() implies #[trigger] rumble_after(
        modes,
        before.take(i),
    ) is Try by {
        assert(before.take(i) =~= answers.take(i));
        assert(rumble_after(modes, answers.take(i)) is Try);
    }
    if before.contains(true) {
        let i = choose|i: int| 0 <= i < before.len() && before[i] == true;
        assert(answers[i]);
    }
    if answers.contains(true) && !answers.last() {
        let i = choose|i: int| 0 <= i < answers.len() && answers[i] == true;
        assert(before[i]);
    }
    if answers.last() {
        assert(answers[answers.len() - 1]);
    }
}

/// A write that was made stays made.
proof fn lemma_stays_made(modes: Seq<WriteModes>, answers: Seq<bool>, a: Attempt)
    requires
        answers.len() > 0,
        is_made(modes, answers.drop_last(), a),
    ensures
        is_made(modes, answers, a),
{
    let before = answers.drop_last();
    let i = choose|i: int|
        0 <= i <= before.len() && (#[trigger] rumble_after(modes, before.take(i)) matches
            RumbleStep::Try { attempt, .. } && attempt == a);
    assert(before.take(i) =~= answers.take(i));
    assert(rumble_after(modes, answers.take(i)) is Try);
}

/// The write that is to be made next counts as made.
proof fn lemma_next_is_made(modes: Seq<WriteModes>, answers: Seq<bool>)
    requires
        rumble_after(modes, answers) is Try,
    ensures
        is_made(modes, answers, rumble_after(modes, answers)->attempt),
{
    let last = answers.len() as int;
    assert(answers.take(last) =~= answers);
    assert(rumble_after(modes, answers.take(last)) is Try);
}

/// How far the writes have come: up to and with this characteristic.
spec fn reached(modes: Seq<WriteModes>, answers: Seq<bool>) -> int {
    match rumble_after(modes, answers) {
        RumbleStep::Try { attempt, .. } => attempt.characteristic as int,
        _ => modes.len() - 1,
    }
}

proof fn lemma_run_state(modes: Seq<WriteModes>, answers: Seq<bool>)
    requires
        modes.len() <= usize::MAX,
        all_are_answers(modes, answers),
    ensures
        match rumble_after(modes, answers) {
            RumbleStep::Try { attempt: a, accepted } => a.wf(modes) && accepted
                == answers.contains(true),
            RumbleStep::Done => modes.len() == 0 || answers.contains(true),
            RumbleStep::Refused => modes.len() > 0 && !answers.contains(true),
        },
    decreases answers.len(),
{
    if answers.len() == 0 {
        lemma_step_from(modes, 0, 0, false);
    } else {
        let before = answers.drop_last();
        lemma_before_the_last(modes, answers);
        lemma_run_state(modes, before);
        let a = rumble_after(modes, before)->attempt;
        if answers.last() {
            lemma_step_from(modes, a.characteristic + 1, 0, true);
        } else {
            let heard = rumble_after(modes, before)->accepted;
            lemma_step_from(modes, a.characteristic as int, a.number() + 1, heard);
        }
    }
}

proof fn lemma_reached_are_written(modes: Seq<WriteModes>, answers: Seq<bool>, c: int)
    requires
        modes.len() <= usize::MAX,
        all_are_answers(modes, answers),
        0 <= c <= reached(modes, answers),
        c < modes.len(),
        modes[c].writable(),
    ensures
        is_made(modes, answers, first_attempt(modes, c)),
    decreases answers.len(),
{
    let now = rumble_after(modes, answers);
    if now is Try {
        lemma_next_is_made(modes, answers);
    }
    if answers.len() == 0 {
        lemma_step_from(modes, 0, 0, false);
    } else {
        let before = answers.drop_last();
        lemma_before_the_last(modes, answers);
        lemma_run_state(modes, before);
        let a = rumble_after(modes, before)->attempt;
        if c <= a.characteristic {
            lemma_reached_are_written(modes, before, c);
            lemma_stays_made(modes, answers, first_attempt(modes, c));
        } else if answers.last() {
            lemma_step_from(modes, a.characteristic + 1, 0, true);
        } else {
            let heard = rumble_after(modes, before)->accepted;
            lemma_step_from(modes, a.characteristic as int, a.number() + 1, heard);
        }
    }
}

/// The eight-byte report goes to every characteristic that can be written to, whatever the answers
/// are: once no write is left, it has been written to each of them.
pub proof fn law_every_characteristic_gets_the_report(
    modes: Seq<WriteModes>,
    answers: Seq<bool>,
    c: int,
)
    requires
        modes.len() <= usize::MAX,
        all_are_answers(modes, answers),
        !(rumble_after(modes, answers) is Try),
        0 <= c < modes.len(),
        modes[c].writable(),
    ensures
        is_made(modes, answers, first_attempt(modes, c)),
        payload_bytes(first_attempt(modes, c).payload as int) == seq![
            0x0Fu8,
            0,
            0,
            80,
            80,
            100,
            0,
            0,
        ],
{
    lemma_reached_are_written(modes, answers, c);
}

/// A rumble is done exactly where there was nothing to write to or some write was accepted, and is
/// refused otherwise.
pub proof fn law_rumble_is_done_when_accepted(modes: Seq<WriteModes>, answers: Seq<bool>)
    requires
        modes.len() <= usize::MAX,
        all_are_answers(modes, answers),
        !(rumble_after(modes, answers) is Try),
    ensures
        rumble_after(modes, answers) is Done <==> modes.len() == 0 || answers.contains(true),
        rumble_after(modes, answers) is Refused <==> modes.len() > 0 && !answers.contains(true),
{
    lemma_run_state(modes, answers);
}

/// Where every write is accepted, each characteristic gets one write, that of the eight-byte
/// report, in their order, and the rumble is done.
pub proof fn law_accepted_report_is_written_once(modes: Seq<WriteModes>, answers: Seq<bool>)
    requires
        modes.len() <= usize::MAX,
        answers.len() <= modes.len(),
        forall|c: int| 0 <= c < modes.len() ==> (#[trigger] modes[c]).writable(),
        forall|i: int| 0 <= i < answers.len() ==> #[trigger] answers[i],
    ensures
        answers.len() < modes.len() ==> rumble_after(modes, answers) == (RumbleStep::Try {
            attempt: first_attempt(modes, answers.len() as int),
            accepted: answers.len() > 0,
        }),
        answers.len() == modes.len() ==> rumble_after(modes, answers) == RumbleStep::Done,
    decreases answers.len(),
{
    let n = answers.len() as int;
    if n > 0 {
        law_accepted_report_is_written_once(modes, answers.drop_last());
        assert(answers[n - 1]);
    }
    if n < modes.len() {
        assert(modes[n].writable());
        lemma_next_write(modes[n], 0);
    }
}

proof fn lemma_progress(modes: Seq<WriteModes>, answers: Seq<bool>)
    requires
        modes.len() <= usize::MAX,
        all_are_answers(modes, answers),
    ensures
        match rumble_after(modes, answers) {
            RumbleStep::Try { attempt: a, .. } => a.wf(modes) && answers.len() <= WRITE_COUNT
                * a.characteristic + a.number(),
            _ => answers.len() <= WRITE_COUNT * modes.len(),
        },
    decreases answers.len(),
{
    if answers.len() == 0 {
        lemma_step_from(modes, 0, 0, false);
    } else {
        let before = answers.drop_last();
        lemma_before_the_last(modes, answers);
        lemma_progress(modes, before);
        let a = rumble_after(modes, before)->attempt;
        let heard = rumble_after(modes, before)->accepted;
        if answers.last() {
            lemma_step_from(modes, a.characteristic + 1, 0, true);
        } else {
            lemma_step_from(modes, a.characteristic as int, a.number() + 1, heard);
        }
    }
}

/// A rumble ends: no more writes are made than there are payloads and ways to write them on all
/// characteristics together.
pub proof fn law_rumble_ends(modes: Seq<WriteModes>, answers: Seq<bool>)
    requires
        modes.len() <= usize::MAX,
        all_are_answers(modes, answers),
    ensures
        answers.len() <= WRITE_COUNT * modes.len(),
        answers.len() == WRITE_COUNT * modes.len() ==> !(rumble_after(modes, answers) is Try),
{
    lemma_progress(modes, answers);
}

/// `n` refusals.
pub open spec fn refusals(n: nat) -> Seq<bool> {
    Seq::new(n, |i: int| false)
}

proof fn lemma_refused(modes: Seq<WriteModes>, c: int, n: int) -> (count: nat)
    requires
        0 <= c < modes.len() <= usize::MAX,
        0 <= n <= WRITE_COUNT,
    ensures
        rumble_after(modes, refusals(count)) == step_from(modes, c, n, false),
    decreases c, n,
{
    if n > 0 {
        let count = lemma_refused(modes, c, n - 1);
        if modes[c].allows(n - 1) {
            assert(refusals(count + 1).drop_last() =~= refusals(count));
            assert(attempt(c, n - 1).number() == n - 1);
            count + 1
        } else {
            count
        }
    } else if c > 0 {
        lemma_refused(modes, c - 1, WRITE_COUNT as int)
    } else {
        0
    }
}

/// A characteristic that refuses is offered every payload, in each way in which it can be written
/// to, and when all characteristics refuse everything the rumble is refused.
pub proof fn law_every_payload_is_tried(modes: Seq<WriteModes>, tried: Attempt)
    requires
        modes.len() <= usize::MAX,
        tried.wf(modes),
        modes[tried.characteristic as int].allows(tried.number()),
    ensures
        exists|n: nat| #[trigger]
            rumble_after(modes, refusals(n)) == (RumbleStep::Try {
                attempt: tried,
                accepted: false,
            }),
        exists|n: nat| #[trigger] rumble_after(modes, refusals(n)) == RumbleStep::Refused,
{
    let n = lemma_refused(modes, tried.characteristic as int, tried.number());
    assert(rumble_after(modes, refusals(n)) == (RumbleStep::Try {
        attempt: tried,
        accepted: false,
    }));
    let end = lemma_refused(modes, modes.len() - 1, WRITE_COUNT as int);
    assert(step_from(modes, modes.len() as int, 0, false) == RumbleStep::Refused);
    assert(rumble_after(modes, refusals(end)) == RumbleStep::Refused);
}

/// A characteristic is only written to in a way that it allows, and never twice in the same way
/// with the same payload: the writes go on from one characteristic, payload and way to the next.
pub proof fn law_writes_are_allowed_and_go_on(
    modes: Seq<WriteModes>,
    tried: Attempt,
    before: bool,
    accepted: bool,
)
    requires
        modes.len() <= usize::MAX,
        tried.wf(modes),
    ensures
        rumble_next(modes, tried, before, accepted) matches RumbleStep::Try {
            attempt: next,
            accepted: told,
        } ==> {
            &&& next.with_response ==> modes[next.characteristic as int].can_write
            &&& !next.with_response ==> modes[next.characteristic as int].can_write_no_response
            &&& told == (before || accepted)
            &&& accepted ==> next.characteristic > tried.characteristic
            &&& next.characteristic >= tried.characteristic
            &&& next.characteristic == tried.characteristic ==> next.payload > tried.payload || (
            next.payload == tried.payload && tried.with_response && !next.with_response)
        },
        rumble_start(modes) matches RumbleStep::Try { attempt: first, accepted: told } ==> {
            &&& first.with_response ==> modes[first.characteristic as int].can_write
            &&& !first.with_response ==> modes[first.characteristic as int].can_write_no_response
            &&& !told
        },
{
    lemma_step_from(modes, 0, 0, false);
    if accepted {
        lemma_step_from(modes, tried.characteristic + 1, 0, true);
    } else {
        lemma_step_from(modes, tried.characteristic as int, tried.number() + 1, before);
    }
}

/// Where a write that is possible was refused, the next one on the same characteristic is tried: a
/// payload that was refused with a response is offered without one, and otherwise the next payload
/// is, whatever other characteristics answered before.
pub proof fn law_refused_write_is_followed_by_the_next(
    modes: Seq<WriteModes>,
    c: usize,
    payload: usize,
    before: bool,
)
    requires
        c < modes.len() <= usize::MAX,
        payload < 4,
        modes[c as int].can_write || modes[c as int].can_write_no_response,
    ensures
        ({
            let m = modes[c as int];
            let with = |p: usize| Attempt { characteristic: c, payload: p, with_response: true };
            let without = |p: usize|
                Attempt { characteristic: c, payload: p, with_response: false };
            let next = (payload + 1) as usize;
            &&& m.can_write_no_response ==> rumble_next(modes, with(payload), before, false) == (
            RumbleStep::Try { attempt: without(payload), accepted: before })
            &&& payload < 3 && !m.can_write_no_response ==> rumble_next(
                modes,
                with(payload),
                before,
                false,
            ) == (RumbleStep::Try { attempt: with(next), accepted: before })
            &&& payload < 3 && m.can_write ==> rumble_next(modes, without(payload), before, false)
                == (RumbleStep::Try { attempt: with(next), accepted: before })
            &&& payload < 3 && !m.can_write ==> rumble_next(modes, without(payload), before, false)
                == (RumbleStep::Try { attempt: without(next), accepted: before })
        }),
{
    let m = modes[c as int];
    reveal_with_fuel(WriteModes::next_write, 3);
    let n = 2 * payload;
    assert(m.can_write_no_response ==> m.next_write(n + 1) == n + 1);
    assert(m.can_write && payload < 3 ==> m.next_write(n + 2) == n + 2);
    assert(!m.can_write && payload < 3 ==> m.next_write(n + 2) == n + 3);
    assert(!m.can_write_no_response && payload < 3 ==> m.next_write(n + 1) == n + 2);
    assert(attempt(c as int, n + 1).payload == payload);
    assert(attempt(c as int, n + 2).payload == payload + 1);
    assert(attempt(c as int, n + 3).payload == payload + 1);
}

/// An accepted write, and the last one that was refused, are followed by the first on the next
/// characteristic that can be written to; where none is left the rumble is done if one was
/// accepted, and is refused otherwise.
pub proof fn law_next_characteristic_follows(
    modes: Seq<WriteModes>,
    tried: Attempt,
    before: bool,
    c: int,
)
    requires
        modes.len() <= usize::MAX,
        tried.wf(modes),
        tried.characteristic < c <= modes.len(),
        forall|k: int| tried.characteristic < k < c ==> !(#[trigger] modes[k]).writable(),
        c < modes.len() ==> modes[c].writable(),
    ensures
        c < modes.len() ==> rumble_next(modes, tried, before, true) == (RumbleStep::Try {
            attempt: Attempt {
                characteristic: c as usize,
                payload: 0,
                with_response: modes[c].can_write,
            },
            accepted: true,
        }),
        c == modes.len() ==> rumble_next(modes, tried, before, true) == RumbleStep::Done,
        ({
            let last = Attempt {
                payload: 3,
                with_response: !modes[tried.characteristic as int].can_write_no_response,
                ..tried
            };
            let step = rumble_next(modes, last, before, false);
            &&& c < modes.len() ==> step == (RumbleStep::Try {
                attempt: Attempt {
                    characteristic: c as usize,
                    payload: 0,
                    with_response: modes[c].can_write,
                },
                accepted: before,
            })
            &&& c == modes.len() && before ==> step == RumbleStep::Done
            &&& c == modes.len() && !before ==> step == RumbleStep::Refused
        }),
{
    let t = tried.characteristic as int;
    lemma_skips_to(modes, t + 1, c, true);
    lemma_skips_to(modes, t + 1, c, before);
    reveal_with_fuel(WriteModes::next_write, 3);
    assert(!modes[t].can_write_no_response ==> modes[t].next_write(7) == 8);
    assert(modes[t].next_write(8) == 8);
}

proof fn lemma_skips_to(modes: Seq<WriteModes>, from: int, c: int, accepted: bool)
    requires
        0 < from <= c <= modes.len() <= usize::MAX,
        forall|k: int| from <= k < c ==> !(#[trigger] modes[k]).writable(),
        c < modes.len() ==> modes[c].writable(),
    ensures
        c < modes.len() ==> step_from(modes, from, 0, accepted) == (RumbleStep::Try {
            attempt: first_attempt(modes, c),
            accepted,
        }),
        c == modes.len() ==> step_from(modes, from, 0, accepted) == (if accepted {
            RumbleStep::Done
        } else {
            RumbleStep::Refused
        }),
    decreases c - from,
{
    if from < c {
        assert(!modes[from].writable());
        lemma_unwritable(modes[from], 0);
        lemma_skips_to(modes, from + 1, c, accepted);
    } else if c < modes.len() {
        lemma_next_write(modes[c], 0);
    }
}

proof fn lemma_unwritable(m: WriteModes, n: int)
    requires
        !m.writable(),
        0 <= n <= WRITE_COUNT,
    ensures
        m.next_write(n) == WRITE_COUNT,
    decreases WRITE_COUNT - n,
{
    if n < WRITE_COUNT {
        lemma_unwritable(m, n + 1);
    }
}

} // verus!
