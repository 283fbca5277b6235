//! Waiting for the server's port to be reachable.
use vstd::prelude::*;

verus! {

/// The address that the server listens on.
pub const DSH_HOST: &'static str = "127.0.0.1";

/// The port that the server listens on.
pub const DSH_PORT: u16 = 3080;

/// How long to pause between two attempts to connect, in milliseconds.
pub const POLL_PAUSE_MILLIS: u64 = 200;

/// Where a wait stands. The first three name what to do next.
#[derive(Clone, Copy, PartialEq, Eq, Structural, Debug)]
pub enum PortStage {
    /// Read the clock.
    CheckDeadline,
    /// Try to connect.
    Connect,
    /// Pause for so many milliseconds.
    Pause { millis: u64 },
    /// Done: the port is reachable.
    Reachable,
    /// Done: the time is up.
    TimedOut,
}

/// What the application found out.
#[derive(Clone, Copy, PartialEq, Eq, Structural, Debug)]
pub enum PortEvent {
    /// The time since the wait began.
    Elapsed { nanos: u128 },
    /// The attempt to connect succeeded.
    Connected,
    /// The attempt to connect failed.
    Refused,
    /// The pause is over.
    Paused,
}

/// A wait for the port, for at most `timeout_nanos`.
#[derive(Clone, Copy, PartialEq, Eq, Structural, Debug)]
pub struct PortWait {
    pub timeout_nanos: u128,
    pub stage: PortStage,
}

/// What follows an event. An event that does not answer the stage is ignored.
pub open spec fn next_port_stage(timeout: u128, stage: PortStage, event: PortEvent) -> PortStage {
    match (stage, event) {
        (PortStage::CheckDeadline, PortEvent::Elapsed { nanos }) => if nanos < timeout {
            PortStage::Connect
        } else {
            PortStage::TimedOut
        },
        (PortStage::Connect, PortEvent::Connected) => PortStage::Reachable,
        (PortStage::Connect, PortEvent::Refused) => PortStage::Pause { millis: POLL_PAUSE_MILLIS },
        (PortStage::Pause { millis }, PortEvent::Paused) => PortStage::CheckDeadline,
        _ => stage,
    }
}

/// The stage after a series of events.
pub open spec fn port_stage_after(timeout: u128, events: Seq<PortEvent>) -> PortStage
    decreases events.len(),
{
    if events.len() == 0 {
        PortStage::CheckDeadline
    } else {
        next_port_stage(timeout, port_stage_after(timeout, events.drop_last()), events.last())
    }
}

impl PortWait {
    /// Begins a wait.
    pub fn wait_for_port(timeout_nanos: u128) -> (r: PortWait)
        ensures
            r.timeout_nanos == timeout_nanos,
            r.stage is CheckDeadline,
    {
        PortWait { timeout_nanos, stage: PortStage::CheckDeadline }
    }

    /// Takes what the application found out when it did what the stage names.
    pub fn advance(self, event: PortEvent) -> (r: PortWait)
        ensures
            r.timeout_nanos == self.timeout_nanos,
            r.stage == next_port_stage(self.timeout_nanos, self.stage, event),
    {
        let stage = match (self.stage, event) {
            (PortStage::CheckDeadline, PortEvent::Elapsed { nanos }) => if nanos
                < self.timeout_nanos {
                PortStage::Connect
            } else {
                PortStage::TimedOut
            },
            (PortStage::Connect, PortEvent::Connected) => PortStage::Reachable,
            (PortStage::Connect, PortEvent::Refused) => PortStage::Pause {
                millis: POLL_PAUSE_MILLIS,
            },
            (PortStage::Pause { .. }, PortEvent::Paused) => PortStage::CheckDeadline,
            _ => self.stage,
        };
        PortWait { timeout_nanos: self.timeout_nanos, stage }
    }
}

/// Whether `event` is a reading of the clock before the time is up.
pub open spec fn reads_in_time(event: PortEvent, timeout: u128) -> bool {
    event matches PortEvent::Elapsed { nanos } && nanos < timeout
}

/// The stage that the event `events[i]` answers.
pub open spec fn stage_at(timeout: u128, events: Seq<PortEvent>, i: int) -> PortStage {
    port_stage_after(timeout, events.take(i))
}

/// Whether `events[i]` is the outcome of an attempt to connect.
pub open spec fn is_outcome(timeout: u128, events: Seq<PortEvent>, i: int) -> bool {
    &&& 0 <= i < events.len()
    &&& stage_at(timeout, events, i) is Connect
    &&& events[i] is Connected || events[i] is Refused
}

/// Whether `events[i]` is the outcome of an attempt that succeeded.
pub open spec fn succeeds_at(timeout: u128, events: Seq<PortEvent>, i: int) -> bool {
    is_outcome(timeout, events, i) && events[i] is Connected
}

/// Whether the attempt that is under way at `j` was begun by `events[i]`: a
/// reading of the clock before the time is up.
pub open spec fn begun_in_time(timeout: u128, events: Seq<PortEvent>, i: int, j: int) -> bool {
    &&& 0 <= i < j
    &&& stage_at(timeout, events, i) is CheckDeadline
    &&& reads_in_time(events[i], timeout)
    &&& forall|m: int| i < m <= j ==> #[trigger] stage_at(timeout, events, m) is Connect
}

proof fn lemma_stage_at_step(timeout: u128, events: Seq<PortEvent>, i: int)
    requires
        0 <= i < events.len(),
    ensures
        stage_at(timeout, events, i + 1) == next_port_stage(
            timeout,
            stage_at(timeout, events, i),
            events[i],
        ),
{
    assert(events.take(i + 1).drop_last() =~= events.take(i));
    assert(events.take(i + 1).last() == events[i]);
}

proof fn lemma_reachable_stays(timeout: u128, events: Seq<PortEvent>, i: int, j: int)
    requires
        0 <= i <= j <= events.len(),
        stage_at(timeout, events, i) is Reachable,
    ensures
        stage_at(timeout, events, j) is Reachable,
    decreases j - i,
{
    if i < j {
        lemma_stage_at_step(timeout, events, i);
        lemma_reachable_stays(timeout, events, i + 1, j);
    }
}

proof fn lemma_reachable_was_reached(timeout: u128, events: Seq<PortEvent>, j: int)
    requires
        0 <= j <= events.len(),
        stage_at(timeout, events, j) is Reachable,
    ensures
        exists|i: int| i < j && #[trigger] succeeds_at(timeout, events, i),
    decreases j,
{
    if j > 0 {
        lemma_stage_at_step(timeout, events, j - 1);
        if stage_at(timeout, events, j - 1) is Reachable {
            lemma_reachable_was_reached(timeout, events, j - 1);
            let i = choose|i: int| i < j - 1 && #[trigger] succeeds_at(timeout, events, i);
            assert(i < j && succeeds_at(timeout, events, i));
        } else {
            assert(succeeds_at(timeout, events, j - 1));
        }
    }
}

/// Every attempt is begun by a reading of the clock before the time is up.
pub proof fn law_attempts_are_begun_in_time(timeout: u128, events: Seq<PortEvent>, j: int)
    requires
        0 <= j <= events.len(),
        stage_at(timeout, events, j) is Connect,
    ensures
        exists|i: int| #[trigger] begun_in_time(timeout, events, i, j),
    decreases j,
{
    if j > 0 {
        lemma_stage_at_step(timeout, events, j - 1);
        if stage_at(timeout, events, j - 1) is Connect {
            law_attempts_are_begun_in_time(timeout, events, j - 1);
            let i = choose|i: int| #[trigger] begun_in_time(timeout, events, i, j - 1);
            assert(begun_in_time(timeout, events, i, j));
        } else {
            assert(begun_in_time(timeout, events, j - 1, j));
        }
    }
}

/// The port counts as reachable exactly if an attempt to connect succeeded.
pub proof fn law_reachable_means_connected(timeout: u128, events: Seq<PortEvent>)
    ensures
        port_stage_after(timeout, events) is Reachable <==> exists|j: int|
            #[trigger] succeeds_at(timeout, events, j),
{
    assert(events.take(events.len() as int) =~= events);
    if port_stage_after(timeout, events) is Reachable {
        lemma_reachable_was_reached(timeout, events, events.len() as int);
    }
    if exists|j: int| #[trigger] succeeds_at(timeout, events, j) {
        let j = choose|j: int| #[trigger] succeeds_at(timeout, events, j);
        lemma_stage_at_step(timeout, events, j);
        lemma_reachable_stays(timeout, events, j + 1, events.len() as int);
    }
}

/// The first attempt that succeeds is the last one: those before it failed, and
/// none comes after it.
pub proof fn law_success_is_the_last_attempt(
    timeout: u128,
    events: Seq<PortEvent>,
    i: int,
    j: int,
)
    requires
        succeeds_at(timeout, events, j),
        is_outcome(timeout, events, i),
    ensures
        i <= j,
        i < j ==> events[i] is Refused,
{
    if j < i {
        lemma_stage_at_step(timeout, events, j);
        lemma_reachable_stays(timeout, events, j + 1, i);
    } else if i < j && events[i] is Connected {
        lemma_stage_at_step(timeout, events, i);
        lemma_reachable_stays(timeout, events, i + 1, j);
    }
}

/// How many attempts to connect were begun.
pub open spec fn attempts(timeout: u128, events: Seq<PortEvent>) -> nat
    decreases events.len(),
{
    if events.len() == 0 {
        0
    } else {
        let before = events.drop_last();
        let begins = !(port_stage_after(timeout, before) is Connect) && port_stage_after(
            timeout,
            events,
        ) is Connect;
        attempts(timeout, before) + if begins {
            1nat
        } else {
            0
        }
    }
}

/// How many pauses were made.
pub open spec fn pauses(timeout: u128, events: Seq<PortEvent>) -> nat
    decreases events.len(),
{
    if events.len() == 0 {
        0
    } else {
        let before = events.drop_last();
        let made = port_stage_after(timeout, before) is Pause && events.last() is Paused;
        pauses(timeout, before) + if made {
            1nat
        } else {
            0
        }
    }
}

/// The length of a pause, in nanoseconds.
pub open spec fn pause_nanos() -> int {
    POLL_PAUSE_MILLIS * 1_000_000
}

/// Whether the clock shows, whenever it is read against the deadline, at least
/// the time that the pauses until then took.
pub open spec fn clock_counts_pauses(timeout: u128, events: Seq<PortEvent>) -> bool {
    forall|i: int|
        0 <= i < events.len() && #[trigger] stage_at(timeout, events, i) is CheckDeadline ==> (
        events[i] matches PortEvent::Elapsed { nanos } ==> nanos >= pause_nanos() * pauses(
            timeout,
            events.take(i),
        ))
}

proof fn lemma_attempts_and_pauses(timeout: u128, events: Seq<PortEvent>)
    ensures
        attempts(timeout, events) == pauses(timeout, events) + match port_stage_after(
            timeout,
            events,
        ) {
            PortStage::CheckDeadline => 0int,
            PortStage::TimedOut => 0,
            _ => 1,
        },
    decreases events.len(),
{
    if events.len() > 0 {
        lemma_attempts_and_pauses(timeout, events.drop_last());
    }
}

/// A wait makes no more attempts than there is time for the pauses between
/// them.
pub proof fn law_attempts_are_bounded(timeout: u128, events: Seq<PortEvent>)
    requires
        clock_counts_pauses(timeout, events),
    ensures
        attempts(timeout, events) > 0 ==> pause_nanos() * (attempts(timeout, events) - 1) < timeout,
    decreases events.len(),
{
    if events.len() > 0 {
        let before = events.drop_last();
        let last = events.len() - 1;
        assert forall|i: int|
            0 <= i < before.len() && #[trigger] stage_at(
                timeout,
                before,
                i,
            ) is CheckDeadline implies (before[i] matches PortEvent::Elapsed { nanos } ==> nanos
            >= pause_nanos() * pauses(timeout, before.take(i))) by {
            assert(before.take(i) =~= events.take(i));
            assert(stage_at(timeout, events, i) is CheckDeadline);
        }
        law_attempts_are_bounded(timeout, before);
        if attempts(timeout, events) != attempts(timeout, before) {
            assert(events.take(last) =~= before);
            assert(stage_at(timeout, events, last) is CheckDeadline);
            lemma_attempts_and_pauses(timeout, before);
        }
    }
}

/// The wait is given up only once the clock was read at or past the time.
pub proof fn law_timed_out_means_time_is_up(timeout: u128, events: Seq<PortEvent>)
    ensures
        port_stage_after(timeout, events) is TimedOut ==> exists|i: int|
            0 <= i < events.len() && #[trigger] reads_too_late(events[i], timeout),
    decreases events.len(),
{
    if events.len() > 0 && port_stage_after(timeout, events) is TimedOut {
        let before = events.drop_last();
        law_timed_out_means_time_is_up(timeout, before);
        if port_stage_after(timeout, before) is TimedOut {
            let i = choose|i: int|
                0 <= i < before.len() && #[trigger] reads_too_late(before[i], timeout);
            assert(reads_too_late(events[i], timeout));
        } else {
            assert(reads_too_late(events[events.len() - 1], timeout));
        }
    }
}

/// Whether `event` is a reading of the clock once the time is up.
pub open spec fn reads_too_late(event: PortEvent, timeout: u128) -> bool {
    event matches PortEvent::Elapsed { nanos } && nanos >= timeout
}

/// A wait that has ended stays as it ended.
pub proof fn law_ended_wait_stays(timeout: u128, stage: PortStage, event: PortEvent)
    requires
        stage is Reachable || stage is TimedOut,
    ensures
        next_port_stage(timeout, stage, event) == stage,
{
}

/// One round of the wait, whatever its time: a reading in time leads to an
/// attempt; one that is refused costs a pause of 200 milliseconds, after which
/// the clock is read again; one that succeeds ends the wait.
pub proof fn law_one_round(timeout: u128, nanos: u128)
    requires
        nanos < timeout,
    ensures
        ({
            let read = next_port_stage(
                timeout,
                PortStage::CheckDeadline,
                PortEvent::Elapsed { nanos },
            );
            let refused = next_port_stage(timeout, read, PortEvent::Refused);
            let paused = next_port_stage(timeout, refused, PortEvent::Paused);
            &&& read is Connect
            &&& refused == (PortStage::Pause { millis: 200 })
            &&& paused is CheckDeadline
            &&& next_port_stage(timeout, read, PortEvent::Connected) is Reachable
        }),
{
}

/// A reading at or past the time ends the wait, and nothing else makes it fail.
pub proof fn law_only_the_clock_ends_a_wait(timeout: u128, stage: PortStage, event: PortEvent)
    requires
        !(stage is TimedOut),
    ensures
        next_port_stage(timeout, stage, event) is TimedOut <==> stage is CheckDeadline && event is Elapsed
            && event->nanos >= timeout,
{
}

/// Only an attempt that is under way can succeed.
pub proof fn law_only_an_attempt_reaches(timeout: u128, stage: PortStage, event: PortEvent)
    requires
        !(stage is Reachable),
    ensures
        next_port_stage(timeout, stage, event) is Reachable <==> stage is Connect
            && event is Connected,
{
}

/// What does not answer the stage changes nothing.
pub proof fn law_other_port_events_change_nothing(
    timeout: u128,
    stage: PortStage,
    event: PortEvent,
)
    requires
        stage is CheckDeadline ==> !(event is Elapsed),
        stage is Connect ==> !(event is Connected) && !(event is Refused),
        stage is Pause ==> !(event is Paused),
    ensures
        next_port_stage(timeout, stage, event) == stage,
{
}

/// A pause of any length is followed by a reading of the clock.
pub proof fn law_pause_is_followed_by_a_reading(timeout: u128, millis: u64)
    ensures
        next_port_stage(timeout, PortStage::Pause { millis }, PortEvent::Paused) is CheckDeadline,
{
}

/// However often an attempt is refused, the wait goes on for as long as the
/// clock is read in time.
pub proof fn law_refusals_do_not_end_a_wait(timeout: u128, rounds: nat, events: Seq<PortEvent>)
    requires
        events.len() == 3 * rounds,
        forall|k: int|
            0 <= k < events.len() && k % 3 == 0 ==> #[trigger] events[k] is Elapsed
                && events[k]->nanos < timeout,
        forall|k: int| 0 <= k < events.len() && k % 3 == 1 ==> #[trigger] events[k] is Refused,
        forall|k: int| 0 <= k < events.len() && k % 3 == 2 ==> #[trigger] events[k] is Paused,
    ensures
        port_stage_after(timeout, events) is CheckDeadline,
    decreases rounds,
{
    if rounds > 0 {
        reveal_with_fuel(port_stage_after, 4);
        let n = events.len() as int;
        let a = events.take(n - 1);
        let b = events.take(n - 2);
        let c = events.take(n - 3);
        law_refusals_do_not_end_a_wait(timeout, (rounds - 1) as nat, c);
        assert(events.drop_last() =~= a);
        assert(a.drop_last() =~= b);
        assert(b.drop_last() =~= c);
        assert(b.last() == events[n - 3]);
        assert(a.last() == events[n - 2]);
        assert(events.last() == events[n - 1]);
    }
}

} // verus!
