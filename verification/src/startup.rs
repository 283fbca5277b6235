//! The course of a start: from launching the server to showing its page, or
//! the reason why there is none.
use vstd::prelude::*;

use crate::port::{next_port_stage, PortEvent, PortStage, PortWait};
use crate::server_url::extract_dsh_web_url_line;
use crate::server_url::web_url_in_line;

verus! {

/// How long the server may take, from its launch until its port is reachable.
pub const DSH_READY_TIMEOUT_NANOS: u64 = 30_000_000_000;

/// Why a start failed.
pub enum StartupFailure {
    /// The process could not be launched, for the given reason.
    NotLaunched { error: String },
    /// The process never reported its address.
    NoUrl,
    /// The port of the reported address was never reachable.
    PortUnreachable,
}

/// Where a start stands. All but the last two name what to do next.
pub enum Startup {
    /// Launch the server.
    Launching,
    /// Wait for a line of its standard output.
    AwaitingUrl,
    /// Do what the wait for the port asks for.
    PollingPort { url: String, wait: PortWait },
    /// Done: show the page at `url`.
    Navigating { url: String },
    /// Done: kill the process if there is one, and show the reason.
    Failed { failure: StartupFailure },
}

/// What the application found out.
pub enum StartupEvent {
    /// The process could not be launched, for the given reason.
    LaunchFailed { error: String },
    /// The process was launched.
    Launched,
    /// A line came, so many nanoseconds after the launch.
    Line { line: String, elapsed_nanos: u128 },
    /// No line came in time.
    LineTimeout,
    /// The standard output was closed.
    OutputClosed,
    /// Something about the port.
    Port { event: PortEvent },
}

/// A failure by its characters.
pub enum FailureView {
    NotLaunched { error: Seq<char> },
    NoUrl,
    PortUnreachable,
}

/// A start by its characters.
pub enum StartupView {
    Launching,
    AwaitingUrl,
    PollingPort { url: Seq<char>, wait: PortWait },
    Navigating { url: Seq<char> },
    Failed { failure: FailureView },
}

/// An event by its characters.
pub enum EventView {
    LaunchFailed { error: Seq<char> },
    Launched,
    Line { line: Seq<char>, elapsed_nanos: u128 },
    LineTimeout,
    OutputClosed,
    Port { event: PortEvent },
}

impl View for StartupFailure {
    type V = FailureView;

    open spec fn view(&self) -> FailureView {
        match *self {
            StartupFailure::NotLaunched { error } => FailureView::NotLaunched { error: error@ },
            StartupFailure::NoUrl => FailureView::NoUrl,
            StartupFailure::PortUnreachable => FailureView::PortUnreachable,
        }
    }
}

impl View for Startup {
    type V = StartupView;

    open spec fn view(&self) -> StartupView {
        match *self {
            Startup::Launching => StartupView::Launching,
            Startup::AwaitingUrl => StartupView::AwaitingUrl,
            Startup::PollingPort { url, wait } => StartupView::PollingPort { url: url@, wait },
            Startup::Navigating { url } => StartupView::Navigating { url: url@ },
            Startup::Failed { failure } => StartupView::Failed { failure: failure@ },
        }
    }
}

impl View for StartupEvent {
    type V = EventView;

    open spec fn view(&self) -> EventView {
        match *self {
            StartupEvent::LaunchFailed { error } => EventView::LaunchFailed { error: error@ },
            StartupEvent::Launched => EventView::Launched,
            StartupEvent::Line { line, elapsed_nanos } => EventView::Line {
                line: line@,
                elapsed_nanos,
            },
            StartupEvent::LineTimeout => EventView::LineTimeout,
            StartupEvent::OutputClosed => EventView::OutputClosed,
            StartupEvent::Port { event } => EventView::Port { event },
        }
    }
}

/// What is left of the time, `elapsed` nanoseconds after the launch.
pub open spec fn time_left(elapsed: u128) -> u64 {
    if elapsed < DSH_READY_TIMEOUT_NANOS {
        (DSH_READY_TIMEOUT_NANOS - elapsed) as u64
    } else {
        0
    }
}

/// The start goes on to the port of `url`, with what is left of the time.
pub open spec fn begin_polling(url: Seq<char>, elapsed: u128) -> StartupView {
    StartupView::PollingPort {
        url,
        wait: PortWait {
            timeout_nanos: time_left(elapsed) as u128,
            stage: PortStage::CheckDeadline,
        },
    }
}

/// What follows an event about the port.
pub open spec fn after_port_event(
    url: Seq<char>,
    wait: PortWait,
    event: PortEvent,
) -> StartupView {
    let stage = next_port_stage(wait.timeout_nanos, wait.stage, event);
    match stage {
        PortStage::Reachable => StartupView::Navigating { url },
        PortStage::TimedOut => StartupView::Failed { failure: FailureView::PortUnreachable },
        _ => StartupView::PollingPort {
            url,
            wait: PortWait { timeout_nanos: wait.timeout_nanos, stage },
        },
    }
}

/// What follows an event. An event that does not answer the state is ignored.
pub open spec fn next_startup(state: StartupView, event: EventView) -> StartupView {
    match (state, event) {
        (StartupView::Launching, EventView::Launched) => StartupView::AwaitingUrl,
        (StartupView::Launching, EventView::LaunchFailed { error }) => StartupView::Failed {
            failure: FailureView::NotLaunched { error },
        },
        (StartupView::AwaitingUrl, EventView::Line { line, elapsed_nanos }) => match web_url_in_line(
            line,
        ) {
            Some(url) => begin_polling(url, elapsed_nanos),
            None => state,
        },
        (StartupView::AwaitingUrl, EventView::LineTimeout) => StartupView::Failed {
            failure: FailureView::NoUrl,
        },
        (StartupView::AwaitingUrl, EventView::OutputClosed) => StartupView::Failed {
            failure: FailureView::NoUrl,
        },
        (StartupView::PollingPort { url, wait }, EventView::Port { event }) => after_port_event(
            url,
            wait,
            event,
        ),
        _ => state,
    }
}

/// The state after a series of events.
pub open spec fn startup_after(state: StartupView, events: Seq<EventView>) -> StartupView
    decreases events.len(),
{
    if events.len() == 0 {
        state
    } else {
        next_startup(startup_after(state, events.drop_last()), events.last())
    }
}

/// How long to wait for the next line, `elapsed_nanos` after the launch.
pub fn line_wait_nanos(elapsed_nanos: u128) -> (r: u64)
    ensures
        r == time_left(elapsed_nanos),
        elapsed_nanos < 30_000_000_000 ==> r + elapsed_nanos == 30_000_000_000,
        elapsed_nanos >= 30_000_000_000 ==> r == 0,
{
    if elapsed_nanos < DSH_READY_TIMEOUT_NANOS as u128 {
        (DSH_READY_TIMEOUT_NANOS as u128 - elapsed_nanos) as u64
    } else {
        0
    }
}

impl Startup {
    /// Takes what the application found out when it did what the state names.
    pub fn advance(self, event: StartupEvent) -> (r: Startup)
        ensures
            r@ == next_startup(self@, event@),
    {
        match (self, event) {
            (Startup::Launching, StartupEvent::Launched) => Startup::AwaitingUrl,
            (Startup::Launching, StartupEvent::LaunchFailed { error }) => Startup::Failed {
                failure: StartupFailure::NotLaunched { error },
            },
            (
                Startup::AwaitingUrl,
                StartupEvent::Line { line, elapsed_nanos },
            ) => match extract_dsh_web_url_line(line.as_str()) {
                Some(url) => Startup::PollingPort {
                    url,
                    wait: PortWait::wait_for_port(line_wait_nanos(elapsed_nanos) as u128),
                },
                None => Startup::AwaitingUrl,
            },
            (Startup::AwaitingUrl, StartupEvent::LineTimeout) => Startup::Failed {
                failure: StartupFailure::NoUrl,
            },
            (Startup::AwaitingUrl, StartupEvent::OutputClosed) => Startup::Failed {
                failure: StartupFailure::NoUrl,
            },
            (Startup::PollingPort { url, wait }, StartupEvent::Port { event }) => {
                let wait = wait.advance(event);
                match wait.stage {
                    PortStage::Reachable => Startup::Navigating { url },
                    PortStage::TimedOut => Startup::Failed {
                        failure: StartupFailure::PortUnreachable,
                    },
                    _ => Startup::PollingPort { url, wait },
                }
            },
            (state, _) => state,
        }
    }
}

/// The heading for a process that could not be launched.
pub const NOT_LAUNCHED_HEADING: &'static str = "DeepSeek Harness could not start";

/// The heading for a server that did not get ready.
pub const NOT_READY_HEADING: &'static str = "DeepSeek Harness server did not start";

/// What is said of a process that could not be launched, before the reason.
pub const NOT_LAUNCHED_DETAILS: &'static str = "Failed to launch the `dsh` CLI process.\n\nIs `dsh` installed and available on your PATH?\n\nUnderlying error: ";

/// What is said of a process that never reported its address.
pub const NO_URL_DETAILS: &'static str = "The `dsh web` process never reported its web address.\n\nPossible causes:\n  - the `dsh` CLI crashed at startup\n  - port 3080 is already taken by another program\n  - the server needed longer than the 30 second startup budget\n\nRun `dsh web --no-open` in a terminal to see the underlying error.";

/// What is said of a server whose port was never reachable.
pub const PORT_UNREACHABLE_DETAILS: &'static str = "The `dsh web` process reported its web address, but the port never became reachable.\n\nRun `dsh web --no-open` in a terminal to see the underlying error.";

/// The heading of the page about a failure.
pub open spec fn failure_heading(failure: FailureView) -> Seq<char> {
    match failure {
        FailureView::NotLaunched { error } => NOT_LAUNCHED_HEADING@,
        FailureView::NoUrl => NOT_READY_HEADING@,
        FailureView::PortUnreachable => NOT_READY_HEADING@,
    }
}

/// The text of the page about a failure.
pub open spec fn failure_details(failure: FailureView) -> Seq<char> {
    match failure {
        FailureView::NotLaunched { error } => NOT_LAUNCHED_DETAILS@ + error,
        FailureView::NoUrl => NO_URL_DETAILS@,
        FailureView::PortUnreachable => PORT_UNREACHABLE_DETAILS@,
    }
}

/// Whether there is a process to kill after a failure.
pub open spec fn failure_leaves_process(failure: FailureView) -> bool {
    !(failure is NotLaunched)
}

impl StartupFailure {
    /// The heading of the page about the failure.
    pub fn heading(&self) -> (r: String)
        ensures
            r@ == failure_heading(self@),
    {
        match self {
            StartupFailure::NotLaunched { .. } => NOT_LAUNCHED_HEADING.to_string(),
            StartupFailure::NoUrl => NOT_READY_HEADING.to_string(),
            StartupFailure::PortUnreachable => NOT_READY_HEADING.to_string(),
        }
    }

    /// The text of the page about the failure.
    pub fn details(&self) -> (r: String)
        ensures
            r@ == failure_details(self@),
            self matches StartupFailure::NotLaunched { error } ==> r@ == NOT_LAUNCHED_DETAILS@
                + error@,
    {
        match self {
            StartupFailure::NotLaunched { error } => {
                let mut r = NOT_LAUNCHED_DETAILS.to_string();
                r.append(error.as_str());
                r
            },
            StartupFailure::NoUrl => NO_URL_DETAILS.to_string(),
            StartupFailure::PortUnreachable => PORT_UNREACHABLE_DETAILS.to_string(),
        }
    }

    /// Whether there is a process to kill.
    pub fn leaves_process(&self) -> (r: bool)
        ensures
            r == failure_leaves_process(self@),
            r == !(self is NotLaunched),
    {
        match self {
            StartupFailure::NotLaunched { .. } => false,
            StartupFailure::NoUrl => true,
            StartupFailure::PortUnreachable => true,
        }
    }
}

/// The address that a start is bound for.
pub open spec fn url_of(state: StartupView) -> Option<Seq<char>> {
    match state {
        StartupView::PollingPort { url, wait } => Some(url),
        StartupView::Navigating { url } => Some(url),
        _ => None,
    }
}

/// Whether the start has ended.
pub open spec fn has_ended(state: StartupView) -> bool {
    state is Navigating || state is Failed
}

/// A start that has ended stays as it ended.
pub proof fn law_ended_start_stays(state: StartupView, events: Seq<EventView>)
    requires
        has_ended(state),
    ensures
        startup_after(state, events) == state,
    decreases events.len(),
{
    if events.len() > 0 {
        law_ended_start_stays(state, events.drop_last());
    }
}

/// Once an address was reported it is never replaced: the start ends there, or
/// fails because its port is unreachable.
pub proof fn law_url_is_never_replaced(state: StartupView, events: Seq<EventView>)
    requires
        url_of(state) is Some,
    ensures
        url_of(startup_after(state, events)) == url_of(state) || startup_after(state, events)
            == (StartupView::Failed { failure: FailureView::PortUnreachable }),
    decreases events.len(),
{
    if events.len() > 0 {
        law_url_is_never_replaced(state, events.drop_last());
    }
}

/// Lines that report no address leave the start waiting.
pub proof fn law_other_lines_keep_waiting(events: Seq<EventView>)
    requires
        forall|i: int|
            0 <= i < events.len() ==> (#[trigger] events[i] matches EventView::Line {
                line,
                elapsed_nanos,
            } && web_url_in_line(line) is None),
    ensures
        startup_after(StartupView::AwaitingUrl, events) is AwaitingUrl,
    decreases events.len(),
{
    if events.len() > 0 {
        let before = events.drop_last();
        assert forall|i: int| 0 <= i < before.len() implies (#[trigger] before[i] matches EventView::Line {
            line,
            elapsed_nanos,
        } && web_url_in_line(line) is None) by {
            assert(before[i] == events[i]);
        }
        law_other_lines_keep_waiting(before);
        assert(events.last() == events[events.len() - 1]);
    }
}

proof fn lemma_startup_in_two_parts(state: StartupView, a: Seq<EventView>, b: Seq<EventView>)
    ensures
        startup_after(state, a + b) == startup_after(startup_after(state, a), b),
    decreases b.len(),
{
    if b.len() == 0 {
        assert(a + b =~= a);
    } else {
        assert((a + b).drop_last() =~= a + b.drop_last());
        assert((a + b).last() == b.last());
        lemma_startup_in_two_parts(state, a, b.drop_last());
    }
}

/// The first line that reports an address settles where the start is bound
/// for, whatever comes later.
pub proof fn law_first_reported_url_wins(events: Seq<EventView>, i: int, url: Seq<char>)
    requires
        0 <= i < events.len(),
        forall|j: int|
            0 <= j < i ==> (#[trigger] events[j] matches EventView::Line { line, elapsed_nanos }
                && web_url_in_line(line) is None),
        reports(events[i], url),
    ensures
        url_of(startup_after(StartupView::AwaitingUrl, events)) == Some(url) || startup_after(
            StartupView::AwaitingUrl,
            events,
        ) == (StartupView::Failed { failure: FailureView::PortUnreachable }),
{
    let quiet = events.take(i);
    let head = events.take(i + 1);
    let rest = events.skip(i + 1);
    assert forall|j: int| 0 <= j < quiet.len() implies (#[trigger] quiet[j] matches EventView::Line {
        line,
        elapsed_nanos,
    } && web_url_in_line(line) is None) by {
        assert(quiet[j] == events[j]);
    }
    law_other_lines_keep_waiting(quiet);
    assert(head.drop_last() =~= quiet);
    assert(head.last() == events[i]);
    let state = startup_after(StartupView::AwaitingUrl, head);
    assert(url_of(state) == Some(url));
    assert(events =~= head + rest);
    lemma_startup_in_two_parts(StartupView::AwaitingUrl, head, rest);
    law_url_is_never_replaced(state, rest);
}

/// While the port is polled, the wait has not ended and its time is within the
/// budget.
pub open spec fn is_consistent(state: StartupView) -> bool {
    state matches StartupView::PollingPort { url, wait } ==> {
        &&& !(wait.stage is Reachable)
        &&& !(wait.stage is TimedOut)
        &&& wait.timeout_nanos <= DSH_READY_TIMEOUT_NANOS
    }
}

/// Every state that a start can get to is consistent.
pub proof fn law_start_is_consistent(events: Seq<EventView>)
    ensures
        is_consistent(startup_after(StartupView::Launching, events)),
    decreases events.len(),
{
    if events.len() > 0 {
        law_start_is_consistent(events.drop_last());
    }
}

/// The page that is shown is the one that the server reported, and it is shown
/// only after a connection to the port succeeded: the line came before, and
/// the connection after the line.
pub proof fn law_page_was_reported(events: Seq<EventView>)
    ensures
        url_of(startup_after(StartupView::Launching, events)) matches Some(url) ==> exists|i: int|
            0 <= i < events.len() && #[trigger] reports(events[i], url),
        startup_after(StartupView::Launching, events) matches StartupView::Navigating { url }
            ==> exists|i: int, j: int|
            0 <= i < j < events.len() && #[trigger] reports(events[i], url) && #[trigger] connects(
                events[j],
            ),
    decreases events.len(),
{
    if events.len() > 0 {
        let before = events.drop_last();
        let last = events.len() - 1;
        let state = startup_after(StartupView::Launching, before);
        law_page_was_reported(before);
        law_start_is_consistent(before);
        if let Some(url) = url_of(startup_after(StartupView::Launching, events)) {
            if state is Navigating {
                let (i, j) = choose|i: int, j: int|
                    0 <= i < j < before.len() && #[trigger] reports(before[i], url)
                        && #[trigger] connects(before[j]);
                assert(reports(events[i], url));
                assert(connects(events[j]));
            } else if url_of(state) is Some {
                let i = choose|i: int| 0 <= i < before.len() && #[trigger] reports(before[i], url);
                assert(reports(events[i], url));
                if startup_after(StartupView::Launching, events) is Navigating {
                    assert(connects(events[last]));
                }
            } else {
                assert(reports(events[last], url));
            }
        }
    }
}

/// Whether `event` is a connection that succeeded.
pub open spec fn connects(event: EventView) -> bool {
    event == (EventView::Port { event: PortEvent::Connected })
}

/// Whether `event` is a line that reports `url`.
pub open spec fn reports(event: EventView, url: Seq<char>) -> bool {
    event matches EventView::Line { line, elapsed_nanos } && web_url_in_line(line) == Some(url)
}

/// One deadline covers both waits: a connection is tried exactly if the time
/// until the address was reported and the time since then add up to less than
/// the whole budget, and otherwise the start fails.
pub proof fn law_one_deadline(line: Seq<char>, until_line: u128, since_line: u128)
    requires
        web_url_in_line(line) is Some,
    ensures
        ({
            let reported = next_startup(
                StartupView::AwaitingUrl,
                EventView::Line { line, elapsed_nanos: until_line },
            );
            let checked = next_startup(
                reported,
                EventView::Port { event: PortEvent::Elapsed { nanos: since_line } },
            );
            if until_line + since_line < DSH_READY_TIMEOUT_NANOS {
                checked matches StartupView::PollingPort { url, wait } && Some(url)
                    == web_url_in_line(line) && wait.stage is Connect
            } else {
                checked == (StartupView::Failed { failure: FailureView::PortUnreachable })
            }
        }),
{
}

/// Whether the launch is known to have succeeded or failed.
pub open spec fn is_launch(event: EventView) -> bool {
    event is Launched || event is LaunchFailed
}

/// Whether the first word on the launch is that it succeeded.
pub open spec fn was_launched(events: Seq<EventView>) -> bool {
    exists|i: int|
        0 <= i < events.len() && #[trigger] events[i] is Launched && forall|j: int|
            0 <= j < i ==> !is_launch(#[trigger] events[j])
}

/// A failure leaves a process to kill exactly if one was launched.
pub proof fn law_launched_process_is_killed(events: Seq<EventView>)
    ensures
        startup_after(StartupView::Launching, events) matches StartupView::Failed { failure }
            ==> (failure_leaves_process(failure) <==> was_launched(events)),
        startup_after(StartupView::Launching, events) is Launching <==> forall|j: int|
            0 <= j < events.len() ==> !is_launch(#[trigger] events[j]),
        !(startup_after(StartupView::Launching, events) is Launching)
            && !(startup_after(StartupView::Launching, events) is Failed) ==> was_launched(events),
    decreases events.len(),
{
    if events.len() > 0 {
        let before = events.drop_last();
        let last = events.len() - 1;
        let state = startup_after(StartupView::Launching, before);
        law_launched_process_is_killed(before);
        assert(forall|j: int| 0 <= j < before.len() ==> before[j] == events[j]);
        assert(events.last() == events[last]);
        if was_launched(before) {
            let i = choose|i: int|
                0 <= i < before.len() && #[trigger] before[i] is Launched && forall|j: int|
                    0 <= j < i ==> !is_launch(#[trigger] before[j]);
            assert(events[i] is Launched);
            assert forall|j: int| 0 <= j < i implies !is_launch(#[trigger] events[j]) by {
                assert(before[j] == events[j]);
            }
            assert(was_launched(events));
        }
        if state is Launching {
            assert forall|j: int| 0 <= j < last implies !is_launch(#[trigger] events[j]) by {
                assert(before[j] == events[j]);
            }
        }
        if was_launched(events) {
            let i = choose|i: int|
                0 <= i < events.len() && #[trigger] events[i] is Launched && forall|j: int|
                    0 <= j < i ==> !is_launch(#[trigger] events[j]);
            if i < last {
                assert(before[i] is Launched);
                assert forall|j: int| 0 <= j < i implies !is_launch(#[trigger] before[j]) by {
                    assert(before[j] == events[j]);
                }
                assert(was_launched(before));
            } else if !(state is Launching) {
                assert forall|j: int| 0 <= j < before.len() implies !is_launch(
                    #[trigger] before[j],
                ) by {
                    assert(before[j] == events[j]);
                }
            }
        }
        if !(state is Launching) {
            let j = choose|j: int| 0 <= j < before.len() && is_launch(#[trigger] before[j]);
            assert(is_launch(events[j]));
        }
    }
}

/// A failure is never silent: its page has a heading and a text.
pub proof fn law_failure_is_shown(failure: FailureView)
    ensures
        failure_heading(failure).len() > 0,
        failure_details(failure).len() > 0,
{
    reveal_strlit("DeepSeek Harness could not start");
    reveal_strlit("DeepSeek Harness server did not start");
    reveal_strlit(
        "Failed to launch the `dsh` CLI process.\n\nIs `dsh` installed and available on your PATH?\n\nUnderlying error: ",
    );
    reveal_strlit(
        "The `dsh web` process never reported its web address.\n\nPossible causes:\n  - the `dsh` CLI crashed at startup\n  - port 3080 is already taken by another program\n  - the server needed longer than the 30 second startup budget\n\nRun `dsh web --no-open` in a terminal to see the underlying error.",
    );
    reveal_strlit(
        "The `dsh web` process reported its web address, but the port never became reachable.\n\nRun `dsh web --no-open` in a terminal to see the underlying error.",
    );
}

/// The time until the address was reported and the time that is left make up
/// thirty seconds; nothing is left after that.
pub proof fn law_time_left_completes_the_budget(elapsed: u128)
    ensures
        elapsed < 30_000_000_000 ==> elapsed + time_left(elapsed) == 30_000_000_000,
        elapsed >= 30_000_000_000 ==> time_left(elapsed) == 0,
{
}

/// A launch that failed ends the start with its reason; one that succeeded
/// makes it wait for the address.
pub proof fn law_launch_is_awaited(event: EventView)
    ensures
        event is Launched ==> next_startup(StartupView::Launching, event) is AwaitingUrl,
        event matches EventView::LaunchFailed { error } ==> next_startup(
            StartupView::Launching,
            event,
        ) == (StartupView::Failed { failure: FailureView::NotLaunched { error } }),
        !(event is Launched) && !(event is LaunchFailed) ==> next_startup(
            StartupView::Launching,
            event,
        ) is Launching,
{
}

/// While the address is awaited, a line that reports one begins the wait for
/// its port, with the rest of the thirty seconds; the end of the output or of
/// the time ends the start; nothing else matters.
pub proof fn law_address_is_awaited(event: EventView)
    ensures
        ({
            let next = next_startup(StartupView::AwaitingUrl, event);
            &&& event matches EventView::Line { line, elapsed_nanos } ==> {
                &&& web_url_in_line(line) is None ==> next is AwaitingUrl
                &&& web_url_in_line(line) matches Some(found) ==> {
                    &&& next is PollingPort
                    &&& next->PollingPort_url == found
                    &&& next->wait.stage is CheckDeadline
                    &&& elapsed_nanos < 30_000_000_000 ==> next->wait.timeout_nanos + elapsed_nanos
                        == 30_000_000_000
                    &&& elapsed_nanos >= 30_000_000_000 ==> next->wait.timeout_nanos == 0
                }
            }
            &&& event is LineTimeout || event is OutputClosed ==> next == (StartupView::Failed {
                failure: FailureView::NoUrl,
            })
            &&& event is Launched || event is LaunchFailed || event is Port
                ==> next is AwaitingUrl
        }),
{
}

/// While the port is polled, whatever the time left is: a reading in time leads
/// to an attempt, a late one ends the start; an attempt that succeeds shows the
/// page, one that is refused is followed by a pause of 200 milliseconds and
/// another reading. The address and the time stay the same throughout.
pub proof fn law_port_is_polled(url: Seq<char>, timeout: u128, nanos: u128, millis: u64)
    ensures
        ({
            let checking = StartupView::PollingPort {
                url,
                wait: PortWait { timeout_nanos: timeout, stage: PortStage::CheckDeadline },
            };
            let connecting = StartupView::PollingPort {
                url,
                wait: PortWait { timeout_nanos: timeout, stage: PortStage::Connect },
            };
            let refused = StartupView::PollingPort {
                url,
                wait: PortWait { timeout_nanos: timeout, stage: PortStage::Pause { millis: 200 } },
            };
            let pausing = StartupView::PollingPort {
                url,
                wait: PortWait { timeout_nanos: timeout, stage: PortStage::Pause { millis } },
            };
            let read = EventView::Port { event: PortEvent::Elapsed { nanos } };
            &&& nanos < timeout ==> next_startup(checking, read) == connecting
            &&& nanos >= timeout ==> next_startup(checking, read) == (StartupView::Failed {
                failure: FailureView::PortUnreachable,
            })
            &&& next_startup(connecting, EventView::Port { event: PortEvent::Connected }) == (
            StartupView::Navigating { url })
            &&& next_startup(connecting, EventView::Port { event: PortEvent::Refused }) == refused
            &&& next_startup(pausing, EventView::Port { event: PortEvent::Paused }) == checking
        }),
{
}

/// While the port is polled, what does not answer the stage of the wait changes
/// nothing: neither another line nor the end of the output.
pub proof fn law_other_events_leave_the_poll(url: Seq<char>, wait: PortWait, event: EventView)
    requires
        wait.stage is CheckDeadline || wait.stage is Connect || wait.stage is Pause,
        event matches EventView::Port { event: of_port } ==> {
            &&& wait.stage is CheckDeadline ==> !(of_port is Elapsed)
            &&& wait.stage is Connect ==> !(of_port is Connected) && !(of_port is Refused)
            &&& wait.stage is Pause ==> !(of_port is Paused)
        },
    ensures
        next_startup(StartupView::PollingPort { url, wait }, event) == (StartupView::PollingPort {
            url,
            wait,
        }),
{
}

/// A start that has ended takes no further event.
pub proof fn law_end_is_final(state: StartupView, event: EventView)
    requires
        state is Navigating || state is Failed,
    ensures
        next_startup(state, event) == state,
{
}

/// Each failure has one cause: a start that was under way fails because the
/// launch failed, because the output or the time ended before an address came,
/// or because the clock was read too late while the port was polled.
pub proof fn law_failure_has_a_cause(state: StartupView, event: EventView)
    requires
        !(state is Failed),
        state matches StartupView::PollingPort { url, wait } ==> !(wait.stage is TimedOut),
        next_startup(state, event) is Failed,
    ensures
        match next_startup(state, event)->failure {
            FailureView::NotLaunched { error } => state is Launching && event == (
            EventView::LaunchFailed { error }),
            FailureView::NoUrl => state is AwaitingUrl && (event is LineTimeout
                || event is OutputClosed),
            FailureView::PortUnreachable => state is PollingPort && state->wait.stage is CheckDeadline
                && event is Port && event->event is Elapsed && event->event->nanos
                >= state->wait.timeout_nanos,
        },
{
}

/// However often an attempt is refused, the start polls on at the same address
/// for as long as the clock is read in time.
pub proof fn law_refusals_do_not_end_a_start(
    url: Seq<char>,
    timeout: u128,
    rounds: nat,
    events: Seq<EventView>,
)
    requires
        events.len() == 3 * rounds,
        forall|k: int|
            0 <= k < events.len() && k % 3 == 0 ==> #[trigger] events[k] is Port
                && events[k]->event is Elapsed && events[k]->event->nanos < timeout,
        forall|k: int|
            0 <= k < events.len() && k % 3 == 1 ==> #[trigger] events[k] == (EventView::Port {
                event: PortEvent::Refused,
            }),
        forall|k: int|
            0 <= k < events.len() && k % 3 == 2 ==> #[trigger] events[k] == (EventView::Port {
                event: PortEvent::Paused,
            }),
    ensures
        ({
            let polling = StartupView::PollingPort {
                url,
                wait: PortWait { timeout_nanos: timeout, stage: PortStage::CheckDeadline },
            };
            startup_after(polling, events) == polling
        }),
    decreases rounds,
{
    if rounds > 0 {
        reveal_with_fuel(startup_after, 4);
        let n = events.len() as int;
        let a = events.take(n - 1);
        let b = events.take(n - 2);
        let c = events.take(n - 3);
        law_refusals_do_not_end_a_start(url, timeout, (rounds - 1) as nat, c);
        assert(events.drop_last() =~= a);
        assert(a.drop_last() =~= b);
        assert(b.drop_last() =~= c);
        assert(b.last() == events[n - 3]);
        assert(a.last() == events[n - 2]);
        assert(events.last() == events[n - 1]);
    }
}

proof fn lemma_poll_began_with_a_line(events: Seq<EventView>)
    requires
        startup_after(StartupView::Launching, events) is PollingPort,
    ensures
        exists|i: int|
            {
                &&& 0 <= i < events.len()
                &&& #[trigger] events[i] is Line
                &&& web_url_in_line(events[i]->line) == Some(
                    startup_after(StartupView::Launching, events)->PollingPort_url,
                )
                &&& events[i]->elapsed_nanos + startup_after(
                    StartupView::Launching,
                    events,
                )->wait.timeout_nanos >= 30_000_000_000
            },
    decreases events.len(),
{
    if events.len() > 0 {
        let before = events.drop_last();
        let state = startup_after(StartupView::Launching, before);
        if state is PollingPort {
            lemma_poll_began_with_a_line(before);
            let i = choose|i: int|
                {
                    &&& 0 <= i < before.len()
                    &&& #[trigger] before[i] is Line
                    &&& web_url_in_line(before[i]->line) == Some(state->PollingPort_url)
                    &&& before[i]->elapsed_nanos + state->wait.timeout_nanos >= 30_000_000_000
                };
            assert(events[i] == before[i]);
        } else {
            assert(events[events.len() - 1] is Line);
        }
    }
}

/// A start fails for want of a reachable port only once thirty seconds have
/// passed: a line reported an address, and a later reading of the clock, counted
/// from that line, reached what was left of the time.
pub proof fn law_unreachable_means_time_is_up(events: Seq<EventView>)
    requires
        startup_after(StartupView::Launching, events) == (StartupView::Failed {
            failure: FailureView::PortUnreachable,
        }),
    ensures
        exists|i: int, j: int|
            {
                &&& 0 <= i < j < events.len()
                &&& #[trigger] events[i] is Line
                &&& web_url_in_line(events[i]->line) is Some
                &&& #[trigger] events[j] is Port
                &&& events[j]->event is Elapsed
                &&& events[i]->elapsed_nanos + events[j]->event->nanos >= 30_000_000_000
            },
    decreases events.len(),
{
    if events.len() > 0 {
        let before = events.drop_last();
        let last = events.len() - 1;
        let state = startup_after(StartupView::Launching, before);
        if state is Failed {
            law_unreachable_means_time_is_up(before);
            let (i, j) = choose|i: int, j: int|
                {
                    &&& 0 <= i < j < before.len()
                    &&& #[trigger] before[i] is Line
                    &&& web_url_in_line(before[i]->line) is Some
                    &&& #[trigger] before[j] is Port
                    &&& before[j]->event is Elapsed
                    &&& before[i]->elapsed_nanos + before[j]->event->nanos >= 30_000_000_000
                };
            assert(events[i] == before[i]);
            assert(events[j] == before[j]);
        } else {
            law_start_is_consistent(before);
            lemma_poll_began_with_a_line(before);
            let i = choose|i: int|
                {
                    &&& 0 <= i < before.len()
                    &&& #[trigger] before[i] is Line
                    &&& web_url_in_line(before[i]->line) == Some(state->PollingPort_url)
                    &&& before[i]->elapsed_nanos + state->wait.timeout_nanos >= 30_000_000_000
                };
            assert(events[i] == before[i]);
            assert(events[last] is Port);
        }
    }
}

/// A start fails for want of an address only where the output ended or no line
/// came in time, and for want of a process only with the reason of the launch.
pub proof fn law_other_failures_were_told(events: Seq<EventView>)
    ensures
        startup_after(StartupView::Launching, events) == (StartupView::Failed {
            failure: FailureView::NoUrl,
        }) ==> events.contains(EventView::LineTimeout) || events.contains(EventView::OutputClosed),
        startup_after(StartupView::Launching, events) matches StartupView::Failed {
            failure: FailureView::NotLaunched { error },
        } ==> events.contains(EventView::LaunchFailed { error }),
    decreases events.len(),
{
    if events.len() > 0 {
        let before = events.drop_last();
        law_other_failures_were_told(before);
        assert forall|e: EventView| before.contains(e) implies events.contains(e) by {
            let i = choose|i: int| 0 <= i < before.len() && before[i] == e;
            assert(events[i] == e);
        }
        assert(events[events.len() - 1] == events.last());
        assert(events.contains(events.last()));
    }
}

/// What a state, an event or a failure carries is kept whole when it is taken by
/// its characters.
pub proof fn law_views_keep_what_is_carried(
    text: String,
    wait: PortWait,
    nanos: u128,
    event: PortEvent,
)
    ensures
        (StartupFailure::NotLaunched { error: text })@ == (FailureView::NotLaunched {
            error: text@,
        }),
        StartupFailure::NoUrl@ == FailureView::NoUrl,
        StartupFailure::PortUnreachable@ == FailureView::PortUnreachable,
        Startup::Launching@ == StartupView::Launching,
        Startup::AwaitingUrl@ == StartupView::AwaitingUrl,
        (Startup::PollingPort { url: text, wait })@ == (StartupView::PollingPort {
            url: text@,
            wait,
        }),
        (Startup::Navigating { url: text })@ == (StartupView::Navigating { url: text@ }),
        forall|failure: StartupFailure| #[trigger]
            (Startup::Failed { failure })@ == (StartupView::Failed { failure: failure@ }),
        (StartupEvent::LaunchFailed { error: text })@ == (EventView::LaunchFailed { error: text@ }),
        StartupEvent::Launched@ == EventView::Launched,
        (StartupEvent::Line { line: text, elapsed_nanos: nanos })@ == (EventView::Line {
            line: text@,
            elapsed_nanos: nanos,
        }),
        StartupEvent::LineTimeout@ == EventView::LineTimeout,
        StartupEvent::OutputClosed@ == EventView::OutputClosed,
        (StartupEvent::Port { event })@ == (EventView::Port { event }),
{
}

/// The page about a launch that failed gives the whole reason, behind what is
/// said of every such failure.
pub proof fn law_reason_is_told(error: Seq<char>)
    ensures
        failure_details(FailureView::NotLaunched { error })
            == "Failed to launch the `dsh` CLI process.\n\nIs `dsh` installed and available on your PATH?\n\nUnderlying error: "@
            + error,
        failure_heading(FailureView::NotLaunched { error }) == "DeepSeek Harness could not start"@,
        !failure_leaves_process(FailureView::NotLaunched { error }),
        failure_leaves_process(FailureView::NoUrl),
        failure_leaves_process(FailureView::PortUnreachable),
{
}

/// A poll whose wait has ended goes the way the wait went with the next event
/// about the port, and stays with any other.
pub proof fn law_ended_wait_settles_the_start(url: Seq<char>, wait: PortWait, event: EventView)
    requires
        wait.stage is Reachable || wait.stage is TimedOut,
    ensures
        ({
            let polling = StartupView::PollingPort { url, wait };
            &&& event is Port && wait.stage is Reachable ==> next_startup(polling, event) == (
            StartupView::Navigating { url })
            &&& event is Port && wait.stage is TimedOut ==> next_startup(polling, event) == (
            StartupView::Failed { failure: FailureView::PortUnreachable })
            &&& !(event is Port) ==> next_startup(polling, event) == polling
        }),
{
}

} // verus!
