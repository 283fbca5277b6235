use deepseek_harness::port::{PortEvent, PortStage, PortWait, DSH_HOST, DSH_PORT, POLL_PAUSE_MILLIS};
use deepseek_harness::startup::{
    line_wait_nanos, Startup, StartupEvent, StartupFailure, DSH_READY_TIMEOUT_NANOS,
};

const SECOND: u128 = 1_000_000_000;

fn line(text: &str, elapsed_nanos: u128) -> StartupEvent {
    StartupEvent::Line { line: text.to_string(), elapsed_nanos }
}

fn port(event: PortEvent) -> StartupEvent {
    StartupEvent::Port { event }
}

fn waiting() -> Startup {
    Startup::Launching.advance(StartupEvent::Launched)
}

fn reported(elapsed_nanos: u128) -> Startup {
    waiting().advance(line("dsh web: http://127.0.0.1:3080/?token=t", elapsed_nanos))
}

#[test]
fn constants() {
    assert_eq!(DSH_HOST, "127.0.0.1");
    assert_eq!(DSH_PORT, 3080);
    assert_eq!(POLL_PAUSE_MILLIS, 200);
    assert_eq!(DSH_READY_TIMEOUT_NANOS as u128, 30 * SECOND);
}

#[test]
fn port_wait_polls_until_connected() {
    let w = PortWait::wait_for_port(10);
    assert_eq!(w.stage, PortStage::CheckDeadline);
    let w = w.advance(PortEvent::Elapsed { nanos: 0 });
    assert_eq!(w.stage, PortStage::Connect);
    let w = w.advance(PortEvent::Refused);
    assert_eq!(w.stage, PortStage::Pause { millis: 200 });
    let w = w.advance(PortEvent::Paused);
    assert_eq!(w.stage, PortStage::CheckDeadline);
    let w = w.advance(PortEvent::Elapsed { nanos: 9 });
    let w = w.advance(PortEvent::Connected);
    assert_eq!(w.stage, PortStage::Reachable);
    assert_eq!(w.advance(PortEvent::Elapsed { nanos: 99 }).stage, PortStage::Reachable);
}

#[test]
fn port_wait_makes_as_many_attempts_as_pauses_allow() {
    let pause = POLL_PAUSE_MILLIS as u128 * 1_000_000;
    let mut wait = PortWait::wait_for_port(30 * SECOND);
    let mut clock: u128 = 0;
    let mut attempts: u128 = 0;
    while wait.stage != PortStage::TimedOut {
        let event = match wait.stage {
            PortStage::Connect => {
                attempts += 1;
                PortEvent::Refused
            }
            PortStage::Pause { millis } => {
                clock += millis as u128 * 1_000_000;
                PortEvent::Paused
            }
            _ => PortEvent::Elapsed { nanos: clock },
        };
        wait = wait.advance(event);
    }
    assert_eq!(attempts, 150);
    assert!(pause * (attempts - 1) < wait.timeout_nanos);
}

#[test]
fn port_wait_gives_up_at_the_deadline() {
    let w = PortWait::wait_for_port(10).advance(PortEvent::Elapsed { nanos: 10 });
    assert_eq!(w.stage, PortStage::TimedOut);
    assert_eq!(w.advance(PortEvent::Connected).stage, PortStage::TimedOut);
    let none = PortWait::wait_for_port(0).advance(PortEvent::Elapsed { nanos: 0 });
    assert_eq!(none.stage, PortStage::TimedOut);
}

#[test]
fn port_wait_ignores_what_it_did_not_ask_for() {
    let w = PortWait::wait_for_port(10).advance(PortEvent::Connected);
    assert_eq!(w.stage, PortStage::CheckDeadline);
    let w = w.advance(PortEvent::Elapsed { nanos: 1 }).advance(PortEvent::Paused);
    assert_eq!(w.stage, PortStage::Connect);
}

#[test]
fn start_that_succeeds() {
    let s = waiting().advance(line("loading", SECOND)).advance(line("", 2 * SECOND));
    assert!(matches!(s, Startup::AwaitingUrl));
    let s = s.advance(line("dsh web: http://127.0.0.1:3080/?token=t (LAN: x)", 3 * SECOND));
    assert!(matches!(
        &s,
        Startup::PollingPort { url, wait }
            if url == "http://127.0.0.1:3080/?token=t" && wait.timeout_nanos == 27 * SECOND
    ));
    let s = s
        .advance(line("dsh web: http://other/", 4 * SECOND))
        .advance(port(PortEvent::Elapsed { nanos: SECOND }))
        .advance(port(PortEvent::Refused))
        .advance(port(PortEvent::Paused))
        .advance(port(PortEvent::Elapsed { nanos: 2 * SECOND }))
        .advance(port(PortEvent::Connected));
    assert!(matches!(
        &s,
        Startup::Navigating { url } if url == "http://127.0.0.1:3080/?token=t"
    ));
    let s = s.advance(StartupEvent::OutputClosed);
    assert!(matches!(s, Startup::Navigating { .. }));
}

#[test]
fn launch_that_fails() {
    let s = Startup::Launching
        .advance(StartupEvent::LaunchFailed { error: "No such file".to_string() });
    match s {
        Startup::Failed { failure } => {
            assert!(!failure.leaves_process());
            assert_eq!(failure.heading(), "DeepSeek Harness could not start");
            assert_eq!(
                failure.details(),
                "Failed to launch the `dsh` CLI process.\n\nIs `dsh` installed and available on your PATH?\n\nUnderlying error: No such file"
            );
        }
        _ => panic!("not failed"),
    }
}

#[test]
fn server_that_reports_nothing() {
    for event in [StartupEvent::LineTimeout, StartupEvent::OutputClosed] {
        match waiting().advance(line("hello", 5)).advance(event) {
            Startup::Failed { failure } => {
                assert!(matches!(failure, StartupFailure::NoUrl));
                assert!(failure.leaves_process());
                assert_eq!(failure.heading(), "DeepSeek Harness server did not start");
                assert_eq!(
                    failure.details(),
                    "The `dsh web` process never reported its web address.\n\nPossible causes:\n  - the `dsh` CLI crashed at startup\n  - port 3080 is already taken by another program\n  - the server needed longer than the 30 second startup budget\n\nRun `dsh web --no-open` in a terminal to see the underlying error."
                );
            }
            _ => panic!("not failed"),
        }
    }
}

#[test]
fn port_that_is_never_reachable() {
    match reported(0).advance(port(PortEvent::Elapsed { nanos: 30 * SECOND })) {
        Startup::Failed { failure } => {
            assert!(matches!(failure, StartupFailure::PortUnreachable));
            assert!(failure.leaves_process());
            assert_eq!(failure.heading(), "DeepSeek Harness server did not start");
            assert_eq!(
                failure.details(),
                "The `dsh web` process reported its web address, but the port never became reachable.\n\nRun `dsh web --no-open` in a terminal to see the underlying error."
            );
        }
        _ => panic!("not failed"),
    }
}

#[test]
fn one_deadline_covers_both_waits() {
    let tried = reported(20 * SECOND).advance(port(PortEvent::Elapsed { nanos: 10 * SECOND - 1 }));
    assert!(matches!(
        tried,
        Startup::PollingPort { wait: PortWait { stage: PortStage::Connect, .. }, .. }
    ));
    let late = reported(20 * SECOND).advance(port(PortEvent::Elapsed { nanos: 10 * SECOND }));
    assert!(matches!(late, Startup::Failed { .. }));
    let over = reported(31 * SECOND).advance(port(PortEvent::Elapsed { nanos: 0 }));
    assert!(matches!(over, Startup::Failed { .. }));
}

#[test]
fn events_out_of_turn_are_ignored() {
    let s = Startup::Launching.advance(line("dsh web: http://h/", 0));
    assert!(matches!(s, Startup::Launching));
    let s = waiting().advance(port(PortEvent::Connected));
    assert!(matches!(s, Startup::AwaitingUrl));
}

#[test]
fn waits_for_lines() {
    assert_eq!(line_wait_nanos(0), 30_000_000_000);
    assert_eq!(line_wait_nanos(12 * SECOND), 18_000_000_000);
    assert_eq!(line_wait_nanos(30 * SECOND), 0);
    assert_eq!(line_wait_nanos(u128::MAX), 0);
}
