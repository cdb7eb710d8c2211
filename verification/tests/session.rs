use unpalm::codes::{ABS_MT_POSITION_X, ABS_MT_POSITION_Y, ABS_MT_TRACKING_ID, EV_ABS};
use unpalm::polygon::Polygon;
use unpalm::session::{
    is_device_disconnected, next_loop_action, next_reconnect_action, next_session_action,
    LoopAction, LoopEvent, LoopExitReason, ReconnectAction, ReconnectEvent, SessionAction,
    SessionEvent,
};
use unpalm::touch::{RawEvent, TouchFilter};

#[test]
fn test_disconnected_enodev() {
    let err = std::io::Error::from_raw_os_error(19); // ENODEV
    assert!(is_device_disconnected(err.raw_os_error()));
}

#[test]
fn test_disconnected_eio() {
    let err = std::io::Error::from_raw_os_error(5); // EIO
    assert!(is_device_disconnected(err.raw_os_error()));
}

#[test]
fn test_disconnected_enxio() {
    let err = std::io::Error::from_raw_os_error(6); // ENXIO
    assert!(is_device_disconnected(err.raw_os_error()));
}

#[test]
fn test_disconnected_other_errno() {
    let err = std::io::Error::from_raw_os_error(13); // EACCES
    assert!(!is_device_disconnected(err.raw_os_error()));
}

#[test]
fn test_disconnected_no_os_error() {
    let err = std::io::Error::new(std::io::ErrorKind::Other, "custom error");
    assert!(!is_device_disconnected(err.raw_os_error()));
}

#[test]
fn only_three_errors_mean_disconnected() {
    for code in -200..200 {
        assert_eq!(
            is_device_disconnected(Some(code)),
            code == 5 || code == 6 || code == 19
        );
    }
}

fn after(event: LoopEvent) -> LoopAction {
    next_loop_action(&mut TouchFilter::new(), event, &[])
}

fn fatal(action: LoopAction) -> String {
    match action {
        LoopAction::Exit(LoopExitReason::FatalError(message)) => message,
        _ => panic!("no fatal error"),
    }
}

fn fetch_failed(would_block: bool, raw_os_error: Option<i32>) -> LoopEvent {
    LoopEvent::FetchFailed {
        would_block,
        raw_os_error,
        text: "gone".to_string(),
    }
}

#[test]
fn loop_goes_on_while_the_flag_is_set() {
    assert!(matches!(after(LoopEvent::Flag(true)), LoopAction::Poll));
    assert!(matches!(
        after(LoopEvent::Flag(false)),
        LoopAction::Exit(LoopExitReason::SignalReceived)
    ));
}

#[test]
fn loop_waits_again() {
    assert!(matches!(after(LoopEvent::PollTimedOut), LoopAction::CheckFlag));
    assert!(matches!(after(LoopEvent::PollInterrupted), LoopAction::CheckFlag));
    assert!(matches!(after(LoopEvent::Delivered), LoopAction::CheckFlag));
    assert!(matches!(after(fetch_failed(true, Some(11))), LoopAction::CheckFlag));
    assert!(matches!(after(fetch_failed(true, Some(19))), LoopAction::CheckFlag));
}

#[test]
fn loop_reads_what_is_ready() {
    assert!(matches!(
        after(LoopEvent::PollReady {
            error: false,
            hangup: false
        }),
        LoopAction::Fetch
    ));
}

#[test]
fn loop_notices_a_lost_device() {
    for (error, hangup) in [(true, false), (false, true), (true, true)] {
        assert!(matches!(
            after(LoopEvent::PollReady { error, hangup }),
            LoopAction::Exit(LoopExitReason::DeviceDisconnected)
        ));
    }
    assert!(matches!(
        after(fetch_failed(false, Some(19))),
        LoopAction::Exit(LoopExitReason::DeviceDisconnected)
    ));
}

#[test]
fn loop_fails_with_a_message() {
    assert_eq!(
        fatal(after(LoopEvent::PollFailed("EINVAL".to_string()))),
        "Poll error: EINVAL"
    );
    assert_eq!(
        fatal(after(fetch_failed(false, Some(13)))),
        "Error reading events: gone"
    );
    assert_eq!(
        fatal(after(fetch_failed(false, None))),
        "Error reading events: gone"
    );
    assert_eq!(
        fatal(after(LoopEvent::EmitFailed("broken".to_string()))),
        "Error emitting events: broken"
    );
}

fn abs(code: u16, value: i32) -> RawEvent {
    RawEvent {
        kind: EV_ABS,
        code,
        value,
    }
}

#[test]
fn loop_delivers_what_passes() {
    let zones = vec![Polygon::rectangle(0, 0, 10, 100)];
    let mut filter = TouchFilter::new();
    let events = vec![abs(ABS_MT_TRACKING_ID, 1), abs(ABS_MT_POSITION_X, 5)];
    match next_loop_action(&mut filter, LoopEvent::Fetched(events), &zones) {
        LoopAction::Deliver { batch, emit } => {
            assert!(emit);
            assert_eq!(batch.forward, vec![true, true]);
        }
        _ => panic!("nothing delivered"),
    }
    let events = vec![abs(ABS_MT_POSITION_Y, 50)];
    match next_loop_action(&mut filter, LoopEvent::Fetched(events), &zones) {
        LoopAction::Deliver { batch, emit } => {
            assert!(!emit);
            assert_eq!(batch.forward, vec![false]);
            assert_eq!(batch.notices.len(), 1);
        }
        _ => panic!("nothing delivered"),
    }
    match next_loop_action(&mut filter, LoopEvent::Fetched(vec![]), &zones) {
        LoopAction::Deliver { batch, emit } => {
            assert!(!emit);
            assert!(batch.forward.is_empty());
        }
        _ => panic!("nothing delivered"),
    }
}

#[test]
fn reconnecting_tries_until_told_to_stop() {
    assert!(matches!(
        next_reconnect_action(ReconnectEvent::FlagBeforeWait(true)),
        ReconnectAction::Wait
    ));
    assert!(matches!(
        next_reconnect_action(ReconnectEvent::Waited),
        ReconnectAction::CheckAfterWait
    ));
    assert!(matches!(
        next_reconnect_action(ReconnectEvent::FlagAfterWait(true)),
        ReconnectAction::TrySetUp
    ));
    assert!(matches!(
        next_reconnect_action(ReconnectEvent::SetUpFailed),
        ReconnectAction::CheckBeforeWait
    ));
    assert!(matches!(
        next_reconnect_action(ReconnectEvent::SetUp),
        ReconnectAction::Done
    ));
    for event in [
        ReconnectEvent::FlagBeforeWait(false),
        ReconnectEvent::FlagAfterWait(false),
    ] {
        match next_reconnect_action(event) {
            ReconnectAction::GiveUp(message) => {
                assert_eq!(message, "Shutdown requested during reconnection")
            }
            _ => panic!("not given up"),
        }
    }
}

#[test]
fn session_follows_the_loop() {
    assert!(matches!(
        next_session_action(SessionEvent::LoopEnded(LoopExitReason::SignalReceived)),
        SessionAction::ShutDown(None)
    ));
    assert!(matches!(
        next_session_action(SessionEvent::LoopEnded(LoopExitReason::DeviceDisconnected)),
        SessionAction::Reconnect
    ));
    match next_session_action(SessionEvent::LoopEnded(LoopExitReason::FatalError(
        "Poll error".to_string(),
    ))) {
        SessionAction::Fail(message) => assert_eq!(message, "Poll error"),
        _ => panic!("no failure"),
    }
    assert!(matches!(
        next_session_action(SessionEvent::Reconnected),
        SessionAction::RunLoop
    ));
    match next_session_action(SessionEvent::GaveUp("stopped".to_string())) {
        SessionAction::ShutDown(Some(reason)) => assert_eq!(reason, "stopped"),
        _ => panic!("no shutdown with a reason"),
    }
}

#[test]
fn loop_filters_across_interruptions() {
    let zones = vec![Polygon::rectangle(0, 0, 10, 100)];
    let events = [
        abs(ABS_MT_TRACKING_ID, 1),
        abs(ABS_MT_POSITION_X, 5),
        abs(ABS_MT_POSITION_Y, 50),
        abs(ABS_MT_POSITION_X, 500),
        abs(ABS_MT_TRACKING_ID, -1),
        abs(ABS_MT_TRACKING_ID, 2),
        abs(ABS_MT_POSITION_Y, 50),
        abs(ABS_MT_POSITION_X, 500),
    ];
    let mut at_once = TouchFilter::new();
    let expected = at_once.process_batch(&events.to_vec(), &zones).forward;
    assert_eq!(
        expected,
        vec![true, true, false, false, true, true, true, true]
    );

    let mut filter = TouchFilter::new();
    let mut delivered = Vec::new();
    for event in events {
        for between in [
            LoopEvent::Flag(true),
            LoopEvent::PollInterrupted,
            LoopEvent::Flag(true),
            LoopEvent::PollTimedOut,
            fetch_failed(true, Some(11)),
        ] {
            next_loop_action(&mut filter, between, &zones);
        }
        match next_loop_action(&mut filter, LoopEvent::Fetched(vec![event]), &zones) {
            LoopAction::Deliver { batch, .. } => delivered.extend(batch.forward),
            _ => panic!("nothing delivered"),
        }
    }
    assert_eq!(delivered, expected);
}
