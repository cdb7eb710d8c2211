//! The course of a filtering session: polling, reading, emitting, reconnecting.

use vstd::prelude::*;
use vstd::string::*;

use crate::polygon::Polygon;
use crate::touch::{
    after_all, all_decidable, notices, passed, Batch, RawEvent, TouchFilter, Touches,
};

verus! {

/// How long to wait for events before the shutdown flag is looked at again, in milliseconds.
pub const POLL_TIMEOUT_MS: u16 = 100;

/// How long to wait before a device that was lost is looked for again, in seconds.
pub const RETRY_DELAY_SECS: u64 = 1;

/// The errors of the operating system that mean that a device is gone, and all others.
#[derive(Debug, Clone, Copy, PartialEq, Eq, Structural)]
pub enum Errno {
    /// No such device.
    Enodev,
    /// Input or output error.
    Eio,
    /// No such device or address.
    Enxio,
    /// Any other error.
    Other,
}

/// The error with this number.
pub open spec fn errno_of(code: i32) -> Errno {
    if code == 19 {
        Errno::Enodev
    } else if code == 5 {
        Errno::Eio
    } else if code == 6 {
        Errno::Enxio
    } else {
        Errno::Other
    }
}

/// `nix::errno::Errno::from_raw`: the numbers 19, 5 and 6, which Linux gives to these errors on
/// every architecture, become `ENODEV`, `EIO` and `ENXIO`, and no other number does.
#[verifier::external_body]
fn errno_from_raw(code: i32) -> (errno: Errno)
    ensures
        errno == errno_of(code),
{
    match nix::errno::Errno::from_raw(code) {
        nix::errno::Errno::ENODEV => Errno::Enodev,
        nix::errno::Errno::EIO => Errno::Eio,
        nix::errno::Errno::ENXIO => Errno::Enxio,
        _ => Errno::Other,
    }
}

/// Whether an error with this number, if it has one, means that the device is gone.
pub open spec fn device_gone(raw_os_error: Option<i32>) -> bool {
    raw_os_error is Some && errno_of(raw_os_error->0) != Errno::Other
}

/// Whether an input or output error means that the device was disconnected. An error that did not
/// come from the operating system has no number.
pub fn is_device_disconnected(raw_os_error: Option<i32>) -> (gone: bool)
    ensures
        gone == device_gone(raw_os_error),
        gone == (raw_os_error == Some(19i32) || raw_os_error == Some(5i32) || raw_os_error == Some(
            6i32,
        )),
{
    match raw_os_error {
        Some(code) => match errno_from_raw(code) {
            Errno::Enodev | Errno::Eio | Errno::Enxio => true,
            Errno::Other => false,
        },
        None => false,
    }
}

/// Why the event loop has ended.
#[derive(Debug)]
pub enum LoopExitReason {
    /// A clean shutdown was requested by a signal.
    SignalReceived,
    /// The device was disconnected, and may be looked for again.
    DeviceDisconnected,
    /// An error that cannot be recovered from.
    FatalError(String),
}

/// What has happened in the event loop.
#[derive(Debug)]
pub enum LoopEvent {
    /// The flag that says whether to go on was read.
    Flag(bool),
    /// No events came in time.
    PollTimedOut,
    /// The device can be read, or reports an error or a hangup.
    PollReady { error: bool, hangup: bool },
    /// A signal came while waiting.
    PollInterrupted,
    /// Waiting failed, with this error.
    PollFailed(String),
    /// Events were read.
    Fetched(Vec<RawEvent>),
    /// Reading failed, with this error.
    FetchFailed { would_block: bool, raw_os_error: Option<i32>, text: String },
    /// A batch was delivered.
    Delivered,
    /// Emitting failed, with this error.
    EmitFailed(String),
}

/// What to do next in the event loop.
#[derive(Debug)]
pub enum LoopAction {
    /// Read the flag that says whether to go on.
    CheckFlag,
    /// Wait for events.
    Poll,
    /// Read the events.
    Fetch,
    /// Report the touches that were blocked and, if `emit` is set, emit the events to pass on.
    Deliver { batch: Batch, emit: bool },
    /// Leave the loop.
    Exit(LoopExitReason),
}

/// Whether the loop is left because of a fatal error with this text.
pub open spec fn fails_with(action: LoopAction, text: Seq<char>) -> bool {
    match action {
        LoopAction::Exit(LoopExitReason::FatalError(message)) => message@ == text,
        _ => false,
    }
}

/// Whether `action` is what follows `event` while the touches are `s`.
pub open spec fn leads_to(
    s: Touches,
    event: LoopEvent,
    zones: Seq<Polygon>,
    action: LoopAction,
) -> bool {
    match event {
        LoopEvent::Flag(running) => if running {
            action is Poll
        } else {
            action matches LoopAction::Exit(reason) && reason is SignalReceived
        },
        LoopEvent::PollTimedOut | LoopEvent::PollInterrupted | LoopEvent::Delivered => {
            action is CheckFlag
        },
        LoopEvent::PollReady { error, hangup } => if error || hangup {
            action matches LoopAction::Exit(reason) && reason is DeviceDisconnected
        } else {
            action is Fetch
        },
        LoopEvent::PollFailed(text) => fails_with(action, "Poll error: "@ + text@),
        LoopEvent::Fetched(events) => match action {
            LoopAction::Deliver { batch, emit } => {
                &&& batch.forward@ == passed(s, events@, zones)
                &&& batch.notices@ == notices(s, events@, zones)
                &&& emit == passed(s, events@, zones).contains(true)
            },
            _ => false,
        },
        LoopEvent::FetchFailed { would_block, raw_os_error, text } => if would_block {
            action is CheckFlag
        } else if device_gone(raw_os_error) {
            action matches LoopAction::Exit(reason) && reason is DeviceDisconnected
        } else {
            fails_with(action, "Error reading events: "@ + text@)
        },
        LoopEvent::EmitFailed(text) => fails_with(action, "Error emitting events: "@ + text@),
    }
}

/// The touches after the events that `event` brings, if it brings any.
pub open spec fn touches_after(s: Touches, event: LoopEvent, zones: Seq<Polygon>) -> Touches {
    match event {
        LoopEvent::Fetched(events) => after_all(s, events@, zones),
        _ => s,
    }
}

/// Whether a list holds `true`.
fn any_true(list: &Vec<bool>) -> (found: bool)
    ensures
        found == list@.contains(true),
{
    for i in 0..list.len()
        invariant
            forall|k: int| 0 <= k < i ==> list@[k] != true,
    {
        if list[i] {
            return true;
        }
    }
    false
}

/// The exit for a fatal error.
fn fatal(prefix: &str, text: &str) -> (action: LoopAction)
    ensures
        fails_with(action, prefix@ + text@),
{
    let mut message = prefix.to_string();
    message.append(text);
    LoopAction::Exit(LoopExitReason::FatalError(message))
}

/// What to do next in the event loop after what has happened. The loop begins with
/// `LoopAction::CheckFlag` and a new filter.
pub fn next_loop_action(filter: &mut TouchFilter, event: LoopEvent, zones: &[Polygon]) -> (action:
    LoopAction)
    requires
        event matches LoopEvent::Fetched(events) ==> all_decidable(old(filter)@, events@, zones@),
    ensures
        leads_to(old(filter)@, event, zones@, action),
        final(filter)@ == touches_after(old(filter)@, event, zones@),
        old(filter)@.consistent() ==> final(filter)@.consistent(),
{
    match event {
        LoopEvent::Flag(running) => if running {
            LoopAction::Poll
        } else {
            LoopAction::Exit(LoopExitReason::SignalReceived)
        },
        LoopEvent::PollTimedOut | LoopEvent::PollInterrupted | LoopEvent::Delivered => {
            LoopAction::CheckFlag
        },
        LoopEvent::PollReady { error, hangup } => if error || hangup {
            LoopAction::Exit(LoopExitReason::DeviceDisconnected)
        } else {
            LoopAction::Fetch
        },
        LoopEvent::PollFailed(text) => fatal("Poll error: ", text.as_str()),
        LoopEvent::Fetched(events) => {
            let batch = filter.process_batch(&events, zones);
            let emit = any_true(&batch.forward);
            LoopAction::Deliver { batch, emit }
        },
        LoopEvent::FetchFailed { would_block, raw_os_error, text } => if would_block {
            LoopAction::CheckFlag
        } else if is_device_disconnected(raw_os_error) {
            LoopAction::Exit(LoopExitReason::DeviceDisconnected)
        } else {
            fatal("Error reading events: ", text.as_str())
        },
        LoopEvent::EmitFailed(text) => fatal("Error emitting events: ", text.as_str()),
    }
}

/// What has happened while a lost device is looked for.
#[derive(Debug)]
pub enum ReconnectEvent {
    /// The flag that says whether to go on was read before waiting.
    FlagBeforeWait(bool),
    /// The delay is over.
    Waited,
    /// The flag that says whether to go on was read after waiting.
    FlagAfterWait(bool),
    /// The device was set up.
    SetUp,
    /// The device could not be set up.
    SetUpFailed,
}

/// What to do next while a lost device is looked for.
#[derive(Debug)]
pub enum ReconnectAction {
    /// Read the flag, then wait.
    CheckBeforeWait,
    /// Wait for the delay.
    Wait,
    /// Read the flag, then set up the device.
    CheckAfterWait,
    /// Try to set up the device.
    TrySetUp,
    /// The device is back.
    Done,
    /// Stop looking, with this message.
    GiveUp(String),
}

/// Whether `action` is what follows `event` while a lost device is looked for.
pub open spec fn reconnect_leads_to(event: ReconnectEvent, action: ReconnectAction) -> bool {
    match event {
        ReconnectEvent::FlagBeforeWait(true) => action is Wait,
        ReconnectEvent::FlagAfterWait(true) => action is TrySetUp,
        ReconnectEvent::FlagBeforeWait(false) | ReconnectEvent::FlagAfterWait(false) => {
            action matches ReconnectAction::GiveUp(message) && message@
                == "Shutdown requested during reconnection"@
        },
        ReconnectEvent::Waited => action is CheckAfterWait,
        ReconnectEvent::SetUp => action is Done,
        ReconnectEvent::SetUpFailed => action is CheckBeforeWait,
    }
}

/// What to do next while a lost device is looked for. The search begins with
/// `ReconnectAction::CheckBeforeWait`.
pub fn next_reconnect_action(event: ReconnectEvent) -> (action: ReconnectAction)
    ensures
        reconnect_leads_to(event, action),
{
    match event {
        ReconnectEvent::FlagBeforeWait(true) => ReconnectAction::Wait,
        ReconnectEvent::FlagAfterWait(true) => ReconnectAction::TrySetUp,
        ReconnectEvent::FlagBeforeWait(false) | ReconnectEvent::FlagAfterWait(false) => {
            ReconnectAction::GiveUp("Shutdown requested during reconnection".to_string())
        },
        ReconnectEvent::Waited => ReconnectAction::CheckAfterWait,
        ReconnectEvent::SetUp => ReconnectAction::Done,
        ReconnectEvent::SetUpFailed => ReconnectAction::CheckBeforeWait,
    }
}

/// What has happened in the session.
#[derive(Debug)]
pub enum SessionEvent {
    /// The event loop has ended.
    LoopEnded(LoopExitReason),
    /// The lost device is back.
    Reconnected,
    /// The search for the lost device was given up, with this message.
    GaveUp(String),
}

/// What to do next in the session.
#[derive(Debug)]
pub enum SessionAction {
    /// Run the event loop, with the same exclusion zones as before.
    RunLoop,
    /// Let go of the device and look for it.
    Reconnect,
    /// End without an error, and give this reason if there is one.
    ShutDown(Option<String>),
    /// End with this error.
    Fail(String),
}

/// Whether `action` is what follows `event` in the session.
pub open spec fn session_leads_to(event: SessionEvent, action: SessionAction) -> bool {
    match event {
        SessionEvent::LoopEnded(LoopExitReason::SignalReceived) => {
            action matches SessionAction::ShutDown(reason) && reason is None
        },
        SessionEvent::LoopEnded(LoopExitReason::DeviceDisconnected) => action is Reconnect,
        SessionEvent::LoopEnded(LoopExitReason::FatalError(message)) => {
            action matches SessionAction::Fail(text) && text@ == message@
        },
        SessionEvent::Reconnected => action is RunLoop,
        SessionEvent::GaveUp(message) => {
            action matches SessionAction::ShutDown(Some(reason)) && reason@ == message@
        },
    }
}

/// What to do next in the session. It begins with `SessionAction::RunLoop`.
pub fn next_session_action(event: SessionEvent) -> (action: SessionAction)
    ensures
        session_leads_to(event, action),
{
    match event {
        SessionEvent::LoopEnded(reason) => match reason {
            LoopExitReason::SignalReceived => SessionAction::ShutDown(None),
            LoopExitReason::DeviceDisconnected => SessionAction::Reconnect,
            LoopExitReason::FatalError(message) => SessionAction::Fail(message),
        },
        SessionEvent::Reconnected => SessionAction::RunLoop,
        SessionEvent::GaveUp(message) => SessionAction::ShutDown(Some(message)),
    }
}

} // verus!
