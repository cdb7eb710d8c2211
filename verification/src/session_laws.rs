//! What holds of every session.

use vstd::prelude::*;

use crate::polygon::Polygon;
use crate::session::{
    device_gone, leads_to, reconnect_leads_to, session_leads_to, touches_after, LoopAction,
    LoopEvent, LoopExitReason, ReconnectAction, ReconnectEvent, SessionAction, SessionEvent,
    POLL_TIMEOUT_MS, RETRY_DELAY_SECS,
};
use crate::touch::{after_all, notices, passed, Notice, RawEvent, Touches};
use crate::touch_laws::law_batches_join;

verus! {

/// The event loop ends without an error only when a shutdown was requested.
pub proof fn law_clean_exit_only_on_request(
    s: Touches,
    event: LoopEvent,
    zones: Seq<Polygon>,
    action: LoopAction,
)
    requires
        leads_to(s, event, zones, action),
    ensures
        action == LoopAction::Exit(LoopExitReason::SignalReceived) <==> event == LoopEvent::Flag(
            false,
        ),
{
}

/// The event loop is left as disconnected exactly when the device reports an error or a hangup, or
/// reading it fails, and not only for want of events, with an error that means that it is gone.
pub proof fn law_disconnection(
    s: Touches,
    event: LoopEvent,
    zones: Seq<Polygon>,
    action: LoopAction,
)
    requires
        leads_to(s, event, zones, action),
    ensures
        action == LoopAction::Exit(LoopExitReason::DeviceDisconnected) <==> {
            ||| event matches LoopEvent::PollReady { error, hangup } && (error || hangup)
            ||| event matches LoopEvent::FetchFailed { would_block, raw_os_error, text }
                && !would_block && device_gone(raw_os_error)
        },
{
}

/// A lost device is set up again only right after the flag has said to go on.
pub proof fn law_set_up_only_while_running(event: ReconnectEvent, action: ReconnectAction)
    requires
        reconnect_leads_to(event, action),
    ensures
        action is TrySetUp <==> event == ReconnectEvent::FlagAfterWait(true),
{
}

/// A session ends with an error only when the event loop has failed.
pub proof fn law_session_fails_only_with_the_loop(event: SessionEvent, action: SessionAction)
    requires
        session_leads_to(event, action),
    ensures
        action is Fail <==> (event matches SessionEvent::LoopEnded(reason) && reason is FatalError),
{
}

/// Whether `event` can be what comes of `action` in the event loop.
pub open spec fn loop_answers(action: LoopAction, event: LoopEvent) -> bool {
    match action {
        LoopAction::CheckFlag => event is Flag,
        LoopAction::Poll => {
            event is PollTimedOut || event is PollReady || event is PollInterrupted
                || event is PollFailed
        },
        LoopAction::Fetch => event is Fetched || event is FetchFailed,
        LoopAction::Deliver { batch: _, emit } => event is Delivered || (emit
            && event is EmitFailed),
        LoopAction::Exit(_) => false,
    }
}

/// Whether step `i` of an event loop leads from one state and action to the next.
pub open spec fn loop_step(
    states: Seq<Touches>,
    actions: Seq<LoopAction>,
    events: Seq<LoopEvent>,
    zones: Seq<Polygon>,
    i: int,
) -> bool {
    &&& loop_answers(actions[i], events[i])
    &&& leads_to(states[i], events[i], zones, actions[i + 1])
    &&& states[i + 1] == touches_after(states[i], events[i], zones)
}

/// Whether these are the states, the actions and the events of an event loop, up to some moment.
pub open spec fn loop_run(
    states: Seq<Touches>,
    actions: Seq<LoopAction>,
    events: Seq<LoopEvent>,
    zones: Seq<Polygon>,
) -> bool {
    &&& states.len() == events.len() + 1
    &&& actions.len() == events.len() + 1
    &&& actions[0] is CheckFlag
    &&& forall|i: int|
        0 <= i < events.len() ==> #[trigger] loop_step(states, actions, events, zones, i)
}

/// All input events that were read.
pub open spec fn stream(events: Seq<LoopEvent>) -> Seq<RawEvent>
    decreases events.len(),
{
    if events.len() == 0 {
        Seq::empty()
    } else {
        match events.last() {
            LoopEvent::Fetched(fetched) => stream(events.drop_last()) + fetched@,
            _ => stream(events.drop_last()),
        }
    }
}

/// For each input event of all batches, whether it was passed on.
pub open spec fn delivered(actions: Seq<LoopAction>) -> Seq<bool>
    decreases actions.len(),
{
    if actions.len() == 0 {
        Seq::empty()
    } else {
        match actions.last() {
            LoopAction::Deliver { batch, .. } => delivered(actions.drop_last()) + batch.forward@,
            _ => delivered(actions.drop_last()),
        }
    }
}

/// All touches that were reported as blocked.
pub open spec fn reported(actions: Seq<LoopAction>) -> Seq<Notice>
    decreases actions.len(),
{
    if actions.len() == 0 {
        Seq::empty()
    } else {
        match actions.last() {
            LoopAction::Deliver { batch, .. } => reported(actions.drop_last()) + batch.notices@,
            _ => reported(actions.drop_last()),
        }
    }
}

/// The event loop filters the stream of all input events that it reads as if they had come at once,
/// whatever happens between the reads.
pub proof fn law_loop_filters_the_stream(
    states: Seq<Touches>,
    actions: Seq<LoopAction>,
    events: Seq<LoopEvent>,
    zones: Seq<Polygon>,
)
    requires
        loop_run(states, actions, events, zones),
    ensures
        states.last() == after_all(states[0], stream(events), zones),
        delivered(actions) == passed(states[0], stream(events), zones),
        reported(actions) == notices(states[0], stream(events), zones),
    decreases events.len(),
{
    let n = events.len() as int;
    if n == 0 {
        assert(delivered(actions.drop_last()) =~= Seq::empty());
        assert(reported(actions.drop_last()) =~= Seq::empty());
    } else {
        let (ss, aa, ee) = (states.drop_last(), actions.drop_last(), events.drop_last());
        assert forall|i: int| 0 <= i < ee.len() implies #[trigger] loop_step(
            ss,
            aa,
            ee,
            zones,
            i,
        ) by {
            assert(loop_step(states, actions, events, zones, i));
        }
        law_loop_filters_the_stream(ss, aa, ee, zones);
        assert(loop_step(states, actions, events, zones, n - 1));
        if let LoopEvent::Fetched(fetched) = events.last() {
            law_batches_join(states[0], stream(ee), fetched@, zones);
            assert(delivered(actions) == delivered(aa) + passed(states[n - 1], fetched@, zones));
            assert(reported(actions) == reported(aa) + notices(states[n - 1], fetched@, zones));
        } else {
            assert(!(actions.last() is Deliver));
        }
    }
}

/// The device is polled only right after the flag has said to go on, and read only right after the
/// poll has found it ready and sound.
pub proof fn law_flag_poll_read(
    states: Seq<Touches>,
    actions: Seq<LoopAction>,
    events: Seq<LoopEvent>,
    zones: Seq<Polygon>,
    i: int,
)
    requires
        loop_run(states, actions, events, zones),
        0 <= i < actions.len(),
    ensures
        actions[i] is Poll ==> i > 0 && events[i - 1] == LoopEvent::Flag(true),
        actions[i] is Fetch ==> i > 0 && events[i - 1] == (LoopEvent::PollReady {
            error: false,
            hangup: false,
        }),
        actions[i] is Deliver ==> i > 0 && events[i - 1] is Fetched,
{
    if i > 0 {
        assert(loop_step(states, actions, events, zones, i - 1));
    }
}

/// Whether `event` can be what comes of `action` while a lost device is looked for.
pub open spec fn reconnect_answers(action: ReconnectAction, event: ReconnectEvent) -> bool {
    match action {
        ReconnectAction::CheckBeforeWait => event is FlagBeforeWait,
        ReconnectAction::Wait => event is Waited,
        ReconnectAction::CheckAfterWait => event is FlagAfterWait,
        ReconnectAction::TrySetUp => event is SetUp || event is SetUpFailed,
        ReconnectAction::Done | ReconnectAction::GiveUp(_) => false,
    }
}

/// Whether step `i` of a search leads from one action to the next.
pub open spec fn reconnect_step(
    actions: Seq<ReconnectAction>,
    events: Seq<ReconnectEvent>,
    i: int,
) -> bool {
    reconnect_answers(actions[i], events[i]) && reconnect_leads_to(events[i], actions[i + 1])
}

/// Whether these are the actions and the events of a search for a lost device, up to some moment.
pub open spec fn reconnect_run(
    actions: Seq<ReconnectAction>,
    events: Seq<ReconnectEvent>,
) -> bool {
    &&& actions.len() == events.len() + 1
    &&& actions[0] is CheckBeforeWait
    &&& forall|i: int| 0 <= i < events.len() ==> #[trigger] reconnect_step(actions, events, i)
}

/// Every attempt to set up a lost device has a delay of its own before it, and the flag is read
/// before and after the delay.
pub proof fn law_waits_before_each_attempt(
    actions: Seq<ReconnectAction>,
    events: Seq<ReconnectEvent>,
    i: int,
)
    requires
        reconnect_run(actions, events),
        0 <= i < actions.len(),
        actions[i] is TrySetUp,
    ensures
        i >= 3,
        events[i - 1] == ReconnectEvent::FlagAfterWait(true),
        actions[i - 2] is Wait,
        events[i - 3] == ReconnectEvent::FlagBeforeWait(true),
{
    assert(i > 0);
    assert(reconnect_step(actions, events, i - 1));
    assert(i > 1);
    assert(reconnect_step(actions, events, i - 2));
    assert(i > 2);
    assert(reconnect_step(actions, events, i - 3));
}

/// The flag decides whether the loop goes on, and nothing else asks for a shutdown: with the flag set
/// the device is polled, else the loop ends as requested. After a poll without events, an
/// interruption, a read that would block and a delivery the flag is read again.
pub proof fn law_loop_goes_round(
    s: Touches,
    event: LoopEvent,
    zones: Seq<Polygon>,
    action: LoopAction,
)
    requires
        leads_to(s, event, zones, action),
    ensures
        event == LoopEvent::Flag(true) ==> action == LoopAction::Poll,
        event == LoopEvent::Flag(false) ==> action == LoopAction::Exit(
            LoopExitReason::SignalReceived,
        ),
        event is PollTimedOut || event is PollInterrupted || event is Delivered ==> action
            == LoopAction::CheckFlag,
        event matches LoopEvent::FetchFailed { would_block: true, .. } ==> action
            == LoopAction::CheckFlag,
        event matches LoopEvent::PollReady { error: false, hangup: false } ==> action
            == LoopAction::Fetch,
{
}

/// Every failure that is neither a lost device nor a read that would block ends the loop with a
/// message that names what has failed and why.
pub proof fn law_failures_are_named(
    s: Touches,
    event: LoopEvent,
    zones: Seq<Polygon>,
    action: LoopAction,
)
    requires
        leads_to(s, event, zones, action),
    ensures
        event matches LoopEvent::PollFailed(text) ==> (action matches LoopAction::Exit(
            LoopExitReason::FatalError(message),
        ) && message@ == "Poll error: "@ + text@),
        event matches LoopEvent::EmitFailed(text) ==> (action matches LoopAction::Exit(
            LoopExitReason::FatalError(message),
        ) && message@ == "Error emitting events: "@ + text@),
        event matches LoopEvent::FetchFailed { would_block: false, raw_os_error, text } ==> (
        raw_os_error != Some(19i32) && raw_os_error != Some(5i32) && raw_os_error != Some(6i32) ==> (
        action matches LoopAction::Exit(LoopExitReason::FatalError(message)) && message@
            == "Error reading events: "@ + text@)),
        event matches LoopEvent::FetchFailed { would_block: false, raw_os_error, text } ==> (
        raw_os_error == Some(19i32) || raw_os_error == Some(5i32) || raw_os_error == Some(6i32)
            ==> action == LoopAction::Exit(LoopExitReason::DeviceDisconnected)),
{
}

/// Events that were read are filtered and delivered, and emitted exactly if one of them is passed
/// on.
pub proof fn law_what_is_read_is_delivered(
    s: Touches,
    events: Vec<RawEvent>,
    zones: Seq<Polygon>,
    action: LoopAction,
)
    requires
        leads_to(s, LoopEvent::Fetched(events), zones, action),
    ensures
        action matches LoopAction::Deliver { batch, emit } && batch.forward@ == passed(
            s,
            events@,
            zones,
        ) && batch.notices@ == notices(s, events@, zones) && (emit <==> exists|k: int|
            0 <= k < batch.forward@.len() && batch.forward@[k]),
        touches_after(s, LoopEvent::Fetched(events), zones) == after_all(s, events@, zones),
{
    if let LoopAction::Deliver { batch, emit } = action {
        if exists|k: int| 0 <= k < batch.forward@.len() && batch.forward@[k] {
            let k = choose|k: int| 0 <= k < batch.forward@.len() && batch.forward@[k];
            assert(batch.forward@[k] == true);
            assert(batch.forward@.contains(true));
        }
    }
}

/// Only events that were read change what is known of the touches.
pub proof fn law_only_reading_changes_touches(s: Touches, event: LoopEvent, zones: Seq<Polygon>)
    requires
        !(event is Fetched),
    ensures
        touches_after(s, event, zones) == s,
{
}

/// The search for a lost device, step by step: while the flag is set, the delay, the flag again, an
/// attempt, and from the start again if it fails. With the flag not set the search ends with a
/// message.
pub proof fn law_search_goes_round(event: ReconnectEvent, action: ReconnectAction)
    requires
        reconnect_leads_to(event, action),
    ensures
        event == ReconnectEvent::FlagBeforeWait(true) ==> action == ReconnectAction::Wait,
        event is Waited ==> action == ReconnectAction::CheckAfterWait,
        event == ReconnectEvent::FlagAfterWait(true) ==> action == ReconnectAction::TrySetUp,
        event is SetUpFailed ==> action == ReconnectAction::CheckBeforeWait,
        event is SetUp ==> action == ReconnectAction::Done,
        event == ReconnectEvent::FlagBeforeWait(false) || event == ReconnectEvent::FlagAfterWait(
            false,
        ) ==> (action matches ReconnectAction::GiveUp(message) && message@
            == "Shutdown requested during reconnection"@),
{
}

/// The course of a session: a requested end shuts it down, a lost device is looked for, a device that
/// is back is filtered again, a search that was given up shuts the session down with its message, and
/// a fatal error ends it with that error.
pub proof fn law_course_of_a_session(event: SessionEvent, action: SessionAction)
    requires
        session_leads_to(event, action),
    ensures
        event == SessionEvent::LoopEnded(LoopExitReason::SignalReceived) ==> action
            == SessionAction::ShutDown(None),
        event == SessionEvent::LoopEnded(LoopExitReason::DeviceDisconnected) ==> action
            == SessionAction::Reconnect,
        event is Reconnected ==> action == SessionAction::RunLoop,
        event matches SessionEvent::GaveUp(message) ==> (action matches SessionAction::ShutDown(
            Some(reason),
        ) && reason@ == message@),
        event matches SessionEvent::LoopEnded(LoopExitReason::FatalError(message)) ==> (
        action matches SessionAction::Fail(text) && text@ == message@),
{
}

/// The numbers of the errors that mean that a device is gone.
pub proof fn law_errors_of_a_lost_device(raw_os_error: Option<i32>)
    ensures
        device_gone(raw_os_error) <==> raw_os_error == Some(19i32) || raw_os_error == Some(5i32)
            || raw_os_error == Some(6i32),
{
}

/// The flag is looked at again after a tenth of a second, and a lost device after a second.
pub proof fn law_delays()
    ensures
        POLL_TIMEOUT_MS == 100,
        RETRY_DELAY_SECS == 1,
{
}

} // verus!
