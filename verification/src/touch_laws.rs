//! What holds of all touches.

use vstd::prelude::*;

use crate::codes::{ABS_MT_POSITION_X, ABS_MT_POSITION_Y, ABS_MT_TRACKING_ID};
use crate::polygon::{inside_any, testable, testable_in_turn, Polygon};
use crate::touch::{
    about_touch, after, after_all, all_decidable, first_position, notices, passed, passes,
    starts_in_zone, summary_of, Notice, RawEvent, Summary, Touches,
};

verus! {

/// Whether the event starts or ends a touch.
pub open spec fn starts_or_ends(e: Summary) -> bool {
    match e {
        Summary::AbsoluteAxis(code, _) => code == ABS_MT_TRACKING_ID,
        Summary::Other => false,
    }
}

/// Events that are not about the place, the size or the pressure of a touch are always passed on,
/// the axes of the pointer as a whole among them.
pub proof fn law_other_events_pass(s: Touches, e: Summary, zones: Seq<Polygon>)
    requires
        !about_touch(e),
    ensures
        passes(s, e, zones),
{
}

/// The same slots have a position and a verdict, and only placed touches are blocked, after every
/// event.
pub proof fn law_touches_stay_consistent(s: Touches, e: Summary, zones: Seq<Polygon>)
    requires
        s.consistent(),
    ensures
        after(s, e, zones).consistent(),
{
    let t = after(s, e, zones);
    assert(t.positions.dom() =~= t.blocked.dom());
    assert forall|slot: i32| #[trigger] t.is_blocked(slot) implies t.is_placed(slot) by {
        if s.is_blocked(slot) {
            assert(s.is_placed(slot));
        }
    }
}

/// An event changes nothing in the slots that are not current.
pub proof fn law_other_slots_are_unchanged(
    s: Touches,
    e: Summary,
    zones: Seq<Polygon>,
    slot: i32,
)
    requires
        slot != s.current,
    ensures
        ({
            let t = after(s, e, zones);
            &&& t.positions.contains_key(slot) == s.positions.contains_key(slot)
            &&& t.blocked.contains_key(slot) == s.blocked.contains_key(slot)
            &&& t.positions[slot] == s.positions[slot]
            &&& t.blocked[slot] == s.blocked[slot]
        }),
{
}

/// A touch that starts is not blocked, wherever the one before it in the slot was.
pub proof fn law_new_touch_is_not_blocked(s: Touches, id: i32, zones: Seq<Polygon>)
    requires
        id >= 0,
    ensures
        ({
            let t = after(s, Summary::AbsoluteAxis(ABS_MT_TRACKING_ID, id), zones);
            &&& t.positions.contains_key(s.current)
            &&& t.positions[s.current] == (None::<i32>, None::<i32>)
            &&& !t.is_blocked(s.current)
        }),
{
}

/// Nothing is kept of a touch that has ended.
pub proof fn law_ended_touch_is_forgotten(s: Touches, id: i32, zones: Seq<Polygon>)
    requires
        id < 0,
    ensures
        ({
            let t = after(s, Summary::AbsoluteAxis(ABS_MT_TRACKING_ID, id), zones);
            &&& !t.positions.contains_key(s.current)
            &&& !t.blocked.contains_key(s.current)
        }),
{
}

/// The first position decides: a touch of which no coordinate is known yet is blocked, once both
/// coordinates have come, in either order, exactly if they lie in an exclusion zone.
pub proof fn law_first_position_decides(s: Touches, x: i32, y: i32, zones: Seq<Polygon>)
    requires
        s.positions.contains_key(s.current),
        s.positions[s.current] == (None::<i32>, None::<i32>),
        !s.is_blocked(s.current),
    ensures
        ({
            let ex = Summary::AbsoluteAxis(ABS_MT_POSITION_X, x);
            let ey = Summary::AbsoluteAxis(ABS_MT_POSITION_Y, y);
            let t = after(after(s, ex, zones), ey, zones);
            let u = after(after(s, ey, zones), ex, zones);
            &&& t.is_placed(s.current) && u.is_placed(s.current)
            &&& t.is_blocked(s.current) == inside_any(zones, x, y)
            &&& u.is_blocked(s.current) == inside_any(zones, x, y)
        }),
{
}

/// Once both coordinates of a touch are known, no event but its end or the start of another touch
/// in its slot changes whether it is blocked: it may move into a zone or out of it.
pub proof fn law_verdict_stands(s: Touches, e: Summary, zones: Seq<Polygon>, slot: i32)
    requires
        s.is_placed(slot),
        !(starts_or_ends(e) && slot == s.current),
    ensures
        after(s, e, zones).is_placed(slot),
        after(s, e, zones).is_blocked(slot) == s.is_blocked(slot),
{
}

/// Whether no touch starts or ends in the slot during a run of events.
pub open spec fn undisturbed(
    s: Touches,
    events: Seq<RawEvent>,
    zones: Seq<Polygon>,
    slot: i32,
) -> bool {
    forall|i: int|
        0 <= i < events.len() && starts_or_ends(summary_of(events[i])) ==> after_all(
            s,
            #[trigger] events.take(i),
            zones,
        ).current != slot
}

/// The verdict on a touch stands through every run of events during which no touch starts or ends in
/// its slot.
pub proof fn law_verdict_lasts(
    s: Touches,
    events: Seq<RawEvent>,
    zones: Seq<Polygon>,
    slot: i32,
)
    requires
        s.is_placed(slot),
        undisturbed(s, events, zones, slot),
    ensures
        after_all(s, events, zones).is_placed(slot),
        after_all(s, events, zones).is_blocked(slot) == s.is_blocked(slot),
    decreases events.len(),
{
    if events.len() > 0 {
        let before = events.drop_last();
        let n = before.len() as int;
        assert(events.take(n) =~= before);
        assert forall|i: int|
            0 <= i < before.len() && starts_or_ends(summary_of(before[i])) implies after_all(
            s,
            #[trigger] before.take(i),
            zones,
        ).current != slot by {
            assert(before.take(i) =~= events.take(i));
            assert(before[i] == events[i]);
        }
        law_verdict_lasts(s, before, zones, slot);
        law_verdict_stands(
            after_all(s, before, zones),
            summary_of(events.last()),
            zones,
            slot,
        );
    }
}

/// A touch is judged by where it starts. From the event on that completes its first position
/// `(x, y)`, until it ends, every event about the touch is passed on exactly if no exclusion zone
/// holds `(x, y)`.
pub proof fn law_touch_is_judged_by_its_start(
    s: Touches,
    e: Summary,
    x: i32,
    y: i32,
    events: Seq<RawEvent>,
    zones: Seq<Polygon>,
    k: int,
)
    requires
        s.consistent(),
        first_position(s, e) == Some((x, y)),
        0 <= k < events.len(),
        about_touch(summary_of(events[k])),
        undisturbed(after(s, e, zones), events, zones, s.current),
        after_all(after(s, e, zones), events.take(k), zones).current == s.current,
    ensures
        passes(s, e, zones) == !inside_any(zones, x, y),
        passes(
            after_all(after(s, e, zones), events.take(k), zones),
            summary_of(events[k]),
            zones,
        ) == !inside_any(zones, x, y),
{
    let t = after(s, e, zones);
    assert(!s.is_placed(s.current));
    assert(!s.is_blocked(s.current));
    assert(t.is_placed(s.current));
    assert(t.is_blocked(s.current) == inside_any(zones, x, y));
    let before = events.take(k);
    assert forall|i: int|
        0 <= i < before.len() && starts_or_ends(summary_of(before[i])) implies after_all(
        t,
        #[trigger] before.take(i),
        zones,
    ).current != s.current by {
        assert(before.take(i) =~= events.take(i));
        assert(before[i] == events[i]);
    }
    law_verdict_lasts(t, before, zones, s.current);
    law_verdict_stands(
        after_all(t, before, zones),
        summary_of(events[k]),
        zones,
        s.current,
    );
}

/// As long as the first position of a touch is not complete, the events about it are passed on.
pub proof fn law_unplaced_touch_passes(s: Touches, e: Summary, zones: Seq<Polygon>)
    requires
        s.consistent(),
        !s.is_placed(s.current),
        first_position(s, e) is None,
    ensures
        passes(s, e, zones),
{
    assert(!s.is_blocked(s.current));
}

/// Events about a blocked touch are held back for as long as the verdict stands.
pub proof fn law_blocked_touch_is_silent(s: Touches, e: Summary, zones: Seq<Polygon>)
    requires
        s.consistent(),
        s.is_blocked(s.current),
        about_touch(e),
    ensures
        !passes(s, e, zones),
{
    assert(s.is_placed(s.current));
    law_verdict_stands(s, e, zones, s.current);
}

/// Events about a touch that started outside all zones are passed on, wherever it has moved.
pub proof fn law_free_touch_passes(s: Touches, e: Summary, zones: Seq<Polygon>)
    requires
        s.is_placed(s.current),
        !s.is_blocked(s.current),
    ensures
        passes(s, e, zones),
{
    if about_touch(e) {
        law_verdict_stands(s, e, zones, s.current);
    }
}

/// Where no touch is blocked and no event completes a first position in a zone, every event is
/// passed on, nothing is reported and no touch is blocked.
pub proof fn law_without_starts_in_zones_all_pass(
    s: Touches,
    events: Seq<RawEvent>,
    zones: Seq<Polygon>,
)
    requires
        forall|slot: i32| !#[trigger] s.is_blocked(slot),
        forall|i: int|
            0 <= i < events.len() ==> !starts_in_zone(
                after_all(s, #[trigger] events.take(i), zones),
                summary_of(events[i]),
                zones,
            ),
    ensures
        passed(s, events, zones) == Seq::new(events.len(), |i: int| true),
        notices(s, events, zones) == Seq::<Notice>::empty(),
        forall|slot: i32| !#[trigger] after_all(s, events, zones).is_blocked(slot),
    decreases events.len(),
{
    if events.len() > 0 {
        let before = events.drop_last();
        let n = before.len() as int;
        assert(events.take(n) =~= before);
        assert forall|i: int| 0 <= i < before.len() implies !starts_in_zone(
            after_all(s, #[trigger] before.take(i), zones),
            summary_of(before[i]),
            zones,
        ) by {
            assert(before.take(i) =~= events.take(i));
        }
        law_without_starts_in_zones_all_pass(s, before, zones);
        let t = after_all(s, before, zones);
        let e = summary_of(events[n]);
        assert forall|slot: i32| !#[trigger] after(t, e, zones).is_blocked(slot) by {
            assert(!t.is_blocked(slot));
        }
    }
    assert(passed(s, events, zones) =~= Seq::new(events.len(), |i: int| true));
}

/// Where no touch is blocked and there are no zones, every event is passed on, nothing is reported
/// and no touch is blocked.
pub proof fn law_without_zones_all_pass(s: Touches, events: Seq<RawEvent>)
    requires
        forall|slot: i32| !#[trigger] s.is_blocked(slot),
    ensures
        passed(s, events, Seq::<Polygon>::empty()) == Seq::new(events.len(), |i: int| true),
        notices(s, events, Seq::<Polygon>::empty()) == Seq::<Notice>::empty(),
        forall|slot: i32|
            !#[trigger] after_all(s, events, Seq::<Polygon>::empty()).is_blocked(slot),
{
    law_without_starts_in_zones_all_pass(s, events, Seq::empty());
}

/// It does not matter how the events are divided into batches.
pub proof fn law_batches_join(
    s: Touches,
    first: Seq<RawEvent>,
    second: Seq<RawEvent>,
    zones: Seq<Polygon>,
)
    ensures
        ({
            let t = after_all(s, first, zones);
            &&& after_all(s, first + second, zones) == after_all(t, second, zones)
            &&& passed(s, first + second, zones) == passed(s, first, zones) + passed(
                t,
                second,
                zones,
            )
            &&& notices(s, first + second, zones) == notices(s, first, zones) + notices(
                t,
                second,
                zones,
            )
        }),
    decreases second.len(),
{
    let t = after_all(s, first, zones);
    let all = first + second;
    if second.len() == 0 {
        assert(all =~= first);
        assert(passed(s, first, zones) + passed(t, second, zones) =~= passed(s, first, zones));
        assert(notices(s, first, zones) + notices(t, second, zones) =~= notices(s, first, zones));
    } else {
        law_batches_join(s, first, second.drop_last(), zones);
        assert(all.drop_last() =~= first + second.drop_last());
        assert(all.last() == second.last());
        assert(passed(s, all, zones) =~= passed(s, first, zones) + passed(t, second, zones));
        assert(notices(s, all, zones) =~= notices(s, first, zones) + notices(t, second, zones));
    }
}

/// Zones that all have a vertex can be tested for every run of events.
pub proof fn law_testable_zones_decide_all(
    s: Touches,
    events: Seq<RawEvent>,
    zones: Seq<Polygon>,
)
    requires
        forall|k: int| 0 <= k < zones.len() ==> testable(#[trigger] zones[k].vertices@),
    ensures
        all_decidable(s, events, zones),
{
    assert(forall|x: i32, y: i32| testable_in_turn(zones, x, y));
}

} // verus!
