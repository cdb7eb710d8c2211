//! The filter described by the history of the events alone.

use vstd::prelude::*;

use crate::codes::{
    ABS_MT_POSITION_X, ABS_MT_POSITION_Y, ABS_MT_PRESSURE, ABS_MT_SLOT, ABS_MT_TOUCH_MAJOR,
    ABS_MT_TOUCH_MINOR, ABS_MT_TRACKING_ID, EV_ABS,
};
use crate::polygon::{inside_any, Polygon};
use crate::touch::{
    after, after_all, first_position, no_touches, notice_of, notices, passed, passes, summary_of,
    Notice, RawEvent, Touches,
};

verus! {

/// Whether the event gives a value to the absolute axis `code`.
pub open spec fn sets_axis(e: RawEvent, code: u16) -> bool {
    e.kind == EV_ABS && e.code == code
}

/// Whether `slot` was named last before event `k`. Before any slot is named it is slot 0.
pub open spec fn named_last(events: Seq<RawEvent>, k: int, slot: i32) -> bool {
    ||| exists|j: int|
        0 <= j < k && sets_axis(#[trigger] events[j], ABS_MT_SLOT) && events[j].value == slot
            && forall|i: int| j < i < k ==> !sets_axis(#[trigger] events[i], ABS_MT_SLOT)
    ||| slot == 0 && forall|i: int| 0 <= i < k ==> !sets_axis(#[trigger] events[i], ABS_MT_SLOT)
}

/// Whether event `k` gives a value to the axis `code` of the touch in the slot.
pub open spec fn happens(events: Seq<RawEvent>, k: int, slot: i32, code: u16) -> bool {
    sets_axis(events[k], code) && named_last(events, k, slot)
}

/// Whether event `b` has started the touch that is in the slot before event `k`: it brought an
/// identity, and no other identity and no end has come in the slot since.
pub open spec fn started_by(events: Seq<RawEvent>, k: int, slot: i32, b: int) -> bool {
    &&& 0 <= b < k
    &&& happens(events, b, slot, ABS_MT_TRACKING_ID)
    &&& events[b].value >= 0
    &&& forall|i: int| b < i < k ==> !#[trigger] happens(events, i, slot, ABS_MT_TRACKING_ID)
}

/// Whether the axis has had a value between the events `b` and `k`, both left out.
pub open spec fn known(events: Seq<RawEvent>, b: int, k: int, slot: i32, code: u16) -> bool {
    exists|j: int| b < j < k && #[trigger] happens(events, j, slot, code)
}

/// Whether `value` is the last that the axis has had between the events `b` and `k`.
pub open spec fn last_is(
    events: Seq<RawEvent>,
    b: int,
    k: int,
    slot: i32,
    code: u16,
    value: i32,
) -> bool {
    exists|j: int|
        b < j < k && #[trigger] happens(events, j, slot, code) && events[j].value == value
            && forall|i: int| j < i < k ==> !#[trigger] happens(events, i, slot, code)
}

/// Whether the touch that event `b` has started is, by event `c`, for the first time known in both
/// coordinates, and these are `x` and `y`.
pub open spec fn placed_by(
    events: Seq<RawEvent>,
    b: int,
    c: int,
    slot: i32,
    x: i32,
    y: i32,
) -> bool {
    &&& last_is(events, b, c + 1, slot, ABS_MT_POSITION_X, x)
    &&& last_is(events, b, c + 1, slot, ABS_MT_POSITION_Y, y)
    &&& !(known(events, b, c, slot, ABS_MT_POSITION_X) && known(
        events,
        b,
        c,
        slot,
        ABS_MT_POSITION_Y,
    ))
}

/// Whether the touch that event `b` has started was, before event `k`, first placed in a zone.
pub open spec fn began_in_zone(
    events: Seq<RawEvent>,
    b: int,
    k: int,
    slot: i32,
    zones: Seq<Polygon>,
) -> bool {
    exists|c: int, x: i32, y: i32|
        b < c < k && #[trigger] placed_by(events, b, c, slot, x, y) && inside_any(zones, x, y)
}

/// Whether, before event `k`, there is a touch in the slot that was first placed in a zone.
pub open spec fn palm_in_slot(
    events: Seq<RawEvent>,
    k: int,
    slot: i32,
    zones: Seq<Polygon>,
) -> bool {
    exists|b: int| #[trigger]
        started_by(events, k, slot, b) && began_in_zone(events, b, k, slot, zones)
}

proof fn lemma_named_once(events: Seq<RawEvent>, k: int, a: i32, b: i32)
    requires
        named_last(events, k, a),
        named_last(events, k, b),
    ensures
        a == b,
{
}

proof fn lemma_named_next(events: Seq<RawEvent>, k: int, cur: i32)
    requires
        0 <= k < events.len(),
        named_last(events, k, cur),
    ensures
        named_last(
            events,
            k + 1,
            if sets_axis(events[k], ABS_MT_SLOT) {
                events[k].value
            } else {
                cur
            },
        ),
{
    if sets_axis(events[k], ABS_MT_SLOT) {
        assert(sets_axis(events[k], ABS_MT_SLOT) && events[k].value == events[k].value);
    } else if exists|j: int|
        0 <= j < k && sets_axis(#[trigger] events[j], ABS_MT_SLOT) && events[j].value == cur
            && forall|i: int| j < i < k ==> !sets_axis(#[trigger] events[i], ABS_MT_SLOT) {
        let j = choose|j: int|
            0 <= j < k && sets_axis(#[trigger] events[j], ABS_MT_SLOT) && events[j].value == cur
                && forall|i: int| j < i < k ==> !sets_axis(#[trigger] events[i], ABS_MT_SLOT);
        assert(sets_axis(events[j], ABS_MT_SLOT));
        assert forall|i: int| j < i < k + 1 implies !sets_axis(
            #[trigger] events[i],
            ABS_MT_SLOT,
        ) by {
            if i < k {
                assert(!sets_axis(events[i], ABS_MT_SLOT));
            }
        }
    }
}

/// Event `k` replaces the touch in its slot if it brings an identity or an end, and no other.
proof fn lemma_started_next(events: Seq<RawEvent>, k: int, slot: i32, b: int)
    requires
        0 <= k < events.len(),
    ensures
        started_by(events, k + 1, slot, b) == if happens(events, k, slot, ABS_MT_TRACKING_ID) {
            b == k && events[k].value >= 0
        } else {
            started_by(events, k, slot, b)
        },
{
    if happens(events, k, slot, ABS_MT_TRACKING_ID) {
        if started_by(events, k + 1, slot, b) && b < k {
            assert(!happens(events, k, slot, ABS_MT_TRACKING_ID));
        }
    }
}

proof fn lemma_known_next(events: Seq<RawEvent>, b: int, k: int, slot: i32, code: u16)
    requires
        0 <= b < k < events.len(),
    ensures
        known(events, b, k + 1, slot, code) == (known(events, b, k, slot, code) || happens(
            events,
            k,
            slot,
            code,
        )),
{
    if known(events, b, k, slot, code) {
        let j = choose|j: int| b < j < k && #[trigger] happens(events, j, slot, code);
        assert(b < j < k + 1 && happens(events, j, slot, code));
    }
}

proof fn lemma_last_next(events: Seq<RawEvent>, b: int, k: int, slot: i32, code: u16, value: i32)
    requires
        0 <= b < k < events.len(),
    ensures
        last_is(events, b, k + 1, slot, code, value) == if happens(events, k, slot, code) {
            value == events[k].value
        } else {
            last_is(events, b, k, slot, code, value)
        },
{
    if happens(events, k, slot, code) {
        if last_is(events, b, k + 1, slot, code, value) {
            let j = choose|j: int|
                b < j < k + 1 && #[trigger] happens(events, j, slot, code) && events[j].value
                    == value && forall|i: int|
                    j < i < k + 1 ==> !#[trigger] happens(events, i, slot, code);
            assert(j == k);
        }
    } else {
        if last_is(events, b, k, slot, code, value) {
            let j = choose|j: int|
                b < j < k && #[trigger] happens(events, j, slot, code) && events[j].value == value
                    && forall|i: int| j < i < k ==> !#[trigger] happens(events, i, slot, code);
            assert(b < j < k + 1 && happens(events, j, slot, code));
        }
        if last_is(events, b, k + 1, slot, code, value) {
            let j = choose|j: int|
                b < j < k + 1 && #[trigger] happens(events, j, slot, code) && events[j].value
                    == value && forall|i: int|
                    j < i < k + 1 ==> !#[trigger] happens(events, i, slot, code);
            assert(b < j < k && happens(events, j, slot, code));
        }
    }
}

/// Nothing has had a value yet right behind the start.
proof fn lemma_nothing_known(events: Seq<RawEvent>, b: int, slot: i32, code: u16)
    ensures
        !known(events, b, b + 1, slot, code),
{
}

proof fn lemma_last_is_known(
    events: Seq<RawEvent>,
    b: int,
    k: int,
    slot: i32,
    code: u16,
    value: i32,
)
    requires
        last_is(events, b, k, slot, code, value),
    ensures
        known(events, b, k, slot, code),
{
}

/// Whether a remembered coordinate is what the history says.
spec fn recalls(
    events: Seq<RawEvent>,
    b: int,
    k: int,
    slot: i32,
    code: u16,
    coordinate: Option<i32>,
) -> bool {
    match coordinate {
        Some(value) => known(events, b, k, slot, code) && forall|v: i32| #[trigger]
            last_is(events, b, k, slot, code, v) <==> v == value,
        None => !known(events, b, k, slot, code),
    }
}

proof fn lemma_recalls_next(
    events: Seq<RawEvent>,
    b: int,
    k: int,
    slot: i32,
    code: u16,
    coordinate: Option<i32>,
)
    requires
        0 <= b < k < events.len(),
        recalls(events, b, k, slot, code, coordinate),
    ensures
        recalls(
            events,
            b,
            k + 1,
            slot,
            code,
            if happens(events, k, slot, code) {
                Some(events[k].value)
            } else {
                coordinate
            },
        ),
{
    lemma_known_next(events, b, k, slot, code);
    assert forall|v: i32| #[trigger]
        last_is(events, b, k + 1, slot, code, v) == if happens(events, k, slot, code) {
            v == events[k].value
        } else {
            last_is(events, b, k, slot, code, v)
        } by {
        lemma_last_next(events, b, k, slot, code, v);
    }
}

/// Whether the touches in the slot are what the history before event `k` says.
spec fn agrees(
    events: Seq<RawEvent>,
    k: int,
    slot: i32,
    zones: Seq<Polygon>,
    t: Touches,
) -> bool {
    &&& t.positions.contains_key(slot) ==> exists|b: int| #[trigger]
        started_by(events, k, slot, b)
    &&& forall|b: int| #[trigger]
        started_by(events, k, slot, b) ==> {
            &&& t.positions.contains_key(slot)
            &&& recalls(events, b, k, slot, ABS_MT_POSITION_X, t.positions[slot].0)
            &&& recalls(events, b, k, slot, ABS_MT_POSITION_Y, t.positions[slot].1)
            &&& t.is_blocked(slot) == began_in_zone(events, b, k, slot, zones)
        }
    &&& t.is_blocked(slot) ==> t.positions.contains_key(slot)
}

/// Event `k` decides about a touch if it places it for the first time, and only then.
proof fn lemma_began_next(
    events: Seq<RawEvent>,
    b: int,
    k: int,
    slot: i32,
    zones: Seq<Polygon>,
)
    requires
        0 <= b < k < events.len(),
    ensures
        began_in_zone(events, b, k + 1, slot, zones) <==> began_in_zone(events, b, k, slot, zones)
            || exists|x: i32, y: i32| #[trigger]
            placed_by(events, b, k, slot, x, y) && inside_any(zones, x, y),
{
    if began_in_zone(events, b, k, slot, zones) {
        let (c, x, y) = choose|c: int, x: i32, y: i32|
            b < c < k && #[trigger] placed_by(events, b, c, slot, x, y) && inside_any(zones, x, y);
        assert(b < c < k + 1 && placed_by(events, b, c, slot, x, y));
    }
    if began_in_zone(events, b, k + 1, slot, zones) {
        let (c, x, y) = choose|c: int, x: i32, y: i32|
            b < c < k + 1 && #[trigger] placed_by(events, b, c, slot, x, y) && inside_any(
                zones,
                x,
                y,
            );
        assert(placed_by(events, b, c, slot, x, y));
    }
}

/// The first position that event `k` completes is the one that the history says.
proof fn lemma_placed_is_first_position(
    events: Seq<RawEvent>,
    b: int,
    k: int,
    slot: i32,
    t: Touches,
    x: i32,
    y: i32,
)
    requires
        0 <= b < k < events.len(),
        named_last(events, k, t.current),
        t.positions.contains_key(slot),
        recalls(events, b, k, slot, ABS_MT_POSITION_X, t.positions[slot].0),
        recalls(events, b, k, slot, ABS_MT_POSITION_Y, t.positions[slot].1),
    ensures
        placed_by(events, b, k, slot, x, y) <==> slot == t.current && first_position(
            t,
            summary_of(events[k]),
        ) == Some((x, y)),
{
    if slot != t.current && named_last(events, k, slot) {
        lemma_named_once(events, k, slot, t.current);
    }
    lemma_known_next(events, b, k, slot, ABS_MT_POSITION_X);
    lemma_known_next(events, b, k, slot, ABS_MT_POSITION_Y);
    lemma_last_next(events, b, k, slot, ABS_MT_POSITION_X, x);
    lemma_last_next(events, b, k, slot, ABS_MT_POSITION_Y, y);
    if last_is(events, b, k + 1, slot, ABS_MT_POSITION_X, x) {
        lemma_last_is_known(events, b, k + 1, slot, ABS_MT_POSITION_X, x);
    }
    if last_is(events, b, k + 1, slot, ABS_MT_POSITION_Y, y) {
        lemma_last_is_known(events, b, k + 1, slot, ABS_MT_POSITION_Y, y);
    }
}

/// What the history says of a slot is kept up by every event.
proof fn lemma_agrees_next(
    events: Seq<RawEvent>,
    k: int,
    slot: i32,
    zones: Seq<Polygon>,
    t: Touches,
)
    requires
        0 <= k < events.len(),
        named_last(events, k, t.current),
        agrees(events, k, slot, zones, t),
    ensures
        agrees(events, k + 1, slot, zones, after(t, summary_of(events[k]), zones)),
{
    let e = summary_of(events[k]);
    let u = after(t, e, zones);
    let here = slot == t.current;
    if !here && named_last(events, k, slot) {
        lemma_named_once(events, k, slot, t.current);
    }
    assert(happens(events, k, slot, ABS_MT_TRACKING_ID) == (here && sets_axis(
        events[k],
        ABS_MT_TRACKING_ID,
    )));
    assert forall|b: int| #[trigger]
        started_by(events, k + 1, slot, b) == if happens(events, k, slot, ABS_MT_TRACKING_ID) {
            b == k && events[k].value >= 0
        } else {
            started_by(events, k, slot, b)
        } by {
        lemma_started_next(events, k, slot, b);
    }
    if happens(events, k, slot, ABS_MT_TRACKING_ID) {
        lemma_nothing_known(events, k, slot, ABS_MT_POSITION_X);
        lemma_nothing_known(events, k, slot, ABS_MT_POSITION_Y);
        if events[k].value >= 0 {
            assert(started_by(events, k + 1, slot, k));
        }
        assert(!began_in_zone(events, k, k + 1, slot, zones));
    } else {
        if u.positions.contains_key(slot) {
            let b = choose|b: int| #[trigger] started_by(events, k, slot, b);
            assert(started_by(events, k + 1, slot, b));
        }
        assert forall|b: int| #[trigger] started_by(events, k + 1, slot, b) implies {
            &&& u.positions.contains_key(slot)
            &&& recalls(events, b, k + 1, slot, ABS_MT_POSITION_X, u.positions[slot].0)
            &&& recalls(events, b, k + 1, slot, ABS_MT_POSITION_Y, u.positions[slot].1)
            &&& u.is_blocked(slot) == began_in_zone(events, b, k + 1, slot, zones)
        } by {
            assert(started_by(events, k, slot, b));
            lemma_recalls_next(events, b, k, slot, ABS_MT_POSITION_X, t.positions[slot].0);
            lemma_recalls_next(events, b, k, slot, ABS_MT_POSITION_Y, t.positions[slot].1);
            lemma_began_next(events, b, k, slot, zones);
            assert forall|x: i32, y: i32| #[trigger]
                placed_by(events, b, k, slot, x, y) <==> here && first_position(t, e) == Some(
                    (x, y),
                ) by {
                lemma_placed_is_first_position(events, b, k, slot, t, x, y);
            }
            if let Some((x, y)) = first_position(t, e) {
                assert(placed_by(events, b, k, slot, x, y) == here);
            }
        }
    }
}

/// After every run of events the current slot is the one that was named last.
pub proof fn law_current_slot_was_named_last(events: Seq<RawEvent>, zones: Seq<Polygon>, k: int)
    requires
        0 <= k <= events.len(),
    ensures
        named_last(events, k, after_all(no_touches(), events.take(k), zones).current),
    decreases k,
{
    if k > 0 {
        law_current_slot_was_named_last(events, zones, k - 1);
        lemma_take_next(events, zones, k - 1);
        let t = after_all(no_touches(), events.take(k - 1), zones);
        lemma_named_next(events, k - 1, t.current);
    }
}

proof fn lemma_take_next(events: Seq<RawEvent>, zones: Seq<Polygon>, k: int)
    requires
        0 <= k < events.len(),
    ensures
        after_all(no_touches(), events.take(k + 1), zones) == after(
            after_all(no_touches(), events.take(k), zones),
            summary_of(events[k]),
            zones,
        ),
        notices(no_touches(), events.take(k + 1), zones) == match notice_of(
            after_all(no_touches(), events.take(k), zones),
            summary_of(events[k]),
            zones,
        ) {
            Some(notice) => notices(no_touches(), events.take(k), zones).push(notice),
            None => notices(no_touches(), events.take(k), zones),
        },
{
    assert(events.take(k + 1).drop_last() =~= events.take(k));
    assert(events.take(k + 1).last() == events[k]);
}

proof fn lemma_history(events: Seq<RawEvent>, zones: Seq<Polygon>, k: int, slot: i32)
    requires
        0 <= k <= events.len(),
    ensures
        agrees(events, k, slot, zones, after_all(no_touches(), events.take(k), zones)),
    decreases k,
{
    if k > 0 {
        lemma_history(events, zones, k - 1, slot);
        law_current_slot_was_named_last(events, zones, k - 1);
        lemma_take_next(events, zones, k - 1);
        lemma_agrees_next(
            events,
            k - 1,
            slot,
            zones,
            after_all(no_touches(), events.take(k - 1), zones),
        );
    }
}

/// What becomes of an event in a run is what becomes of it alone, after the events before it.
pub proof fn law_events_are_filtered_one_by_one(
    s: Touches,
    events: Seq<RawEvent>,
    zones: Seq<Polygon>,
    k: int,
)
    requires
        0 <= k < events.len(),
    ensures
        passed(s, events, zones).len() == events.len(),
        passed(s, events, zones)[k] == passes(
            after_all(s, events.take(k), zones),
            summary_of(events[k]),
            zones,
        ),
        after_all(s, events.take(k + 1), zones) == after(
            after_all(s, events.take(k), zones),
            summary_of(events[k]),
            zones,
        ),
        notices(s, events.take(k + 1), zones) == notices(s, events.take(k), zones) + match notice_of(
            after_all(s, events.take(k), zones),
            summary_of(events[k]),
            zones,
        ) {
            Some(notice) => seq![notice],
            None => Seq::empty(),
        },
    decreases events.len(),
{
    let before = events.drop_last();
    assert(events.take(k + 1).drop_last() =~= events.take(k));
    assert(events.take(k + 1).last() == events[k]);
    if before.len() > 0 {
        law_events_are_filtered_one_by_one(
            s,
            before,
            zones,
            if k < before.len() {
                k
            } else {
                0
            },
        );
    } else {
        assert(passed(s, before, zones) =~= Seq::empty());
    }
    if k < before.len() {
        assert(before.take(k) =~= events.take(k));
    } else {
        assert(before =~= events.take(k));
    }
}

/// What becomes of an event, told by the events before it: it is held back exactly if it is about
/// the place, the size or the pressure of a touch, and the touch in the slot that was named last was
/// first placed in an exclusion zone, this event taken into account. A touch lasts from the identity
/// that starts it to the next identity or end in its slot, whatever happens in other slots.
pub proof fn law_history_decides(
    events: Seq<RawEvent>,
    zones: Seq<Polygon>,
    k: int,
    slot: i32,
)
    requires
        0 <= k < events.len(),
        named_last(events, k, slot),
    ensures
        passed(no_touches(), events, zones).len() == events.len(),
        !passed(no_touches(), events, zones)[k] <==> {
            &&& {
                ||| sets_axis(events[k], ABS_MT_POSITION_X)
                ||| sets_axis(events[k], ABS_MT_POSITION_Y)
                ||| sets_axis(events[k], ABS_MT_TOUCH_MAJOR)
                ||| sets_axis(events[k], ABS_MT_TOUCH_MINOR)
                ||| sets_axis(events[k], ABS_MT_PRESSURE)
            }
            &&& palm_in_slot(events, k + 1, slot, zones)
        },
{
    law_events_are_filtered_one_by_one(no_touches(), events, zones, k);
    law_current_slot_was_named_last(events, zones, k);
    let t = after_all(no_touches(), events.take(k), zones);
    lemma_named_once(events, k, slot, t.current);
    lemma_history(events, zones, k + 1, slot);
    let u = after_all(no_touches(), events.take(k + 1), zones);
    if u.is_blocked(slot) {
        let b = choose|b: int| #[trigger] started_by(events, k + 1, slot, b);
        assert(started_by(events, k + 1, slot, b));
    }
    assert(u.is_blocked(slot) == palm_in_slot(events, k + 1, slot, zones));
}

/// What is reported, told by the events: an event that places a touch for the first time, in an
/// exclusion zone, adds a notice about the slot and the position, and no other event adds one.
pub proof fn law_history_is_reported(
    events: Seq<RawEvent>,
    zones: Seq<Polygon>,
    k: int,
    slot: i32,
)
    requires
        0 <= k < events.len(),
        named_last(events, k, slot),
    ensures
        ({
            let before = notices(no_touches(), events.take(k), zones);
            let now = notices(no_touches(), events.take(k + 1), zones);
            &&& forall|b: int, x: i32, y: i32|
                started_by(events, k, slot, b) && #[trigger] placed_by(events, b, k, slot, x, y)
                    && inside_any(zones, x, y) ==> now == before.push(Notice { slot, x, y })
            &&& (forall|b: int, x: i32, y: i32|
                started_by(events, k, slot, b) && #[trigger] placed_by(events, b, k, slot, x, y)
                    ==> !inside_any(zones, x, y)) ==> now == before
        }),
{
    law_current_slot_was_named_last(events, zones, k);
    let t = after_all(no_touches(), events.take(k), zones);
    let e = summary_of(events[k]);
    lemma_named_once(events, k, slot, t.current);
    lemma_history(events, zones, k, slot);
    lemma_take_next(events, zones, k);
    assert forall|b: int, x: i32, y: i32|
        started_by(events, k, slot, b) && #[trigger] placed_by(
            events,
            b,
            k,
            slot,
            x,
            y,
        ) implies first_position(t, e) == Some((x, y)) by {
        lemma_placed_is_first_position(events, b, k, slot, t, x, y);
    }
    if let Some((x, y)) = first_position(t, e) {
        let b = choose|b: int| #[trigger] started_by(events, k, slot, b);
        lemma_placed_is_first_position(events, b, k, slot, t, x, y);
        assert(placed_by(events, b, k, slot, x, y));
    }
}

/// Only an event that names a slot changes the current slot; the start and the end of a touch do
/// not.
pub proof fn law_only_naming_changes_the_slot(s: Touches, e: RawEvent, zones: Seq<Polygon>)
    ensures
        sets_axis(e, ABS_MT_SLOT) ==> after(s, summary_of(e), zones).current == e.value,
        !sets_axis(e, ABS_MT_SLOT) ==> after(s, summary_of(e), zones).current == s.current,
{
}

/// A new filter knows no touch, and slot 0 is current.
pub proof fn law_new_filter_knows_nothing(slot: i32)
    ensures
        no_touches().current == 0,
        !no_touches().positions.contains_key(slot),
        !no_touches().blocked.contains_key(slot),
{
}

} // verus!
