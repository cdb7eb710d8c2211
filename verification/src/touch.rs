//! Touches, and which of their events to pass on.

use std::collections::HashMap;
use vstd::prelude::*;

use crate::codes::{
    ABS_MT_POSITION_X, ABS_MT_POSITION_Y, ABS_MT_PRESSURE, ABS_MT_SLOT, ABS_MT_TOUCH_MAJOR,
    ABS_MT_TOUCH_MINOR, ABS_MT_TRACKING_ID, EV_ABS,
};
use crate::polygon::{inside_any, is_in_any_polygon, testable_in_turn, Polygon};
use crate::touch_laws::law_touches_stay_consistent;

verus! {

/// An input event as the kernel reports it.
#[derive(Debug, Clone, Copy, PartialEq, Eq, Structural)]
pub struct RawEvent {
    pub kind: u16,
    pub code: u16,
    pub value: i32,
}

/// What an input event says, as far as it is about an absolute axis.
#[derive(Debug, Clone, Copy, PartialEq, Eq, Structural)]
pub enum Summary {
    /// The axis with this code has this value.
    AbsoluteAxis(u16, i32),
    /// Something else.
    Other,
}

/// What an event with these fields says.
pub open spec fn summary_of(event: RawEvent) -> Summary {
    if event.kind == EV_ABS {
        Summary::AbsoluteAxis(event.code, event.value)
    } else {
        Summary::Other
    }
}

/// `evdev::InputEvent::destructure`: an event of the type for absolute axes becomes an
/// `AbsoluteAxis` with the event's code and value, an event of any other type becomes another
/// variant.
#[verifier::external_body]
fn destructure(event: RawEvent) -> (summary: Summary)
    ensures
        summary == summary_of(event),
{
    match evdev::InputEvent::new(event.kind, event.code, event.value).destructure() {
        evdev::EventSummary::AbsoluteAxis(_, code, value) => Summary::AbsoluteAxis(code.0, value),
        _ => Summary::Other,
    }
}

/// A touch that was blocked, and where it started.
#[derive(Debug, Clone, Copy, PartialEq, Eq, Structural)]
pub struct Notice {
    pub slot: i32,
    pub x: i32,
    pub y: i32,
}

/// The touches on the touchpad.
#[verifier::ext_equal]
pub struct Touches {
    /// The slot that multitouch events belong to.
    pub current: i32,
    /// The last position in each slot with a touch, as far as it is known.
    pub positions: Map<i32, (Option<i32>, Option<i32>)>,
    /// Whether the touch in each slot started in an exclusion zone.
    pub blocked: Map<i32, bool>,
}

/// No touch, with the first slot current.
pub open spec fn no_touches() -> Touches {
    Touches { current: 0, positions: Map::empty(), blocked: Map::empty() }
}

impl Touches {
    /// Whether the touch in the slot is blocked.
    pub open spec fn is_blocked(self, slot: i32) -> bool {
        self.blocked.contains_key(slot) && self.blocked[slot]
    }

    /// Whether both coordinates of the touch in the slot are known.
    pub open spec fn is_placed(self, slot: i32) -> bool {
        self.positions.contains_key(slot) && self.positions[slot].0 is Some
            && self.positions[slot].1 is Some
    }

    /// Whether the same slots have a position and a verdict, and only touches whose position is
    /// known are blocked.
    pub open spec fn consistent(self) -> bool {
        &&& self.positions.dom() == self.blocked.dom()
        &&& forall|slot: i32| #[trigger] self.is_blocked(slot) ==> self.is_placed(slot)
    }
}

/// The position that the event completes, if it gives the missing coordinate of a touch of which
/// the other is known.
pub open spec fn first_position(s: Touches, e: Summary) -> Option<(i32, i32)> {
    match e {
        Summary::AbsoluteAxis(code, value) => if !s.positions.contains_key(s.current) {
            None
        } else {
            match s.positions[s.current] {
                (None, Some(y)) => if code == ABS_MT_POSITION_X {
                    Some((value, y))
                } else {
                    None
                },
                (Some(x), None) => if code == ABS_MT_POSITION_Y {
                    Some((x, value))
                } else {
                    None
                },
                _ => None,
            }
        },
        Summary::Other => None,
    }
}

/// Whether the event completes a position in an exclusion zone.
pub open spec fn starts_in_zone(s: Touches, e: Summary, zones: Seq<Polygon>) -> bool {
    match first_position(s, e) {
        Some((x, y)) => inside_any(zones, x, y),
        None => false,
    }
}

/// The touches after an event.
pub open spec fn after(s: Touches, e: Summary, zones: Seq<Polygon>) -> Touches {
    let slot = s.current;
    match e {
        Summary::AbsoluteAxis(code, value) => if code == ABS_MT_SLOT {
            Touches { current: value, ..s }
        } else if code == ABS_MT_TRACKING_ID {
            if value >= 0 {
                Touches {
                    positions: s.positions.insert(slot, (None, None)),
                    blocked: s.blocked.insert(slot, false),
                    ..s
                }
            } else {
                Touches {
                    positions: s.positions.remove(slot),
                    blocked: s.blocked.remove(slot),
                    ..s
                }
            }
        } else if (code == ABS_MT_POSITION_X || code == ABS_MT_POSITION_Y)
            && s.positions.contains_key(slot) {
            let (x, y) = s.positions[slot];
            Touches {
                positions: s.positions.insert(
                    slot,
                    if code == ABS_MT_POSITION_X {
                        (Some(value), y)
                    } else {
                        (x, Some(value))
                    },
                ),
                blocked: if starts_in_zone(s, e, zones) {
                    s.blocked.insert(slot, true)
                } else {
                    s.blocked
                },
                ..s
            }
        } else {
            s
        },
        Summary::Other => s,
    }
}

/// Whether the event is about the place, the size or the pressure of the touch in the current slot.
pub open spec fn about_touch(e: Summary) -> bool {
    match e {
        Summary::AbsoluteAxis(code, _) => {
            ||| code == ABS_MT_POSITION_X
            ||| code == ABS_MT_POSITION_Y
            ||| code == ABS_MT_TOUCH_MAJOR
            ||| code == ABS_MT_TOUCH_MINOR
            ||| code == ABS_MT_PRESSURE
        },
        Summary::Other => false,
    }
}

/// Whether the event is passed on: all are but those about a touch that is blocked, this event
/// taken into account.
pub open spec fn passes(s: Touches, e: Summary, zones: Seq<Polygon>) -> bool {
    !(about_touch(e) && after(s, e, zones).is_blocked(s.current))
}

/// The notice about a touch that the event shows to start in an exclusion zone.
pub open spec fn notice_of(s: Touches, e: Summary, zones: Seq<Polygon>) -> Option<Notice> {
    match first_position(s, e) {
        Some((x, y)) => if inside_any(zones, x, y) {
            Some(Notice { slot: s.current, x, y })
        } else {
            None
        },
        None => None,
    }
}

/// Whether the zones can be tested for the position that the event completes, if it does.
pub open spec fn decidable(s: Touches, e: Summary, zones: Seq<Polygon>) -> bool {
    match first_position(s, e) {
        Some((x, y)) => testable_in_turn(zones, x, y),
        None => true,
    }
}

/// The touches after a run of events.
pub open spec fn after_all(s: Touches, events: Seq<RawEvent>, zones: Seq<Polygon>) -> Touches
    decreases events.len(),
{
    if events.len() == 0 {
        s
    } else {
        after(after_all(s, events.drop_last(), zones), summary_of(events.last()), zones)
    }
}

/// Which events of a run are passed on.
pub open spec fn passed(s: Touches, events: Seq<RawEvent>, zones: Seq<Polygon>) -> Seq<bool>
    decreases events.len(),
{
    if events.len() == 0 {
        Seq::empty()
    } else {
        passed(s, events.drop_last(), zones).push(
            passes(
                after_all(s, events.drop_last(), zones),
                summary_of(events.last()),
                zones,
            ),
        )
    }
}

/// The notices about the touches that are blocked during a run of events.
pub open spec fn notices(s: Touches, events: Seq<RawEvent>, zones: Seq<Polygon>) -> Seq<Notice>
    decreases events.len(),
{
    if events.len() == 0 {
        Seq::empty()
    } else {
        let before = notices(s, events.drop_last(), zones);
        match notice_of(
            after_all(s, events.drop_last(), zones),
            summary_of(events.last()),
            zones,
        ) {
            Some(notice) => before.push(notice),
            None => before,
        }
    }
}

/// Whether the zones can be tested for every position that a run of events completes.
pub open spec fn all_decidable(s: Touches, events: Seq<RawEvent>, zones: Seq<Polygon>) -> bool {
    forall|i: int|
        0 <= i < events.len() ==> decidable(
            after_all(s, #[trigger] events.take(i), zones),
            summary_of(events[i]),
            zones,
        )
}

/// What becomes of one event.
#[derive(Debug, Clone, Copy)]
pub struct Verdict {
    /// Whether to pass the event on.
    pub forward: bool,
    /// The touch that the event shows to start in an exclusion zone.
    pub notice: Option<Notice>,
}

/// What becomes of a run of events.
#[derive(Debug)]
pub struct Batch {
    /// For each event, whether to pass it on.
    pub forward: Vec<bool>,
    /// The touches that were blocked.
    pub notices: Vec<Notice>,
}

/// The state of the palm filter.
pub struct TouchFilter {
    current_slot: i32,
    slot_positions: HashMap<i32, (Option<i32>, Option<i32>)>,
    slot_blocked: HashMap<i32, bool>,
}

impl View for TouchFilter {
    type V = Touches;

    closed spec fn view(&self) -> Touches {
        Touches {
            current: self.current_slot,
            positions: self.slot_positions@,
            blocked: self.slot_blocked@,
        }
    }
}

impl TouchFilter {
    /// A filter that has seen no touch.
    pub fn new() -> (filter: Self)
        ensures
            filter@ == no_touches(),
            filter@.consistent(),
    {
        let filter = TouchFilter {
            current_slot: 0,
            slot_positions: HashMap::new(),
            slot_blocked: HashMap::new(),
        };
        assert(filter@.positions.dom() =~= filter@.blocked.dom());
        filter
    }

    /// Whether the touch in the current slot is blocked.
    fn current_is_blocked(&self) -> (blocked: bool)
        ensures
            blocked == self@.is_blocked(self@.current),
    {
        match self.slot_blocked.get(&self.current_slot) {
            Some(blocked) => *blocked,
            None => false,
        }
    }

    /// Takes note of a coordinate of the touch in the current slot, and decides, when it completes
    /// the first position, whether the touch is blocked.
    fn place(&mut self, is_x: bool, value: i32, zones: &[Polygon]) -> (notice: Option<Notice>)
        requires
            ({
                let code = if is_x {
                    ABS_MT_POSITION_X
                } else {
                    ABS_MT_POSITION_Y
                };
                decidable(old(self)@, Summary::AbsoluteAxis(code, value), zones@)
            }),
        ensures
            ({
                let code = if is_x {
                    ABS_MT_POSITION_X
                } else {
                    ABS_MT_POSITION_Y
                };
                let e = Summary::AbsoluteAxis(code, value);
                &&& final(self)@ == after(old(self)@, e, zones@)
                &&& notice == notice_of(old(self)@, e, zones@)
            }),
    {
        let slot = self.current_slot;
        let known = match self.slot_positions.get(&slot) {
            Some(position) => Some(*position),
            None => None,
        };
        match known {
            None => None,
            Some((old_x, old_y)) => {
                let (new, first) = if is_x {
                    (
                        (Some(value), old_y),
                        match (old_x, old_y) {
                            (None, Some(y)) => Some((value, y)),
                            _ => None,
                        },
                    )
                } else {
                    (
                        (old_x, Some(value)),
                        match (old_x, old_y) {
                            (Some(x), None) => Some((x, value)),
                            _ => None,
                        },
                    )
                };
                self.slot_positions.insert(slot, new);
                match first {
                    Some((x, y)) => if is_in_any_polygon(x, y, zones) {
                        self.slot_blocked.insert(slot, true);
                        Some(Notice { slot, x, y })
                    } else {
                        None
                    },
                    None => None,
                }
            },
        }
    }

    /// Takes note of an event and says whether to pass it on.
    ///
    /// Only events about a touch that is blocked are held back. The axes of the pointer as a whole
    /// are always passed on.
    pub fn process(&mut self, event: RawEvent, zones: &[Polygon]) -> (verdict: Verdict)
        requires
            decidable(old(self)@, summary_of(event), zones@),
        ensures
            final(self)@ == after(old(self)@, summary_of(event), zones@),
            verdict.forward == passes(old(self)@, summary_of(event), zones@),
            verdict.notice == notice_of(old(self)@, summary_of(event), zones@),
            old(self)@.consistent() ==> final(self)@.consistent(),
    {
        proof {
            if self@.consistent() {
                law_touches_stay_consistent(self@, summary_of(event), zones@);
            }
        }
        let mut notice: Option<Notice> = None;
        let mut about_touch = false;
        match destructure(event) {
            Summary::AbsoluteAxis(code, value) => {
                if code == ABS_MT_SLOT {
                    self.current_slot = value;
                } else if code == ABS_MT_TRACKING_ID {
                    if value >= 0 {
                        // A touch has started.
                        self.slot_positions.insert(self.current_slot, (None, None));
                        self.slot_blocked.insert(self.current_slot, false);
                    } else {
                        // The touch has ended.
                        self.slot_blocked.remove(&self.current_slot);
                        self.slot_positions.remove(&self.current_slot);
                    }
                } else if code == ABS_MT_POSITION_X {
                    notice = self.place(true, value, zones);
                } else if code == ABS_MT_POSITION_Y {
                    notice = self.place(false, value, zones);
                }
                about_touch = code == ABS_MT_POSITION_X || code == ABS_MT_POSITION_Y || code
                    == ABS_MT_TOUCH_MAJOR || code == ABS_MT_TOUCH_MINOR || code
                    == ABS_MT_PRESSURE;
            },
            Summary::Other => {},
        }
        let forward = !(about_touch && self.current_is_blocked());
        Verdict { forward, notice }
    }

    /// Takes note of a run of events and says which to pass on.
    pub fn process_batch(&mut self, events: &Vec<RawEvent>, zones: &[Polygon]) -> (batch: Batch)
        requires
            all_decidable(old(self)@, events@, zones@),
        ensures
            final(self)@ == after_all(old(self)@, events@, zones@),
            batch.forward@ == passed(old(self)@, events@, zones@),
            batch.notices@ == notices(old(self)@, events@, zones@),
            old(self)@.consistent() ==> final(self)@.consistent(),
    {
        let ghost s = self@;
        let mut forward: Vec<bool> = Vec::new();
        let mut list: Vec<Notice> = Vec::new();
        assert(events@.take(0) =~= Seq::empty());
        for i in 0..events.len()
            invariant
                s == old(self)@,
                s.consistent() ==> self@.consistent(),
                all_decidable(s, events@, zones@),
                self@ == after_all(s, events@.take(i as int), zones@),
                forward@ == passed(s, events@.take(i as int), zones@),
                list@ == notices(s, events@.take(i as int), zones@),
        {
            let ghost upto = events@.take(i + 1);
            assert(upto.drop_last() =~= events@.take(i as int));
            assert(upto.last() == events@[i as int]);
            let verdict = self.process(events[i], zones);
            forward.push(verdict.forward);
            if let Some(notice) = verdict.notice {
                list.push(notice);
            }
        }
        assert(events@.take(events.len() as int) =~= events@);
        Batch { forward, notices: list }
    }
}

} // verus!
