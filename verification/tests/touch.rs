use unpalm::codes::{
    ABS_MT_POSITION_X, ABS_MT_POSITION_Y, ABS_MT_PRESSURE, ABS_MT_SLOT, ABS_MT_TOUCH_MAJOR,
    ABS_MT_TOUCH_MINOR, ABS_MT_TRACKING_ID, ABS_X, ABS_Y, EV_ABS,
};
use unpalm::polygon::Polygon;
use unpalm::touch::{Notice, RawEvent, TouchFilter};

fn abs(code: u16, value: i32) -> RawEvent {
    RawEvent {
        kind: EV_ABS,
        code,
        value,
    }
}

fn syn() -> RawEvent {
    RawEvent {
        kind: 0,
        code: 0,
        value: 0,
    }
}

fn zones() -> Vec<Polygon> {
    vec![Polygon::rectangle(0, 0, 10, 100)]
}

fn run(filter: &mut TouchFilter, events: &[RawEvent]) -> Vec<bool> {
    filter.process_batch(&events.to_vec(), &zones()).forward
}

#[test]
fn touch_that_starts_in_a_zone_is_blocked() {
    let mut filter = TouchFilter::new();
    let events = vec![
        abs(ABS_MT_TRACKING_ID, 7),
        abs(ABS_MT_POSITION_X, 5),
        abs(ABS_MT_POSITION_Y, 50),
        abs(ABS_MT_TOUCH_MAJOR, 1),
        abs(ABS_MT_TOUCH_MINOR, 1),
        abs(ABS_MT_PRESSURE, 1),
        abs(ABS_X, 5),
        abs(ABS_Y, 50),
        syn(),
        abs(ABS_MT_POSITION_X, 500),
    ];
    let batch = filter.process_batch(&events, &zones());
    assert_eq!(
        batch.forward,
        vec![true, true, false, false, false, false, true, true, true, false]
    );
    assert_eq!(
        batch.notices,
        vec![Notice {
            slot: 0,
            x: 5,
            y: 50
        }]
    );
}

#[test]
fn coordinates_may_come_in_either_order() {
    let mut filter = TouchFilter::new();
    let events = [
        abs(ABS_MT_TRACKING_ID, 0),
        abs(ABS_MT_POSITION_Y, 50),
        abs(ABS_MT_POSITION_X, 5),
        abs(ABS_MT_POSITION_Y, 51),
    ];
    assert_eq!(run(&mut filter, &events), vec![true, true, false, false]);
}

#[test]
fn touch_that_starts_outside_may_enter_a_zone() {
    let mut filter = TouchFilter::new();
    let events = [
        abs(ABS_MT_TRACKING_ID, 7),
        abs(ABS_MT_POSITION_X, 50),
        abs(ABS_MT_POSITION_Y, 50),
        abs(ABS_MT_POSITION_X, 5),
        abs(ABS_MT_PRESSURE, 9),
    ];
    assert_eq!(run(&mut filter, &events), vec![true; 5]);
}

#[test]
fn verdict_ends_with_the_touch() {
    let mut filter = TouchFilter::new();
    let blocked = [
        abs(ABS_MT_TRACKING_ID, 7),
        abs(ABS_MT_POSITION_X, 5),
        abs(ABS_MT_POSITION_Y, 50),
    ];
    assert_eq!(run(&mut filter, &blocked), vec![true, true, false]);
    let next = [
        abs(ABS_MT_TRACKING_ID, -1),
        abs(ABS_MT_POSITION_X, 5),
        abs(ABS_MT_TRACKING_ID, 8),
        abs(ABS_MT_POSITION_X, 50),
        abs(ABS_MT_POSITION_Y, 50),
    ];
    assert_eq!(run(&mut filter, &next), vec![true; 5]);
}

#[test]
fn slots_are_judged_apart() {
    let mut filter = TouchFilter::new();
    let events = [
        abs(ABS_MT_TRACKING_ID, 1),
        abs(ABS_MT_POSITION_X, 5),
        abs(ABS_MT_POSITION_Y, 50),
        abs(ABS_MT_SLOT, 1),
        abs(ABS_MT_TRACKING_ID, 2),
        abs(ABS_MT_POSITION_X, 60),
        abs(ABS_MT_POSITION_Y, 60),
        abs(ABS_MT_SLOT, 0),
        abs(ABS_MT_POSITION_X, 70),
        abs(ABS_MT_SLOT, 1),
        abs(ABS_MT_POSITION_X, 71),
    ];
    assert_eq!(
        run(&mut filter, &events),
        vec![true, true, false, true, true, true, true, true, false, true, true]
    );
}

#[test]
fn events_of_other_types_change_nothing() {
    let mut filter = TouchFilter::new();
    let events = [
        abs(ABS_MT_TRACKING_ID, 1),
        RawEvent {
            kind: 1,
            code: ABS_MT_SLOT,
            value: 4,
        },
        RawEvent {
            kind: 1,
            code: ABS_MT_POSITION_X,
            value: 90,
        },
        abs(ABS_MT_POSITION_X, 5),
        abs(ABS_MT_POSITION_Y, 50),
        RawEvent {
            kind: 1,
            code: ABS_MT_PRESSURE,
            value: 1,
        },
    ];
    assert_eq!(
        run(&mut filter, &events),
        vec![true, true, true, true, false, true]
    );
}

#[test]
fn without_a_touch_positions_are_not_tested() {
    let mut filter = TouchFilter::new();
    let events = [abs(ABS_MT_POSITION_X, 5), abs(ABS_MT_POSITION_Y, 50)];
    assert_eq!(run(&mut filter, &events), vec![true, true]);
}

#[test]
fn without_zones_all_events_pass() {
    let mut filter = TouchFilter::new();
    let events = vec![
        abs(ABS_MT_TRACKING_ID, 1),
        abs(ABS_MT_POSITION_X, 5),
        abs(ABS_MT_POSITION_Y, 50),
    ];
    let batch = filter.process_batch(&events, &[]);
    assert_eq!(batch.forward, vec![true; 3]);
    assert!(batch.notices.is_empty());
}

#[test]
fn batches_may_be_divided_anywhere() {
    let events = vec![
        abs(ABS_MT_TRACKING_ID, 7),
        abs(ABS_MT_POSITION_X, 5),
        abs(ABS_MT_POSITION_Y, 50),
        abs(ABS_MT_PRESSURE, 1),
        abs(ABS_MT_TRACKING_ID, -1),
        syn(),
    ];
    let whole = run(&mut TouchFilter::new(), &events);
    for i in 0..events.len() {
        let mut filter = TouchFilter::new();
        let mut parts = run(&mut filter, &events[..i]);
        parts.extend(run(&mut filter, &events[i..]));
        assert_eq!(parts, whole);
    }
    let mut filter = TouchFilter::new();
    let single: Vec<bool> = events
        .iter()
        .map(|e| filter.process(*e, &zones()).forward)
        .collect();
    assert_eq!(single, whole);
}

#[test]
fn touches_that_start_outside_pass_whole() {
    let mut filter = TouchFilter::new();
    let events = vec![
        abs(ABS_MT_TRACKING_ID, 1),
        abs(ABS_MT_POSITION_X, 500),
        abs(ABS_MT_POSITION_Y, 50),
        abs(ABS_MT_POSITION_X, 0),
        syn(),
        abs(ABS_MT_TRACKING_ID, -1),
    ];
    let batch = filter.process_batch(&events, &zones());
    assert_eq!(batch.forward, vec![true; 6]);
    assert!(batch.notices.is_empty());
}
