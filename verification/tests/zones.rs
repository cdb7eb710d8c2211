use unpalm::percent::Percent;
use unpalm::polygon::{is_in_any_polygon, Polygon};
use unpalm::zones::{
    choose_margins, exclusion_zones, is_explicit, measure, Margins, Widths, DEFAULT_SIDE_BITS,
    DEFAULT_TOP_BITS,
};

const NONE: Margins = Margins {
    left: None,
    right: None,
    top: None,
    bottom: None,
};

fn margin(percent: f32) -> Option<Percent> {
    Some(Percent {
        bits: percent.to_bits(),
    })
}

fn width(percent: Percent, max: i32) -> i32 {
    (max as f32 * f32::from_bits(percent.bits) / 100.0) as i32
}

fn vertices(zones: &[Polygon]) -> Vec<Vec<(i32, i32)>> {
    zones.iter().map(|z| z.vertices.clone()).collect()
}

#[test]
fn defaults_are_used_without_arguments() {
    let zones = exclusion_zones(&NONE, vec![], 100, 200, width);
    assert_eq!(
        vertices(&zones),
        vec![
            vec![(0, 0), (100, 0), (100, 40), (0, 40)],
            vec![(0, 0), (30, 0), (0, 200)],
            vec![(70, 0), (100, 0), (100, 200)],
        ]
    );
    for x in 0..100 {
        assert!(is_in_any_polygon(x, 39, &zones));
    }
    assert!(!is_in_any_polygon(50, 100, &zones));
    assert!(zones.iter().all(|z| !z.vertices.is_empty()));
}

#[test]
fn all_margins_and_polygons() {
    let margins = Margins {
        left: margin(10.0),
        right: margin(20.0),
        top: margin(5.0),
        bottom: margin(2.5),
    };
    let triangle = Polygon {
        vertices: vec![(40, 40), (60, 40), (50, 60)],
    };
    let zones = exclusion_zones(&margins, vec![triangle], 100, 200, width);
    assert_eq!(
        vertices(&zones),
        vec![
            vec![(0, 0), (10, 0), (10, 200), (0, 200)],
            vec![(80, 0), (100, 0), (100, 200), (80, 200)],
            vec![(0, 0), (100, 0), (100, 10), (0, 10)],
            vec![(0, 195), (100, 195), (100, 200), (0, 200)],
            vec![(40, 40), (60, 40), (50, 60)],
        ]
    );
}

#[test]
fn margins_block_exactly_the_edges() {
    let margins = Margins {
        left: margin(10.0),
        right: margin(20.0),
        top: margin(5.0),
        bottom: margin(15.0),
    };
    let zones = exclusion_zones(&margins, vec![], 20, 20, width);
    for x in -2..23 {
        for y in -2..23 {
            let on_pad = (0..20).contains(&x) && (0..20).contains(&y);
            let edge = x < 2 || x >= 16 || y < 1 || y >= 17;
            assert_eq!(is_in_any_polygon(x, y, &zones), on_pad && edge);
        }
    }
}

#[test]
fn zero_margins_give_no_zone_and_no_defaults() {
    let margins = Margins {
        left: margin(0.0),
        right: margin(-5.0),
        top: margin(f32::NAN),
        bottom: None,
    };
    assert!(exclusion_zones(&margins, vec![], 100, 200, width).is_empty());
}

#[test]
fn polygons_alone_switch_the_defaults_off() {
    let zones = exclusion_zones(&NONE, vec![Polygon::rectangle(0, 0, 5, 5)], 100, 200, width);
    assert_eq!(zones.len(), 1);
}

#[test]
fn defaults_cut_off_the_upper_corners() {
    let zones = exclusion_zones(&NONE, vec![], 100, 200, width);
    for x in -5..105 {
        for y in -5..205 {
            let strip = (0..100).contains(&x) && (0..40).contains(&y);
            let level = (0..200).contains(&y);
            let left = 0 <= x && level && x * 200 + y * 30 < 30 * 200;
            let right = x < 100 && level && (100 - x) * 200 <= (200 - y) * 30;
            assert_eq!(is_in_any_polygon(x, y, &zones), strip || left || right);
        }
    }
}

#[test]
fn any_argument_is_explicit() {
    assert!(!is_explicit(&NONE, &vec![]));
    assert!(is_explicit(&NONE, &vec![Polygon::rectangle(0, 0, 1, 1)]));
    for margins in [
        Margins {
            left: margin(0.0),
            ..NONE
        },
        Margins {
            right: margin(0.0),
            ..NONE
        },
        Margins {
            top: margin(0.0),
            ..NONE
        },
        Margins {
            bottom: margin(0.0),
            ..NONE
        },
    ] {
        assert!(is_explicit(&margins, &vec![]));
    }
}

#[test]
fn default_margins_are_twenty_and_thirty_percent() {
    assert_eq!(f32::from_bits(DEFAULT_TOP_BITS), 20.0);
    assert_eq!(f32::from_bits(DEFAULT_SIDE_BITS), 30.0);
    let used = choose_margins(&NONE, &vec![]);
    assert_eq!(used.left, margin(30.0));
    assert_eq!(used.right, margin(30.0));
    assert_eq!(used.top, margin(20.0));
    assert_eq!(used.bottom, None);
    assert_eq!(
        measure(&used, 1000, 500, &width),
        Widths {
            left: Some(300),
            right: Some(300),
            top: Some(100),
            bottom: None,
        }
    );
}

#[test]
fn margins_are_measured_along_their_sides() {
    let margins = Margins {
        left: margin(30.0),
        right: margin(0.0),
        top: None,
        bottom: margin(10.0),
    };
    assert_eq!(choose_margins(&margins, &vec![]).left, margin(30.0));
    assert_eq!(
        measure(&margins, 1000, 500, &width),
        Widths {
            left: Some(300),
            right: None,
            top: None,
            bottom: Some(50),
        }
    );
}
