use unpalm::polygon::{is_in_any_polygon, Polygon};

#[test]
fn test_polygon_contains_triangle_inside() {
    let polygon = Polygon {
        vertices: vec![(0, 0), (100, 0), (50, 100)],
    };
    assert!(polygon.contains(50, 30));
    assert!(polygon.contains(25, 10));
    assert!(polygon.contains(75, 10));
}

#[test]
fn test_polygon_contains_triangle_outside() {
    let polygon = Polygon {
        vertices: vec![(0, 0), (100, 0), (50, 100)],
    };
    assert!(!polygon.contains(10, 90));
    assert!(!polygon.contains(90, 90));
    assert!(!polygon.contains(50, 110));
    assert!(!polygon.contains(-10, 0));
}

#[test]
fn test_polygon_contains_rectangle() {
    let polygon = Polygon {
        vertices: vec![(10, 10), (90, 10), (90, 90), (10, 90)],
    };
    assert!(polygon.contains(50, 50));
    assert!(polygon.contains(15, 15));
    assert!(polygon.contains(85, 85));
    assert!(!polygon.contains(5, 5));
    assert!(!polygon.contains(95, 50));
    assert!(!polygon.contains(50, 95));
}

#[test]
fn test_polygon_contains_edge_cases() {
    let polygon = Polygon {
        vertices: vec![(0, 0), (100, 0), (100, 100), (0, 100)],
    };
    // Points on edges or vertices might behave differently
    // The important thing is consistency
    assert!(polygon.contains(50, 50));
    assert!(polygon.contains(1, 1));
    assert!(polygon.contains(99, 99));
}

// Tests for helper functions

#[test]
fn test_is_in_any_polygon_empty_list() {
    let polygons: Vec<Polygon> = vec![];
    assert!(!is_in_any_polygon(50, 50, &polygons));
}

#[test]
fn test_is_in_any_polygon_single_polygon() {
    let polygon = Polygon {
        vertices: vec![(0, 0), (100, 0), (50, 100)],
    };
    let polygons = vec![polygon];
    assert!(is_in_any_polygon(50, 30, &polygons));
    assert!(!is_in_any_polygon(10, 90, &polygons));
}

#[test]
fn test_is_in_any_polygon_multiple_polygons() {
    let polygon1 = Polygon {
        vertices: vec![(0, 0), (50, 0), (25, 50)],
    };
    let polygon2 = Polygon {
        vertices: vec![(200, 0), (250, 0), (225, 50)],
    };
    let polygons = vec![polygon1, polygon2];

    assert!(is_in_any_polygon(25, 20, &polygons)); // In polygon1
    assert!(is_in_any_polygon(225, 20, &polygons)); // In polygon2
    assert!(!is_in_any_polygon(125, 20, &polygons)); // In neither
}

// Tests for Polygon::rectangle

#[test]
fn test_polygon_rectangle() {
    let rect = Polygon::rectangle(10, 20, 50, 80);
    assert_eq!(rect.vertices.len(), 4);
    assert_eq!(rect.vertices[0], (10, 20));
    assert_eq!(rect.vertices[1], (50, 20));
    assert_eq!(rect.vertices[2], (50, 80));
    assert_eq!(rect.vertices[3], (10, 80));
}

#[test]
fn test_polygon_rectangle_contains() {
    let rect = Polygon::rectangle(10, 10, 90, 90);
    assert!(rect.contains(50, 50));
    assert!(rect.contains(15, 15));
    assert!(rect.contains(85, 85));
    assert!(!rect.contains(5, 50)); // Left of rect
    assert!(!rect.contains(95, 50)); // Right of rect
    assert!(!rect.contains(50, 5)); // Above rect
    assert!(!rect.contains(50, 95)); // Below rect
}

// Tests for margins as polygons

#[test]
fn test_margins_as_polygons() {
    // Simulate 10% margins on a 100x100 touchpad
    let x_max = 100;
    let y_max = 100;
    let margin = 10;

    let mut polygons = vec![];
    polygons.push(Polygon::rectangle(0, 0, margin, y_max)); // Left
    polygons.push(Polygon::rectangle(x_max - margin, 0, x_max, y_max)); // Right
    polygons.push(Polygon::rectangle(0, 0, x_max, margin)); // Top
    polygons.push(Polygon::rectangle(0, y_max - margin, x_max, y_max)); // Bottom

    // Center should not be blocked
    assert!(!is_in_any_polygon(50, 50, &polygons));

    // Margins should be blocked
    assert!(is_in_any_polygon(5, 50, &polygons)); // Left margin
    assert!(is_in_any_polygon(95, 50, &polygons)); // Right margin
    assert!(is_in_any_polygon(50, 5, &polygons)); // Top margin
    assert!(is_in_any_polygon(50, 95, &polygons)); // Bottom margin
}

#[test]
fn test_combined_margins_and_polygon() {
    // Simulate margins + custom triangle polygon
    let mut polygons = vec![];

    // Left margin (10%)
    polygons.push(Polygon::rectangle(0, 0, 10, 100));

    // Custom triangle in center
    polygons.push(Polygon {
        vertices: vec![(40, 40), (60, 40), (50, 60)],
    });

    // Left margin blocks
    assert!(is_in_any_polygon(5, 50, &polygons));

    // Center of triangle blocks
    assert!(is_in_any_polygon(50, 45, &polygons));

    // Outside both doesn't block
    assert!(!is_in_any_polygon(80, 50, &polygons));
}

// Tests for polygon validation

#[test]
fn test_validate_valid_polygon() {
    let polygon = Polygon {
        vertices: vec![(0, 0), (100, 0), (50, 100)],
    };
    let warnings = polygon.validate();
    assert!(warnings.is_empty(), "Valid polygon should have no warnings");
}

#[test]
fn test_validate_duplicate_consecutive_points() {
    let polygon = Polygon {
        vertices: vec![(0, 0), (0, 0), (100, 0), (50, 100)],
    };
    let warnings = polygon.validate();
    assert!(!warnings.is_empty());
    assert!(warnings
        .iter()
        .any(|w| w.contains("Duplicate consecutive vertex")));
}

#[test]
fn test_validate_zero_area_collinear() {
    // All points on a line - zero area
    let polygon = Polygon {
        vertices: vec![(0, 0), (50, 0), (100, 0)],
    };
    let warnings = polygon.validate();
    assert!(!warnings.is_empty());
    assert!(warnings.iter().any(|w| w.contains("near-zero area")));
}

#[test]
fn test_validate_self_intersecting() {
    // Figure-eight / bowtie shape
    let polygon = Polygon {
        vertices: vec![(0, 0), (100, 100), (100, 0), (0, 100)],
    };
    let warnings = polygon.validate();
    assert!(!warnings.is_empty());
    assert!(warnings.iter().any(|w| w.contains("self-intersecting")));
}

#[test]
fn test_signed_area_triangle() {
    let polygon = Polygon {
        vertices: vec![(0, 0), (100, 0), (0, 100)],
    };
    let area = polygon.doubled_signed_area() as f64 / 2.0;
    // Area of right triangle with base=100, height=100 is 5000
    assert!((area - 5000.0).abs() < 1.0);
}

#[test]
fn test_signed_area_rectangle() {
    let polygon = Polygon {
        vertices: vec![(0, 0), (100, 0), (100, 50), (0, 50)],
    };
    let area = polygon.doubled_signed_area() as f64 / 2.0;
    // Area of 100x50 rectangle is 5000
    assert!((area - 5000.0).abs() < 1.0);
}

#[test]
fn test_segments_intersect_crossing() {
    // Two segments that cross
    let p1 = (0, 0);
    let p2 = (100, 100);
    let p3 = (0, 100);
    let p4 = (100, 0);
    assert!(Polygon::segments_intersect(p1, p2, p3, p4));
}

#[test]
fn test_segments_intersect_non_crossing() {
    // Two segments that don't intersect
    let p1 = (0, 0);
    let p2 = (50, 0);
    let p3 = (100, 0);
    let p4 = (150, 0);
    assert!(!Polygon::segments_intersect(p1, p2, p3, p4));
}

#[test]
fn test_is_self_intersecting_valid_square() {
    let polygon = Polygon {
        vertices: vec![(0, 0), (100, 0), (100, 100), (0, 100)],
    };
    assert!(!polygon.is_self_intersecting());
}

#[test]
fn test_is_self_intersecting_bowtie() {
    // Bowtie/figure-eight polygon
    let polygon = Polygon {
        vertices: vec![(0, 0), (100, 100), (100, 0), (0, 100)],
    };
    assert!(polygon.is_self_intersecting());
}

#[test]
fn test_validate_multiple_warnings() {
    // Polygon with both duplicate points and near-zero area
    let polygon = Polygon {
        vertices: vec![(0, 0), (0, 0), (1, 0)],
    };
    let warnings = polygon.validate();
    // Should have warnings for both duplicate vertices and near-zero area
    assert!(warnings.len() >= 2);
    assert!(warnings.iter().any(|w| w.contains("Duplicate")));
    assert!(warnings.iter().any(|w| w.contains("near-zero area")));
}

fn grid() -> Vec<(i32, i32)> {
    let mut points = vec![];
    for x in -3..8 {
        for y in -3..8 {
            points.push((x, y));
        }
    }
    points
}

#[test]
fn rectangle_holds_exactly_its_points() {
    let rect = Polygon::rectangle(0, 1, 4, 5);
    let flipped = Polygon::rectangle(4, 5, 0, 1);
    for (x, y) in grid() {
        let expected = 0 <= x && x < 4 && 1 <= y && y < 5;
        assert_eq!(rect.contains(x, y), expected);
        assert_eq!(flipped.contains(x, y), expected);
    }
}

#[test]
fn rectangle_of_extreme_corners_can_be_tested() {
    let rect = Polygon::rectangle(i32::MIN, i32::MIN, i32::MAX, i32::MAX);
    assert!(rect.contains(0, 0));
    assert!(!rect.contains(i32::MAX, 0));
}

#[test]
fn points_outside_the_bounds_are_not_held() {
    let polygon = Polygon {
        vertices: vec![(0, 0), (5, 1), (3, 5), (1, 3)],
    };
    for (x, y) in grid() {
        if x < 0 || x >= 5 || y < 0 || y >= 5 {
            assert!(!polygon.contains(x, y));
        }
    }
}

#[test]
fn first_vertex_and_place_do_not_matter() {
    let polygon = Polygon {
        vertices: vec![(0, 0), (5, 1), (3, 5), (1, 3)],
    };
    let rotated = Polygon {
        vertices: vec![(5, 1), (3, 5), (1, 3), (0, 0)],
    };
    let moved = Polygon {
        vertices: vec![(10, -7), (15, -6), (13, -2), (11, -4)],
    };
    for (x, y) in grid() {
        assert_eq!(polygon.contains(x, y), rotated.contains(x, y));
        assert_eq!(polygon.contains(x, y), moved.contains(x + 10, y - 7));
    }
}

#[test]
fn crossing_is_not_rounded() {
    // At height 1 the triangle reaches from 0.5 to 99.5.
    let triangle = Polygon {
        vertices: vec![(0, 0), (50, 100), (100, 0)],
    };
    let reversed = Polygon {
        vertices: vec![(100, 0), (50, 100), (0, 0)],
    };
    for polygon in [triangle, reversed] {
        assert!(!polygon.contains(0, 1));
        assert!(polygon.contains(1, 1));
        assert!(polygon.contains(99, 1));
        assert!(!polygon.contains(100, 1));
    }
}

#[test]
fn direction_does_not_matter() {
    let polygon = Polygon {
        vertices: vec![(0, 0), (5, 1), (3, 5), (1, 3), (-2, 7)],
    };
    let mut reversed = polygon.clone();
    reversed.vertices.reverse();
    for (x, y) in grid() {
        assert_eq!(polygon.contains(x, y), reversed.contains(x, y));
    }
}

#[test]
fn zones_add_up() {
    let a = Polygon::rectangle(0, 0, 2, 2);
    let b = Polygon::rectangle(3, 3, 5, 5);
    for (x, y) in grid() {
        let both = is_in_any_polygon(x, y, &[a.clone(), b.clone()]);
        assert_eq!(both, a.contains(x, y) || b.contains(x, y));
        assert!(!is_in_any_polygon(x, y, &[]));
    }
}

#[test]
fn extreme_polygons_can_be_tested() {
    let point = Polygon {
        vertices: vec![(3, 4)],
    };
    assert!(!point.contains(3, 4));
    let half = Polygon {
        vertices: vec![
            (i32::MIN, i32::MIN),
            (i32::MAX, i32::MAX),
            (i32::MIN, i32::MAX),
        ],
    };
    assert!(half.contains(-1, 0));
    assert!(!half.contains(0, 0));
    assert!(half.contains(i32::MIN, 0));
    assert!(!half.contains(i32::MAX, 0));
}

#[test]
fn validate_says_where_duplicates_are() {
    let polygon = Polygon {
        vertices: vec![(-7, 120), (-7, 120), (100, 0), (50, 100)],
    };
    assert_eq!(
        polygon.validate(),
        vec![
            "Duplicate consecutive vertex at (-7, 120)".to_string(),
            "Polygon has self-intersecting edges".to_string(),
        ]
    );
    let extreme = (i32::MIN, i32::MAX);
    let single = Polygon {
        vertices: vec![extreme],
    };
    assert_eq!(
        single.validate(),
        vec![
            format!("Duplicate consecutive vertex at {:?}", extreme),
            "Polygon has near-zero area (may be degenerate)".to_string(),
        ]
    );
}

#[test]
fn validate_orders_the_warnings() {
    let polygon = Polygon {
        vertices: vec![(0, 0), (2, 2), (2, 0), (0, 2), (0, 2)],
    };
    assert_eq!(
        polygon.validate(),
        vec![
            "Duplicate consecutive vertex at (0, 2)".to_string(),
            "Polygon has near-zero area (may be degenerate)".to_string(),
            "Polygon has self-intersecting edges".to_string(),
        ]
    );
    assert_eq!(
        Polygon { vertices: vec![] }.validate(),
        vec!["Polygon has near-zero area (may be degenerate)".to_string()]
    );
}

#[test]
fn near_zero_area_is_below_one_unit() {
    let half = Polygon {
        vertices: vec![(0, 0), (1, 0), (0, 1)],
    };
    assert_eq!(half.doubled_signed_area(), 1);
    assert_eq!(half.validate().len(), 1);
    let one = Polygon {
        vertices: vec![(0, 0), (0, 1), (2, 0)],
    };
    assert_eq!(one.doubled_signed_area(), -2);
    assert!(one.validate().is_empty());
}

#[test]
fn proper_rectangles_are_clean() {
    for (x, y) in grid() {
        if x != 0 && y != 0 {
            let rect = Polygon::rectangle(0, 0, x, y);
            assert!(rect.validate().is_empty());
            assert_eq!(rect.doubled_signed_area(), 2 * (x as i64) * (y as i64));
        }
    }
}

#[test]
fn triangles_never_self_intersect() {
    let flat = Polygon {
        vertices: vec![(0, 0), (4, 0), (2, 0)],
    };
    assert!(!flat.is_self_intersecting());
}

#[test]
fn touching_and_overlapping_segments_meet() {
    assert!(Polygon::segments_intersect((0, 0), (4, 0), (2, 0), (2, 5)));
    assert!(Polygon::segments_intersect((0, 0), (4, 4), (4, 4), (9, 0)));
    assert!(Polygon::segments_intersect((0, 0), (9, 0), (2, 0), (4, 0)));
    assert!(Polygon::segments_intersect((2, 0), (4, 0), (0, 0), (9, 0)));
    assert!(Polygon::segments_intersect((1, 1), (1, 1), (0, 0), (2, 2)));
    assert!(!Polygon::segments_intersect((1, 2), (1, 2), (0, 0), (2, 2)));
    assert!(!Polygon::segments_intersect((0, 0), (4, 0), (0, 1), (4, 1)));
    assert!(!Polygon::segments_intersect((0, 0), (1, 1), (5, 0), (3, 9)));
}

#[test]
fn meeting_is_symmetric() {
    let points = [(0, 0), (3, 1), (1, 3), (2, 2), (-1, 4)];
    for a in points {
        for b in points {
            for c in points {
                for d in points {
                    let meet = Polygon::segments_intersect(a, b, c, d);
                    assert_eq!(meet, Polygon::segments_intersect(c, d, a, b));
                    assert_eq!(meet, Polygon::segments_intersect(b, a, c, d));
                }
            }
        }
    }
}

#[test]
fn box_of_a_segment() {
    assert!(Polygon::on_segment((0, 0), (1, 1), (2, 2)));
    assert!(Polygon::on_segment((2, 2), (0, 2), (0, 0)));
    assert!(!Polygon::on_segment((0, 0), (3, 1), (2, 2)));
}

#[test]
fn validation_limits() {
    let touchpad = Polygon {
        vertices: vec![(0, 0), (i32::MAX, 0), (0, i32::MAX)],
    };
    assert!(touchpad.can_validate());
    let far = Polygon {
        vertices: vec![
            (i32::MIN, i32::MIN),
            (i32::MAX, i32::MIN),
            (i32::MAX, i32::MAX),
            (i32::MIN, i32::MAX),
        ],
    };
    assert!(!far.can_validate());
}

#[test]
fn slanted_edge_is_cut_exactly() {
    // The slanted side cuts the height 1 at 2/3 and the height 2 at 4/3.
    let rising = Polygon {
        vertices: vec![(0, 0), (2, 3), (-10, 3), (-10, 0)],
    };
    let falling = Polygon {
        vertices: vec![(-10, 0), (-10, 3), (2, 3), (0, 0)],
    };
    for polygon in [rising, falling] {
        assert!(polygon.contains(0, 1));
        assert!(!polygon.contains(1, 1));
        assert!(polygon.contains(1, 2));
        assert!(!polygon.contains(2, 2));
    }
}

#[test]
fn repeated_vertex_holds_the_same() {
    let polygon = Polygon {
        vertices: vec![(0, 0), (5, 1), (3, 5), (1, 3)],
    };
    for k in 0..4 {
        let mut repeated = polygon.clone();
        repeated.vertices.insert(k, polygon.vertices[k]);
        for (x, y) in grid() {
            assert_eq!(polygon.contains(x, y), repeated.contains(x, y));
        }
    }
}

#[test]
fn listing_keeps_self_intersection() {
    for vertices in [
        vec![(0, 0), (10, 10), (10, 0), (0, 10)],
        vec![(0, 0), (10, 0), (10, 10), (0, 10)],
    ] {
        let mut polygon = Polygon { vertices };
        let expected = polygon.is_self_intersecting();
        for _ in 0..4 {
            polygon.vertices.rotate_left(1);
            assert_eq!(polygon.is_self_intersecting(), expected);
        }
        polygon.vertices.reverse();
        assert_eq!(polygon.is_self_intersecting(), expected);
    }
}
