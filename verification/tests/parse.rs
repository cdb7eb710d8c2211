use unpalm::parse::{
    check_point, check_points, parse_polygon_string, polygon_from_argument, Reading,
};
use unpalm::percent::Percent;
use unpalm::polygon::Polygon;

fn read(text: &str) -> Option<Reading> {
    text.parse::<f32>().ok().map(|value| Reading {
        percent: Percent {
            bits: value.to_bits(),
        },
        shown: value.to_string(),
    })
}

fn scale(percent: Percent, max: i32) -> i32 {
    ((f32::from_bits(percent.bits) / 100.0) * max as f32) as i32
}

fn percent(value: f32) -> Percent {
    Percent {
        bits: value.to_bits(),
    }
}

fn parse(s: &str) -> Result<Vec<(f32, f32)>, String> {
    parse_polygon_string(s, read).map(|points| {
        points
            .iter()
            .map(|(x, y)| (f32::from_bits(x.bits), f32::from_bits(y.bits)))
            .collect()
    })
}

#[test]
fn test_parse_polygon_string_valid_triangle() {
    let result = parse("0,0 100,0 50,100");
    assert!(result.is_ok());
    let points = result.unwrap();
    assert_eq!(points.len(), 3);
    assert_eq!(points[0], (0.0, 0.0));
    assert_eq!(points[1], (100.0, 0.0));
    assert_eq!(points[2], (50.0, 100.0));
}

#[test]
fn test_parse_polygon_string_valid_rectangle() {
    let result = parse("0,0 50,0 50,50 0,50");
    assert!(result.is_ok());
    let points = result.unwrap();
    assert_eq!(points.len(), 4);
}

#[test]
fn test_parse_polygon_string_too_few_points() {
    let result = parse("0,0 100,0");
    assert!(result.is_err());
    assert!(result.unwrap_err().contains("at least 3 points"));
}

#[test]
fn test_parse_polygon_string_invalid_format() {
    let result = parse("0,0 100");
    assert!(result.is_err());
    assert!(result.unwrap_err().contains("Invalid point format"));
}

#[test]
fn test_parse_polygon_string_out_of_range() {
    let result = parse("0,0 150,0 50,100");
    assert!(result.is_err());
    assert!(result.unwrap_err().contains("range 0-100"));
}

#[test]
fn test_parse_polygon_string_negative_coords() {
    let result = parse("-10,0 100,0 50,100");
    assert!(result.is_err());
    assert!(result.unwrap_err().contains("range 0-100"));
}

#[test]
fn test_parse_polygon_string_invalid_number() {
    let result = parse("0,0 abc,def 50,100");
    assert!(result.is_err());
    assert!(result.unwrap_err().contains("Invalid"));
}

#[test]
fn test_polygon_from_percentages() {
    let points = vec![
        (percent(0.0), percent(0.0)),
        (percent(100.0), percent(0.0)),
        (percent(50.0), percent(100.0)),
    ];
    let result = Polygon::from_percentages(&points, 1000, 2000, scale);
    assert!(result.is_ok());
    let polygon = result.unwrap();
    assert_eq!(polygon.vertices.len(), 3);
    assert_eq!(polygon.vertices[0], (0, 0));
    assert_eq!(polygon.vertices[1], (1000, 0));
    assert_eq!(polygon.vertices[2], (500, 2000));
}

#[test]
fn test_polygon_from_percentages_too_few_points() {
    let points = vec![(percent(0.0), percent(0.0)), (percent(100.0), percent(0.0))];
    let result = Polygon::from_percentages(&points, 1000, 2000, scale);
    assert!(result.is_err());
    assert!(result.unwrap_err().contains("at least 3 points"));
}

#[test]
fn messages_are_exact() {
    assert_eq!(
        parse("0,0 100").unwrap_err(),
        "Invalid point format '100', expected 'x,y'"
    );
    assert_eq!(
        parse("0,0 1,2,3").unwrap_err(),
        "Invalid point format '1,2,3', expected 'x,y'"
    );
    assert_eq!(parse("abc,def").unwrap_err(), "Invalid x coordinate 'abc'");
    assert_eq!(parse("1,def").unwrap_err(), "Invalid y coordinate 'def'");
    assert_eq!(
        parse("0,0 150,0.5 50,100").unwrap_err(),
        "Coordinates must be in range 0-100, got (150, 0.5)"
    );
    assert_eq!(
        parse("0,NaN").unwrap_err(),
        "Coordinates must be in range 0-100, got (0, NaN)"
    );
    assert_eq!(
        parse("").unwrap_err(),
        "Polygon must have at least 3 points, got 0"
    );
    assert_eq!(
        parse("0,0 100,0").unwrap_err(),
        "Polygon must have at least 3 points, got 2"
    );
}

#[test]
fn first_bad_word_decides() {
    assert_eq!(
        parse("0,0 x,1 7 200,0").unwrap_err(),
        "Invalid x coordinate 'x'"
    );
    assert_eq!(
        parse("0,0 7 x,1").unwrap_err(),
        "Invalid point format '7', expected 'x,y'"
    );
}

#[test]
fn white_space_may_be_any() {
    assert_eq!(
        parse("  0,0\t15,0\n 0,25 "),
        Ok(vec![(0.0, 0.0), (15.0, 0.0), (0.0, 25.0)])
    );
}

#[test]
fn accepted_points_are_in_range() {
    for (x, y) in parse("0,0 100,100 -0,33.3").unwrap() {
        assert!((0.0..=100.0).contains(&x));
        assert!((0.0..=100.0).contains(&y));
    }
}

#[test]
fn points_from_given_readings() {
    assert_eq!(
        check_point("1,2", &read("1"), &read("2")),
        Ok((percent(1.0), percent(2.0)))
    );
    assert_eq!(
        check_point("1,2", &None, &read("2")),
        Err("Invalid x coordinate '1'".to_string())
    );
    assert_eq!(
        check_point("1,2", &read("1"), &None),
        Err("Invalid y coordinate '2'".to_string())
    );
    let words = vec!["a,b".to_string(), "c,d".to_string(), "e,f".to_string()];
    let readings = vec![
        (read("1"), read("2")),
        (read("3"), read("4")),
        (read("5"), read("6")),
    ];
    assert_eq!(
        check_points(&words, &readings),
        Ok(vec![
            (percent(1.0), percent(2.0)),
            (percent(3.0), percent(4.0)),
            (percent(5.0), percent(6.0)),
        ])
    );
}

#[test]
fn joined_strings_give_joined_points() {
    let (a, b) = ("0,0 15,0 0,25", "85,0 100,0 100,25 7.5,8");
    let both = [parse(a).unwrap(), parse(b).unwrap()].concat();
    assert_eq!(both.len(), 7);
    for space in [" ", "   ", "\t\n", "\u{3000}"] {
        assert_eq!(parse(&format!("{a}{space}{b}")), Ok(both.clone()));
        assert_eq!(parse(&format!("{space}{a}{space}{b}{space}")), Ok(both.clone()));
    }
}

#[test]
fn accepted_string_becomes_polygon_on_the_touchpad() {
    let points = parse_polygon_string("0,0 100,0 100,100 33.3,66.7", read).unwrap();
    let polygon = Polygon::from_percentages(&points, 16_777_216, 1000, scale).unwrap();
    assert_eq!(polygon.vertices.len(), 4);
    assert_eq!(polygon.vertices[1], (16_777_216, 0));
    assert_eq!(polygon.vertices[2], (16_777_216, 1000));
    for (x, y) in polygon.vertices {
        assert!((0..=16_777_216).contains(&x));
        assert!((0..=1000).contains(&y));
    }
}

#[test]
fn argument_becomes_polygon_or_message() {
    let polygon = polygon_from_argument(1, "0,0 50,0 0,100", 1000, 500, read, scale).unwrap();
    assert_eq!(polygon.vertices, vec![(0, 0), (500, 0), (0, 500)]);
    assert_eq!(
        polygon_from_argument(12, "0,0 x,1", 1000, 500, read, scale).unwrap_err(),
        "Failed to parse polygon 12 '0,0 x,1': Invalid x coordinate 'x'"
    );
    assert_eq!(
        polygon_from_argument(2, "0,0 1,1", 1000, 500, read, scale).unwrap_err(),
        "Failed to parse polygon 2 '0,0 1,1': Polygon must have at least 3 points, got 2"
    );
}
