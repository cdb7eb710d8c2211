//! Polygons written as lists of percentages.

use vstd::prelude::*;
use vstd::string::*;

use crate::percent::Percent;
use crate::polygon::Polygon;
use crate::text::{append_u64, decimal_nat, fields, split_fields, split_words, texts, words};

verus! {

/// A number read from text: its value, and how it is written when it is shown.
#[derive(Debug)]
pub struct Reading {
    pub percent: Percent,
    pub shown: String,
}

/// The contents of what reading a number gave.
pub open spec fn reading_view(reading: Option<Reading>) -> Option<(Percent, Seq<char>)> {
    match reading {
        Some(r) => Some((r.percent, r.shown@)),
        None => None,
    }
}

/// The contents of a parsed point or of the message that takes its place.
pub open spec fn point_view(r: Result<(Percent, Percent), String>) -> Result<
    (Percent, Percent),
    Seq<char>,
> {
    match r {
        Ok(p) => Ok(p),
        Err(message) => Err(message@),
    }
}

/// The contents of a list of points or of the message that takes its place.
pub open spec fn points_view(r: Result<Vec<(Percent, Percent)>, String>) -> Result<
    Seq<(Percent, Percent)>,
    Seq<char>,
> {
    match r {
        Ok(points) => Ok(points@),
        Err(message) => Err(message@),
    }
}

/// The point that a word stands for, given what reading its two pieces gave, or the first thing
/// that is wrong with it.
pub open spec fn point_of(
    word: Seq<char>,
    x: Option<(Percent, Seq<char>)>,
    y: Option<(Percent, Seq<char>)>,
) -> Result<(Percent, Percent), Seq<char>> {
    let pieces = fields(word);
    if pieces.len() != 2 {
        Err("Invalid point format '"@ + word + "', expected 'x,y'"@)
    } else {
        match (x, y) {
            (None, _) => Err("Invalid x coordinate '"@ + pieces[0] + "'"@),
            (_, None) => Err("Invalid y coordinate '"@ + pieces[1] + "'"@),
            (Some((x, x_shown)), Some((y, y_shown))) => if x.in_range() && y.in_range() {
                Ok((x, y))
            } else {
                Err(
                    "Coordinates must be in range 0-100, got ("@ + x_shown + ", "@ + y_shown + ")"@,
                )
            },
        }
    }
}

/// What reading the two pieces of each word gave.
pub type Readings = Seq<(Option<(Percent, Seq<char>)>, Option<(Percent, Seq<char>)>)>;

/// The points that the first `upto` words stand for, or what is wrong with the first bad word.
pub open spec fn points_of(list: Seq<Seq<char>>, readings: Readings, upto: int) -> Result<
    Seq<(Percent, Percent)>,
    Seq<char>,
>
    decreases upto,
{
    if upto <= 0 {
        Ok(Seq::empty())
    } else {
        match points_of(list, readings, upto - 1) {
            Err(message) => Err(message),
            Ok(points) => match point_of(
                list[upto - 1],
                readings[upto - 1].0,
                readings[upto - 1].1,
            ) {
                Err(message) => Err(message),
                Ok(point) => Ok(points.push(point)),
            },
        }
    }
}

/// The points of a polygon string, given its words and what reading their pieces gave.
pub open spec fn polygon_points(list: Seq<Seq<char>>, readings: Readings) -> Result<
    Seq<(Percent, Percent)>,
    Seq<char>,
> {
    match points_of(list, readings, list.len() as int) {
        Err(message) => Err(message),
        Ok(points) => if points.len() < 3 {
            Err("Polygon must have at least 3 points, got "@ + decimal_nat(points.len()))
        } else {
            Ok(points)
        },
    }
}

/// Whether `read` may give `reading` for the text `t`.
pub open spec fn may_read<R: Fn(&str) -> Option<Reading>>(
    read: R,
    t: Seq<char>,
    reading: Option<(Percent, Seq<char>)>,
) -> bool {
    exists|s: &str, r: Option<Reading>|
        s@ == t && #[trigger] call_ensures(read, (s,), r) && reading_view(r) == reading
}

/// Whether `readings` may be what `read` gives for the pieces of the words. Only words with two
/// pieces are read.
pub open spec fn may_read_all<R: Fn(&str) -> Option<Reading>>(
    read: R,
    list: Seq<Seq<char>>,
    readings: Readings,
) -> bool {
    &&& readings.len() == list.len()
    &&& forall|i: int|
        0 <= i < list.len() && fields(list[i]).len() == 2 ==> may_read(
            read,
            fields(list[i])[0],
            (#[trigger] readings[i]).0,
        ) && may_read(read, fields(list[i])[1], readings[i].1)
}

/// Whether the polygon string `s` may give the points or the message `r` when `read` reads its
/// numbers.
pub open spec fn may_parse<R: Fn(&str) -> Option<Reading>>(
    read: R,
    s: Seq<char>,
    r: Result<Seq<(Percent, Percent)>, Seq<char>>,
) -> bool {
    exists|readings: Readings| #[trigger]
        may_read_all(read, words(s), readings) && r == polygon_points(words(s), readings)
}

/// The point that a word stands for, given what reading its two pieces gave.
pub fn check_point(word: &str, x: &Option<Reading>, y: &Option<Reading>) -> (point: Result<
    (Percent, Percent),
    String,
>)
    ensures
        point_view(point) == point_of(word@, reading_view(*x), reading_view(*y)),
{
    let pieces = split_fields(word);
    assert(texts(pieces@).len() == pieces@.len());
    if pieces.len() != 2 {
        let mut message = "Invalid point format '".to_string();
        message.append(word);
        message.append("', expected 'x,y'");
        return Err(message);
    }
    assert(texts(pieces@)[0] == pieces@[0]@ && texts(pieces@)[1] == pieces@[1]@);
    match (x, y) {
        (None, _) => {
            let mut message = "Invalid x coordinate '".to_string();
            message.append(pieces[0].as_str());
            message.append("'");
            Err(message)
        },
        (_, None) => {
            let mut message = "Invalid y coordinate '".to_string();
            message.append(pieces[1].as_str());
            message.append("'");
            Err(message)
        },
        (Some(x), Some(y)) => {
            if x.percent.is_in_range() && y.percent.is_in_range() {
                Ok((x.percent, y.percent))
            } else {
                let mut message = "Coordinates must be in range 0-100, got (".to_string();
                message.append(x.shown.as_str());
                message.append(", ");
                message.append(y.shown.as_str());
                message.append(")");
                Err(message)
            }
        },
    }
}

/// What reading the pieces of words gave.
pub open spec fn readings_view(readings: Seq<(Option<Reading>, Option<Reading>)>) -> Readings {
    readings.map_values(
        |r: (Option<Reading>, Option<Reading>)| (reading_view(r.0), reading_view(r.1)),
    )
}

/// The points of a polygon string, given its words and what reading their pieces gave.
pub fn check_points(list: &Vec<String>, readings: &Vec<(Option<Reading>, Option<Reading>)>) -> (r:
    Result<Vec<(Percent, Percent)>, String>)
    requires
        list.len() == readings.len(),
    ensures
        points_view(r) == polygon_points(texts(list@), readings_view(readings@)),
{
    let ghost ws = texts(list@);
    let ghost rs = readings_view(readings@);
    let mut points: Vec<(Percent, Percent)> = Vec::new();
    for i in 0..list.len()
        invariant
            ws == texts(list@),
            rs == readings_view(readings@),
            list.len() == readings.len(),
            points_of(ws, rs, i as int) == Ok::<Seq<(Percent, Percent)>, Seq<char>>(points@),
    {
        assert(ws[i as int] == list@[i as int]@);
        match check_point(list[i].as_str(), &readings[i].0, &readings[i].1) {
            Ok(point) => {
                points.push(point);
            },
            Err(message) => {
                proof {
                    lemma_first_error(ws, rs, i + 1, ws.len() as int);
                }
                return Err(message);
            },
        }
    }
    if points.len() < 3 {
        let mut message = "Polygon must have at least 3 points, got ".to_string();
        append_u64(&mut message, points.len() as u64);
        return Err(message);
    }
    Ok(points)
}

/// The first bad word decides.
pub(crate) proof fn lemma_first_error(list: Seq<Seq<char>>, readings: Readings, from: int, to: int)
    requires
        0 <= from <= to,
        points_of(list, readings, from) is Err,
    ensures
        points_of(list, readings, to) == points_of(list, readings, from),
    decreases to - from,
{
    if from < to {
        lemma_first_error(list, readings, from, to - 1);
    }
}

/// Parse a polygon string like `0,0 10,0 0,30` into percentages from 0 to 100 of the width and the
/// height of the touchpad. Numbers are read by `read`.
pub fn parse_polygon_string<R: Fn(&str) -> Option<Reading>>(s: &str, read: R) -> (r: Result<
    Vec<(Percent, Percent)>,
    String,
>)
    requires
        forall|t: &str| call_requires(read, (t,)),
    ensures
        may_parse(read, s@, points_view(r)),
{
    let list = split_words(s);
    let ghost ws = words(s@);
    assert(ws.len() == list@.len());
    let mut readings: Vec<(Option<Reading>, Option<Reading>)> = Vec::new();
    for i in 0..list.len()
        invariant
            ws == texts(list@),
            forall|t: &str| call_requires(read, (t,)),
            readings.len() == i,
            forall|k: int|
                0 <= k < i && fields(ws[k]).len() == 2 ==> may_read(
                    read,
                    fields(ws[k])[0],
                    (#[trigger] readings_view(readings@)[k]).0,
                ) && may_read(read, fields(ws[k])[1], readings_view(readings@)[k].1),
    {
        let ghost before = readings@;
        let pieces = split_fields(list[i].as_str());
        assert(ws[i as int] == list@[i as int]@);
        assert(texts(pieces@).len() == pieces@.len());
        if pieces.len() == 2 {
            assert(texts(pieces@)[0] == pieces@[0]@ && texts(pieces@)[1] == pieces@[1]@);
            let x_text = pieces[0].as_str();
            let x = read(x_text);
            assert(call_ensures(read, (x_text,), x));
            let y_text = pieces[1].as_str();
            let y = read(y_text);
            assert(call_ensures(read, (y_text,), y));
            readings.push((x, y));
        } else {
            readings.push((None, None));
        }
        assert forall|k: int| 0 <= k < i + 1 && fields(ws[k]).len() == 2 implies may_read(
            read,
            fields(ws[k])[0],
            (#[trigger] readings_view(readings@)[k]).0,
        ) && may_read(read, fields(ws[k])[1], readings_view(readings@)[k].1) by {
            if k < i {
                assert(readings_view(readings@)[k] == readings_view(before)[k]);
            }
        }
    }
    assert(may_read_all(read, ws, readings_view(readings@)));
    check_points(&list, &readings)
}

/// The contents of a polygon or of the message that takes its place.
pub open spec fn outline_view(r: Result<Polygon, String>) -> Result<Seq<(i32, i32)>, Seq<char>> {
    match r {
        Ok(polygon) => Ok(polygon.vertices@),
        Err(message) => Err(message@),
    }
}

/// Whether the points may become the vertices or the message `r` on a touchpad with the width
/// `x_max` and the height `y_max` when `scale` turns percentages of a length into coordinates.
pub open spec fn may_place<S: Fn(Percent, i32) -> i32>(
    scale: S,
    points: Seq<(Percent, Percent)>,
    x_max: i32,
    y_max: i32,
    r: Result<Seq<(i32, i32)>, Seq<char>>,
) -> bool {
    match r {
        Ok(v) => {
            &&& points.len() >= 3
            &&& v.len() == points.len()
            &&& forall|i: int|
                0 <= i < points.len() ==> call_ensures(
                    scale,
                    (points[i].0, x_max),
                    (#[trigger] v[i]).0,
                ) && call_ensures(scale, (points[i].1, y_max), v[i].1)
        },
        Err(message) => points.len() < 3 && message == "Polygon must have at least 3 points"@,
    }
}

impl Polygon {
    /// A polygon from percentages of the width `x_max` and the height `y_max`. `scale` turns a
    /// percentage of a length into an absolute coordinate.
    pub fn from_percentages<S: Fn(Percent, i32) -> i32>(
        points: &[(Percent, Percent)],
        x_max: i32,
        y_max: i32,
        scale: S,
    ) -> (r: Result<Self, String>)
        requires
            forall|p: Percent, max: i32| call_requires(scale, (p, max)),
        ensures
            may_place(scale, points@, x_max, y_max, outline_view(r)),
    {
        if points.len() < 3 {
            return Err("Polygon must have at least 3 points".to_string());
        }
        let mut vertices: Vec<(i32, i32)> = Vec::new();
        for i in 0..points.len()
            invariant
                forall|p: Percent, max: i32| call_requires(scale, (p, max)),
                vertices.len() == i,
                forall|k: int|
                    0 <= k < i ==> call_ensures(
                        scale,
                        (points@[k].0, x_max),
                        (#[trigger] vertices@[k]).0,
                    ) && call_ensures(scale, (points@[k].1, y_max), vertices@[k].1),
        {
            let (x_percent, y_percent) = points[i];
            let x = scale(x_percent, x_max);
            let y = scale(y_percent, y_max);
            vertices.push((x, y));
        }
        Ok(Polygon { vertices })
    }
}

/// The message about polygon string number `number` that cannot be parsed.
pub open spec fn parse_failure(number: nat, text: Seq<char>, error: Seq<char>) -> Seq<char> {
    "Failed to parse polygon "@ + decimal_nat(number) + " '"@ + text + "': "@ + error
}

/// The message about polygon number `number` that cannot be made.
pub open spec fn creation_failure(number: nat, error: Seq<char>) -> Seq<char> {
    "Failed to create polygon "@ + decimal_nat(number) + ": "@ + error
}

/// Whether polygon string number `number` may become the vertices or the message `r`, given the
/// points or the message that parsing it gave.
pub open spec fn may_become<S: Fn(Percent, i32) -> i32>(
    number: nat,
    text: Seq<char>,
    points: Result<Seq<(Percent, Percent)>, Seq<char>>,
    x_max: i32,
    y_max: i32,
    scale: S,
    r: Result<Seq<(i32, i32)>, Seq<char>>,
) -> bool {
    match points {
        Err(error) => r == Err::<Seq<(i32, i32)>, Seq<char>>(parse_failure(number, text, error)),
        Ok(points) => match r {
            Ok(v) => may_place(scale, points, x_max, y_max, Ok(v)),
            Err(message) => exists|error: Seq<char>| #[trigger]
                may_place(scale, points, x_max, y_max, Err(error)) && message == creation_failure(
                    number,
                    error,
                ),
        },
    }
}

/// The polygon that polygon string number `number` stands for, or the message about it.
pub fn polygon_from_argument<R: Fn(&str) -> Option<Reading>, S: Fn(Percent, i32) -> i32>(
    number: usize,
    text: &str,
    x_max: i32,
    y_max: i32,
    read: R,
    scale: S,
) -> (r: Result<Polygon, String>)
    requires
        forall|t: &str| call_requires(read, (t,)),
        forall|p: Percent, max: i32| call_requires(scale, (p, max)),
    ensures
        exists|points: Result<Seq<(Percent, Percent)>, Seq<char>>| #[trigger]
            may_parse(read, text@, points) && may_become(
                number as nat,
                text@,
                points,
                x_max,
                y_max,
                scale,
                outline_view(r),
            ),
{
    match parse_polygon_string(text, read) {
        Ok(list) => match Polygon::from_percentages(list.as_slice(), x_max, y_max, scale) {
            Ok(polygon) => Ok(polygon),
            Err(error) => {
                let mut message = "Failed to create polygon ".to_string();
                append_u64(&mut message, number as u64);
                message.append(": ");
                message.append(error.as_str());
                assert(may_place(scale, list@, x_max, y_max, Err(error@)));
                Err(message)
            },
        },
        Err(error) => {
            let mut message = "Failed to parse polygon ".to_string();
            append_u64(&mut message, number as u64);
            message.append(" '");
            message.append(text);
            message.append("': ");
            message.append(error.as_str());
            Err(message)
        },
    }
}

} // verus!
