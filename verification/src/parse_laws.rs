//! What holds of all polygon strings.

use vstd::prelude::*;

use crate::parse::{
    lemma_first_error, may_become, may_parse, may_place, may_read, may_read_all, point_of,
    outline_view, point_view, points_of, points_view, polygon_points, reading_view, readings_view,
    Reading, Readings,
};
use crate::percent::{law_ranges_of_encodings, Percent, HUNDRED_BITS, NEGATIVE_ZERO_BITS};
use crate::polygon::Polygon;
use crate::text::{
    decimal_nat, fields, is_space, law_outer_space_is_ignored, law_space_separates_words, words,
};

verus! {

/// Whether `read` always gives the same for the same text.
pub open spec fn steady<R: Fn(&str) -> Option<Reading>>(read: R) -> bool {
    forall|
        t: Seq<char>,
        a: Option<(Percent, Seq<char>)>,
        b: Option<(Percent, Seq<char>)>,
    | #[trigger] may_read(read, t, a) && #[trigger] may_read(read, t, b) ==> a == b
}

/// Whether `scale` keeps every percentage from 0 to 100 of the length `max` between 0 and `max`.
pub open spec fn keeps_range<S: Fn(Percent, i32) -> i32>(scale: S, max: i32) -> bool {
    forall|p: Percent, c: i32|
        p.in_range() && #[trigger] call_ensures(scale, (p, max), c) ==> 0 <= c <= max
}

/// The points of an accepted polygon string are at least three, and all from 0 to 100.
pub proof fn law_accepted_points_are_in_range(list: Seq<Seq<char>>, readings: Readings)
    requires
        polygon_points(list, readings) is Ok,
    ensures
        ({
            let points = polygon_points(list, readings)->Ok_0;
            &&& points.len() >= 3
            &&& points.len() == list.len()
            &&& forall|i: int|
                0 <= i < points.len() ==> (#[trigger] points[i]).0.in_range()
                    && points[i].1.in_range()
        }),
{
    lemma_points_in_order(list, readings, list.len() as int);
}

/// If numbers are always read the same, so is a polygon string.
pub proof fn law_parsing_is_steady<R: Fn(&str) -> Option<Reading>>(
    read: R,
    s: Seq<char>,
    r1: Result<Seq<(Percent, Percent)>, Seq<char>>,
    r2: Result<Seq<(Percent, Percent)>, Seq<char>>,
)
    requires
        steady(read),
        may_parse(read, s, r1),
        may_parse(read, s, r2),
    ensures
        r1 == r2,
{
    let list = words(s);
    let a = choose|readings: Readings| #[trigger]
        may_read_all(read, list, readings) && r1 == polygon_points(list, readings);
    let b = choose|readings: Readings| #[trigger]
        may_read_all(read, list, readings) && r2 == polygon_points(list, readings);
    lemma_same_readings(read, list, a, b, list.len() as int);
}

proof fn lemma_same_readings<R: Fn(&str) -> Option<Reading>>(
    read: R,
    list: Seq<Seq<char>>,
    a: Readings,
    b: Readings,
    upto: int,
)
    requires
        steady(read),
        may_read_all(read, list, a),
        may_read_all(read, list, b),
        upto <= list.len(),
    ensures
        points_of(list, a, upto) == points_of(list, b, upto),
    decreases upto,
{
    if upto > 0 {
        lemma_same_readings(read, list, a, b, upto - 1);
        let i = upto - 1;
        if fields(list[i]).len() == 2 {
            assert(may_read(read, fields(list[i])[0], a[i].0));
            assert(may_read(read, fields(list[i])[0], b[i].0));
            assert(may_read(read, fields(list[i])[1], a[i].1));
            assert(may_read(read, fields(list[i])[1], b[i].1));
        }
    }
}

/// The amount of white space between the words, before the first and behind the last does not
/// matter.
pub proof fn law_amount_of_space_is_arbitrary<R: Fn(&str) -> Option<Reading>>(
    read: R,
    before: Seq<char>,
    a: Seq<char>,
    space1: Seq<char>,
    space2: Seq<char>,
    b: Seq<char>,
    after: Seq<char>,
    r: Result<Seq<(Percent, Percent)>, Seq<char>>,
)
    requires
        is_space(before),
        is_space(space1),
        is_space(space2),
        is_space(after),
        space1.len() > 0,
        space2.len() > 0,
    ensures
        may_parse(read, before + (a + space1 + b) + after, r) == may_parse(
            read,
            a + space2 + b,
            r,
        ),
{
    law_outer_space_is_ignored(before, a + space1 + b, after);
    law_space_separates_words(a, space1, b);
    law_space_separates_words(a, space2, b);
}

/// Lists of points that are accepted each for itself are accepted one behind the other.
pub proof fn law_joined_points(
    list1: Seq<Seq<char>>,
    readings1: Readings,
    list2: Seq<Seq<char>>,
    readings2: Readings,
)
    requires
        list1.len() == readings1.len(),
        list2.len() == readings2.len(),
        polygon_points(list1, readings1) is Ok,
        polygon_points(list2, readings2) is Ok,
    ensures
        polygon_points(list1 + list2, readings1 + readings2) == Ok::<
            Seq<(Percent, Percent)>,
            Seq<char>,
        >(polygon_points(list1, readings1)->Ok_0 + polygon_points(list2, readings2)->Ok_0),
{
    lemma_joined_points(list1, readings1, list2, readings2, list2.len() as int);
}

/// The points of a list come first in every list that goes on behind it.
proof fn lemma_points_of_prefix(
    list1: Seq<Seq<char>>,
    readings1: Readings,
    list2: Seq<Seq<char>>,
    readings2: Readings,
    upto: int,
)
    requires
        list1.len() == readings1.len(),
        upto <= list1.len(),
    ensures
        points_of(list1 + list2, readings1 + readings2, upto) == points_of(list1, readings1, upto),
    decreases upto,
{
    if upto > 0 {
        lemma_points_of_prefix(list1, readings1, list2, readings2, upto - 1);
    }
}

proof fn lemma_joined_points(
    list1: Seq<Seq<char>>,
    readings1: Readings,
    list2: Seq<Seq<char>>,
    readings2: Readings,
    upto: int,
)
    requires
        list1.len() == readings1.len(),
        list2.len() == readings2.len(),
        0 <= upto <= list2.len(),
        points_of(list1, readings1, list1.len() as int) is Ok,
        points_of(list2, readings2, upto) is Ok,
    ensures
        points_of(list1 + list2, readings1 + readings2, list1.len() + upto) == Ok::<
            Seq<(Percent, Percent)>,
            Seq<char>,
        >(
            points_of(list1, readings1, list1.len() as int)->Ok_0 + points_of(
                list2,
                readings2,
                upto,
            )->Ok_0,
        ),
    decreases upto,
{
    let first = points_of(list1, readings1, list1.len() as int)->Ok_0;
    if upto == 0 {
        lemma_points_of_prefix(list1, readings1, list2, readings2, list1.len() as int);
        assert(first + points_of(list2, readings2, 0)->Ok_0 =~= first);
    } else {
        lemma_joined_points(list1, readings1, list2, readings2, upto - 1);
        let before = points_of(list2, readings2, upto - 1)->Ok_0;
        let all = points_of(list2, readings2, upto)->Ok_0;
        let n = list1.len() + upto;
        assert((list1 + list2)[n - 1] == list2[upto - 1]);
        assert((readings1 + readings2)[n - 1] == readings2[upto - 1]);
        assert((first + before).push(all.last()) =~= first + all);
    }
}

/// Two polygon strings that are accepted, with white space between them, give the points of the
/// first and then those of the second. If numbers are always read the same, they give nothing else.
pub proof fn law_joined_strings<R: Fn(&str) -> Option<Reading>>(
    read: R,
    a: Seq<char>,
    space: Seq<char>,
    b: Seq<char>,
    points_a: Seq<(Percent, Percent)>,
    points_b: Seq<(Percent, Percent)>,
)
    requires
        may_parse(read, a, Ok(points_a)),
        may_parse(read, b, Ok(points_b)),
        is_space(space),
        space.len() > 0,
    ensures
        may_parse(read, a + space + b, Ok(points_a + points_b)),
        steady(read) ==> forall|r: Result<Seq<(Percent, Percent)>, Seq<char>>| #[trigger]
            may_parse(read, a + space + b, r) ==> r == Ok::<Seq<(Percent, Percent)>, Seq<char>>(
                points_a + points_b,
            ),
{
    let both = Ok::<Seq<(Percent, Percent)>, Seq<char>>(points_a + points_b);
    let (list1, list2) = (words(a), words(b));
    law_space_separates_words(a, space, b);
    let readings1 = choose|readings: Readings| #[trigger]
        may_read_all(read, list1, readings) && Ok::<Seq<(Percent, Percent)>, Seq<char>>(points_a)
            == polygon_points(list1, readings);
    let readings2 = choose|readings: Readings| #[trigger]
        may_read_all(read, list2, readings) && Ok::<Seq<(Percent, Percent)>, Seq<char>>(points_b)
            == polygon_points(list2, readings);
    law_joined_points(list1, readings1, list2, readings2);
    let (list, readings) = (list1 + list2, readings1 + readings2);
    assert forall|i: int| 0 <= i < list.len() && fields(list[i]).len() == 2 implies may_read(
        read,
        fields(list[i])[0],
        (#[trigger] readings[i]).0,
    ) && may_read(read, fields(list[i])[1], readings[i].1) by {
        if i < list1.len() {
            assert(readings[i] == readings1[i] && list[i] == list1[i]);
        } else {
            assert(readings[i] == readings2[i - list1.len()]);
            assert(list[i] == list2[i - list1.len()]);
        }
    }
    assert(may_read_all(read, words(a + space + b), readings));
    if steady(read) {
        assert forall|r: Result<Seq<(Percent, Percent)>, Seq<char>>| #[trigger]
            may_parse(read, a + space + b, r) implies r == both by {
            law_parsing_is_steady(read, a + space + b, r, both);
        }
    }
}

/// A polygon string that is accepted always becomes a polygon. It has one vertex for each word, in
/// the same order, made of the percentages that the word stands for, and all vertices lie on the
/// touchpad wherever `scale` keeps percentages from 0 to 100 on it.
pub proof fn law_accepted_string_becomes_polygon<
    R: Fn(&str) -> Option<Reading>,
    S: Fn(Percent, i32) -> i32,
>(
    read: R,
    scale: S,
    s: Seq<char>,
    points: Seq<(Percent, Percent)>,
    x_max: i32,
    y_max: i32,
    r: Result<Seq<(i32, i32)>, Seq<char>>,
)
    requires
        may_parse(read, s, Ok(points)),
        may_place(scale, points, x_max, y_max, r),
    ensures
        r is Ok,
        r->Ok_0.len() == words(s).len(),
        exists|readings: Readings| #[trigger]
            may_read_all(read, words(s), readings) && forall|i: int|
                0 <= i < points.len() ==> point_of(words(s)[i], readings[i].0, readings[i].1) == Ok::<
                    (Percent, Percent),
                    Seq<char>,
                >(#[trigger] points[i]),
        forall|i: int|
            0 <= i < points.len() ==> call_ensures(
                scale,
                (points[i].0, x_max),
                (#[trigger] r->Ok_0[i]).0,
            ) && call_ensures(scale, (points[i].1, y_max), r->Ok_0[i].1),
        keeps_range(scale, x_max) ==> forall|i: int|
            0 <= i < points.len() ==> 0 <= (#[trigger] r->Ok_0[i]).0 <= x_max,
        keeps_range(scale, y_max) ==> forall|i: int|
            0 <= i < points.len() ==> 0 <= (#[trigger] r->Ok_0[i]).1 <= y_max,
{
    let list = words(s);
    let readings = choose|readings: Readings| #[trigger]
        may_read_all(read, list, readings) && Ok::<Seq<(Percent, Percent)>, Seq<char>>(points)
            == polygon_points(list, readings);
    law_accepted_points_are_in_range(list, readings);
    lemma_points_in_order(list, readings, list.len() as int);
    let v = r->Ok_0;
    assert forall|i: int| 0 <= i < points.len() implies (keeps_range(scale, x_max) ==> 0
        <= (#[trigger] v[i]).0 <= x_max) && (keeps_range(scale, y_max) ==> 0 <= v[i].1 <= y_max) by {
        assert(points[i].0.in_range() && points[i].1.in_range());
    }
}

proof fn lemma_points_in_order(list: Seq<Seq<char>>, readings: Readings, upto: int)
    requires
        0 <= upto,
        points_of(list, readings, upto) is Ok,
    ensures
        ({
            let points = points_of(list, readings, upto)->Ok_0;
            &&& points.len() == upto
            &&& forall|i: int|
                0 <= i < upto ==> point_of(list[i], readings[i].0, readings[i].1) == Ok::<
                    (Percent, Percent),
                    Seq<char>,
                >(#[trigger] points[i])
        }),
    decreases upto,
{
    if upto > 0 {
        lemma_points_in_order(list, readings, upto - 1);
    }
}

/// Whether a word is well-formed, given what reading its two pieces gave: there are two pieces, both
/// are numbers, and both numbers lie between 0 and 100.
pub open spec fn well_formed(
    word: Seq<char>,
    x: Option<(Percent, Seq<char>)>,
    y: Option<(Percent, Seq<char>)>,
) -> bool {
    &&& fields(word).len() == 2
    &&& x is Some && y is Some
    &&& (x->0).0.bits <= HUNDRED_BITS || (x->0).0.bits == NEGATIVE_ZERO_BITS
    &&& (y->0).0.bits <= HUNDRED_BITS || (y->0).0.bits == NEGATIVE_ZERO_BITS
}

/// What is said about a word that is not well-formed: the number of pieces comes first, then the
/// first number, then the second, then the range.
pub open spec fn complaint(
    word: Seq<char>,
    x: Option<(Percent, Seq<char>)>,
    y: Option<(Percent, Seq<char>)>,
) -> Seq<char> {
    if fields(word).len() != 2 {
        "Invalid point format '"@ + word + "', expected 'x,y'"@
    } else if x is None {
        "Invalid x coordinate '"@ + fields(word)[0] + "'"@
    } else if y is None {
        "Invalid y coordinate '"@ + fields(word)[1] + "'"@
    } else {
        "Coordinates must be in range 0-100, got ("@ + (x->0).1 + ", "@ + (y->0).1 + ")"@
    }
}

/// A well-formed word is the point whose coordinates are the two numbers, in their order. Any other
/// word is refused.
pub proof fn law_point_is_its_readings(
    word: Seq<char>,
    x: Option<(Percent, Seq<char>)>,
    y: Option<(Percent, Seq<char>)>,
)
    ensures
        well_formed(word, x, y) ==> point_of(word, x, y) == Ok::<(Percent, Percent), Seq<char>>(
            ((x->0).0, (y->0).0),
        ),
        !well_formed(word, x, y) ==> point_of(word, x, y) == Err::<(Percent, Percent), Seq<char>>(
            complaint(word, x, y),
        ),
{
    if let Some((p, _)) = x {
        law_ranges_of_encodings(p);
    }
    if let Some((p, _)) = y {
        law_ranges_of_encodings(p);
    }
}

/// A list of words is accepted exactly if it has at least three words and all are well-formed. It
/// then gives one point for each word: its first coordinate is the first number of the word, and its
/// second coordinate is the second number.
pub proof fn law_accepted_list(list: Seq<Seq<char>>, readings: Readings)
    requires
        list.len() == readings.len(),
    ensures
        polygon_points(list, readings) is Ok <==> list.len() >= 3 && forall|i: int|
            0 <= i < list.len() ==> well_formed(
                list[i],
                (#[trigger] readings[i]).0,
                readings[i].1,
            ),
        polygon_points(list, readings) matches Ok(points) ==> points.len() == list.len() && forall|
            i: int,
        |
            0 <= i < list.len() ==> readings[i].0 is Some && readings[i].1 is Some && (
            #[trigger] points[i]).0 == (readings[i].0->0).0 && points[i].1 == (readings[i].1->0).0,
{
    let n = list.len() as int;
    if points_of(list, readings, n) is Ok {
        lemma_points_in_order(list, readings, n);
        let points = points_of(list, readings, n)->Ok_0;
        assert forall|i: int| 0 <= i < n implies well_formed(
            list[i],
            (#[trigger] readings[i]).0,
            readings[i].1,
        ) && (readings[i].0->0).0 == points[i].0 && (readings[i].1->0).0 == points[i].1 by {
            law_point_is_its_readings(list[i], readings[i].0, readings[i].1);
            assert(point_of(list[i], readings[i].0, readings[i].1) == Ok::<
                (Percent, Percent),
                Seq<char>,
            >(points[i]));
        }
    } else if forall|i: int|
        0 <= i < n ==> well_formed(list[i], (#[trigger] readings[i]).0, readings[i].1) {
        lemma_well_formed_prefix(list, readings, n);
    }
}

proof fn lemma_well_formed_prefix(list: Seq<Seq<char>>, readings: Readings, upto: int)
    requires
        0 <= upto <= list.len(),
        list.len() == readings.len(),
        forall|i: int|
            0 <= i < upto ==> well_formed(list[i], (#[trigger] readings[i]).0, readings[i].1),
    ensures
        points_of(list, readings, upto) is Ok,
        points_of(list, readings, upto)->Ok_0.len() == upto,
    decreases upto,
{
    if upto > 0 {
        lemma_well_formed_prefix(list, readings, upto - 1);
        assert(readings[upto - 1] == readings[upto - 1]);
        law_point_is_its_readings(list[upto - 1], readings[upto - 1].0, readings[upto - 1].1);
    }
}

/// A list of words of which `k` is the first that is not well-formed is refused for that word.
pub proof fn law_first_bad_word_decides(list: Seq<Seq<char>>, readings: Readings, k: int)
    requires
        list.len() == readings.len(),
        0 <= k < list.len(),
        forall|i: int|
            0 <= i < k ==> well_formed(list[i], (#[trigger] readings[i]).0, readings[i].1),
        !well_formed(list[k], readings[k].0, readings[k].1),
    ensures
        polygon_points(list, readings) == Err::<Seq<(Percent, Percent)>, Seq<char>>(
            complaint(list[k], readings[k].0, readings[k].1),
        ),
{
    lemma_well_formed_prefix(list, readings, k);
    law_point_is_its_readings(list[k], readings[k].0, readings[k].1);
    lemma_first_error(list, readings, k + 1, list.len() as int);
}

/// Fewer than three words, all of them well-formed, are refused for their number.
pub proof fn law_too_few_words(list: Seq<Seq<char>>, readings: Readings)
    requires
        list.len() == readings.len(),
        list.len() < 3,
        forall|i: int|
            0 <= i < list.len() ==> well_formed(list[i], (#[trigger] readings[i]).0, readings[i].1),
    ensures
        polygon_points(list, readings) == Err::<Seq<(Percent, Percent)>, Seq<char>>(
            "Polygon must have at least 3 points, got "@ + decimal_nat(list.len()),
        ),
{
    lemma_well_formed_prefix(list, readings, list.len() as int);
}

/// The readings of a list of words are what `read` gave for the first and the second piece of each
/// word with two pieces.
pub proof fn law_readings_are_of_the_pieces<R: Fn(&str) -> Option<Reading>>(
    read: R,
    list: Seq<Seq<char>>,
    readings: Readings,
    i: int,
)
    requires
        may_read_all(read, list, readings),
        0 <= i < list.len(),
        fields(list[i]).len() == 2,
    ensures
        readings.len() == list.len(),
        exists|t: &str, r: Option<Reading>|
            t@ == fields(list[i])[0] && #[trigger] call_ensures(read, (t,), r) && match r {
                Some(r) => readings[i].0 == Some((r.percent, r.shown@)),
                None => readings[i].0 is None,
            },
        exists|t: &str, r: Option<Reading>|
            t@ == fields(list[i])[1] && #[trigger] call_ensures(read, (t,), r) && match r {
                Some(r) => readings[i].1 == Some((r.percent, r.shown@)),
                None => readings[i].1 is None,
            },
{
    assert(may_read(read, fields(list[i])[0], readings[i].0));
    assert(may_read(read, fields(list[i])[1], readings[i].1));
    let (t, r) = choose|t: &str, r: Option<Reading>|
        t@ == fields(list[i])[0] && #[trigger] call_ensures(read, (t,), r) && reading_view(r)
            == readings[i].0;
    assert(call_ensures(read, (t,), r));
    let (u, q) = choose|t: &str, r: Option<Reading>|
        t@ == fields(list[i])[1] && #[trigger] call_ensures(read, (t,), r) && reading_view(r)
            == readings[i].1;
    assert(call_ensures(read, (u,), q));
}

/// Every point of an accepted polygon string was read from its own word: the first coordinate from
/// the piece before the comma, the second from the piece behind it, and both lie between 0 and 100.
pub proof fn law_accepted_points_were_read<R: Fn(&str) -> Option<Reading>>(
    read: R,
    s: Seq<char>,
    points: Seq<(Percent, Percent)>,
    i: int,
)
    requires
        may_parse(read, s, Ok(points)),
        0 <= i < points.len(),
    ensures
        points.len() >= 3,
        points.len() == words(s).len(),
        fields(words(s)[i]).len() == 2,
        exists|t: &str, r: Option<Reading>|
            t@ == fields(words(s)[i])[0] && #[trigger] call_ensures(read, (t,), r) && r is Some
                && r->0.percent == points[i].0,
        exists|t: &str, r: Option<Reading>|
            t@ == fields(words(s)[i])[1] && #[trigger] call_ensures(read, (t,), r) && r is Some
                && r->0.percent == points[i].1,
        points[i].0.bits <= HUNDRED_BITS || points[i].0.bits == NEGATIVE_ZERO_BITS,
        points[i].1.bits <= HUNDRED_BITS || points[i].1.bits == NEGATIVE_ZERO_BITS,
{
    let list = words(s);
    let readings = choose|readings: Readings| #[trigger]
        may_read_all(read, list, readings) && Ok::<Seq<(Percent, Percent)>, Seq<char>>(points)
            == polygon_points(list, readings);
    law_accepted_list(list, readings);
    assert(well_formed(list[i], readings[i].0, readings[i].1));
    assert(points[i] == points[i]);
    law_readings_are_of_the_pieces(read, list, readings, i);
    let (t, r) = choose|t: &str, r: Option<Reading>|
        t@ == fields(list[i])[0] && #[trigger] call_ensures(read, (t,), r) && match r {
            Some(r) => readings[i].0 == Some((r.percent, r.shown@)),
            None => readings[i].0 is None,
        };
    assert(call_ensures(read, (t,), r));
    let (u, q) = choose|t: &str, r: Option<Reading>|
        t@ == fields(list[i])[1] && #[trigger] call_ensures(read, (t,), r) && match r {
            Some(r) => readings[i].1 == Some((r.percent, r.shown@)),
            None => readings[i].1 is None,
        };
    assert(call_ensures(read, (u,), q));
}

/// A polygon string is refused for its first word that is not well-formed, and else only because it
/// has fewer than three words.
pub proof fn law_refused_string<R: Fn(&str) -> Option<Reading>>(
    read: R,
    s: Seq<char>,
    message: Seq<char>,
) -> (readings: Readings)
    requires
        may_parse(read, s, Err(message)),
    ensures
        may_read_all(read, words(s), readings),
        ({
            let list = words(s);
            ||| exists|k: int|
                0 <= k < list.len() && !well_formed(
                    list[k],
                    (#[trigger] readings[k]).0,
                    readings[k].1,
                ) && message == complaint(list[k], readings[k].0, readings[k].1) && forall|i: int|
                    0 <= i < k ==> well_formed(list[i], (#[trigger] readings[i]).0, readings[i].1)
            ||| list.len() < 3 && message == "Polygon must have at least 3 points, got "@
                + decimal_nat(list.len()) && forall|i: int|
                0 <= i < list.len() ==> well_formed(
                    list[i],
                    (#[trigger] readings[i]).0,
                    readings[i].1,
                )
        }),
{
    let list = words(s);
    let readings = choose|readings: Readings| #[trigger]
        may_read_all(read, list, readings) && Err::<Seq<(Percent, Percent)>, Seq<char>>(message)
            == polygon_points(list, readings);
    law_accepted_list(list, readings);
    if forall|i: int|
        0 <= i < list.len() ==> well_formed(list[i], (#[trigger] readings[i]).0, readings[i].1) {
        law_too_few_words(list, readings);
    } else {
        let k = lemma_first_ill_formed(list, readings, list.len() as int);
        law_first_bad_word_decides(list, readings, k);
        assert(readings[k] == readings[k]);
    }
    readings
}

proof fn lemma_first_ill_formed(list: Seq<Seq<char>>, readings: Readings, upto: int) -> (k: int)
    requires
        0 <= upto <= list.len(),
        list.len() == readings.len(),
        !(forall|i: int|
            0 <= i < upto ==> well_formed(list[i], (#[trigger] readings[i]).0, readings[i].1)),
    ensures
        0 <= k < upto,
        !well_formed(list[k], readings[k].0, readings[k].1),
        forall|i: int|
            0 <= i < k ==> well_formed(list[i], (#[trigger] readings[i]).0, readings[i].1),
    decreases upto,
{
    if upto > 0 && forall|i: int|
        0 <= i < upto - 1 ==> well_formed(list[i], (#[trigger] readings[i]).0, readings[i].1) {
        upto - 1
    } else {
        lemma_first_ill_formed(list, readings, upto - 1)
    }
}

/// Points become vertices one by one and in their order, the first coordinate as a part of the width
/// and the second as a part of the height. They are refused exactly if there are fewer than three.
pub proof fn law_points_become_vertices<S: Fn(Percent, i32) -> i32>(
    scale: S,
    points: Seq<(Percent, Percent)>,
    x_max: i32,
    y_max: i32,
    r: Result<Seq<(i32, i32)>, Seq<char>>,
)
    requires
        may_place(scale, points, x_max, y_max, r),
    ensures
        r is Ok <==> points.len() >= 3,
        r matches Ok(v) ==> v.len() == points.len() && forall|i: int|
            0 <= i < points.len() ==> call_ensures(
                scale,
                (points[i].0, x_max),
                (#[trigger] v[i]).0,
            ) && call_ensures(scale, (points[i].1, y_max), v[i].1),
        r matches Err(message) ==> message == "Polygon must have at least 3 points"@,
{
}

/// A polygon string on the command line is refused exactly if it cannot be parsed, with its number,
/// its text and the reason. Else each of its points becomes a vertex.
pub proof fn law_argument_becomes_polygon<
    R: Fn(&str) -> Option<Reading>,
    S: Fn(Percent, i32) -> i32,
>(
    read: R,
    scale: S,
    number: nat,
    text: Seq<char>,
    points: Result<Seq<(Percent, Percent)>, Seq<char>>,
    x_max: i32,
    y_max: i32,
    r: Result<Seq<(i32, i32)>, Seq<char>>,
)
    requires
        may_parse(read, text, points),
        may_become(number, text, points, x_max, y_max, scale, r),
    ensures
        points matches Err(error) ==> r == Err::<Seq<(i32, i32)>, Seq<char>>(
            "Failed to parse polygon "@ + decimal_nat(number) + " '"@ + text + "': "@ + error,
        ),
        points matches Ok(list) ==> r is Ok && r->Ok_0.len() == list.len() && forall|i: int|
            0 <= i < list.len() ==> call_ensures(
                scale,
                (list[i].0, x_max),
                (#[trigger] r->Ok_0[i]).0,
            ) && call_ensures(scale, (list[i].1, y_max), r->Ok_0[i].1),
{
    if let Ok(list) = points {
        let readings = choose|readings: Readings| #[trigger]
            may_read_all(read, words(text), readings) && points == polygon_points(
                words(text),
                readings,
            );
        law_accepted_list(words(text), readings);
        assert(list.len() >= 3);
    }
}

/// What is said of points, polygons and messages is said of what they hold, in the same order.
pub proof fn law_views_hold_everything(
    point: (Percent, Percent),
    points: Vec<(Percent, Percent)>,
    polygon: Polygon,
    message: String,
    reading: Reading,
)
    ensures
        point_view(Ok(point)) == Ok::<(Percent, Percent), Seq<char>>(point),
        point_view(Err(message)) == Err::<(Percent, Percent), Seq<char>>(message@),
        points_view(Ok(points)) == Ok::<Seq<(Percent, Percent)>, Seq<char>>(points@),
        points_view(Err(message)) == Err::<Seq<(Percent, Percent)>, Seq<char>>(message@),
        outline_view(Ok(polygon)) == Ok::<Seq<(i32, i32)>, Seq<char>>(polygon.vertices@),
        outline_view(Err(message)) == Err::<Seq<(i32, i32)>, Seq<char>>(message@),
        reading_view(Some(reading)) == Some((reading.percent, reading.shown@)),
        reading_view(None) is None,
{
}

/// What is said of a list of readings is said of each of them, in the same order.
pub proof fn law_readings_view_holds_everything(
    readings: Seq<(Option<Reading>, Option<Reading>)>,
    i: int,
)
    requires
        0 <= i < readings.len(),
    ensures
        readings_view(readings).len() == readings.len(),
        readings_view(readings)[i] == (reading_view(readings[i].0), reading_view(readings[i].1)),
{
}

} // verus!
