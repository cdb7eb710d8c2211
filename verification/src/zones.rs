//! The exclusion zones of a touchpad.

use vstd::arithmetic::power2::{lemma2_to64, lemma_pow2_adds, lemma_pow2_pos, pow2};
use vstd::prelude::*;

use crate::percent::{law_ranges_of_encodings, Percent};
use crate::polygon::{cuts_ray, inside, inside_any, ray_cuts, testable, Polygon};
use crate::polygon_laws::{
    half_open, law_rectangle_holds_its_points, lemma_edge_beside_point, lemma_upright_edge,
    rectangle_vertices,
};

verus! {

/// The part of the height that the upper default zone takes, in percent.
pub const DEFAULT_TOP_PERCENT: u32 = 20;

/// The part of the width that each lateral default zone takes at the upper edge, in percent.
pub const DEFAULT_SIDE_PERCENT: u32 = 30;

/// The encoding of the part that the upper default zone takes.
pub const DEFAULT_TOP_BITS: u32 = 0x41a0_0000;

/// The encoding of the part that each lateral default zone takes.
pub const DEFAULT_SIDE_BITS: u32 = 0x41f0_0000;

/// The margins that were asked for, as parts of the width and the height of the touchpad.
#[derive(Debug, Clone, Copy)]
pub struct Margins {
    pub left: Option<Percent>,
    pub right: Option<Percent>,
    pub top: Option<Percent>,
    pub bottom: Option<Percent>,
}

/// The widths, in device units, of the margins that are wider than nothing.
#[derive(Debug, Clone, Copy, PartialEq, Eq, Structural)]
pub struct Widths {
    pub left: Option<i32>,
    pub right: Option<i32>,
    pub top: Option<i32>,
    pub bottom: Option<i32>,
}

/// The vertices of each polygon.
pub open spec fn outlines(polygons: Seq<Polygon>) -> Seq<Seq<(i32, i32)>> {
    polygons.map_values(|p: Polygon| p.vertices@)
}

/// Whether a margin was asked for that is wider than nothing.
pub open spec fn wanted(margin: Option<Percent>) -> bool {
    margin is Some && margin->0.positive()
}

/// Whether a 32-bit signed integer can hold `x`.
pub open spec fn fits_i32(x: int) -> bool {
    i32::MIN <= x <= i32::MAX
}

/// Whether any margin or polygon was asked for.
pub open spec fn explicit(m: Margins, polygons: Seq<Polygon>) -> bool {
    m.left is Some || m.right is Some || m.top is Some || m.bottom is Some || polygons.len() > 0
}

/// The margins that are used if nothing was asked for.
pub open spec fn default_margins() -> Margins {
    Margins {
        left: Some(Percent { bits: DEFAULT_SIDE_BITS }),
        right: Some(Percent { bits: DEFAULT_SIDE_BITS }),
        top: Some(Percent { bits: DEFAULT_TOP_BITS }),
        bottom: None,
    }
}

/// The margins that were asked for or, if nothing was, the default margins.
pub open spec fn used_margins(m: Margins, polygons: Seq<Polygon>) -> Margins {
    if explicit(m, polygons) {
        m
    } else {
        default_margins()
    }
}

/// Whether `px` may be the width that `width` gives a margin along a side of the length `max`.
pub open spec fn measured_side<W: Fn(Percent, i32) -> i32>(
    width: W,
    margin: Option<Percent>,
    max: i32,
    px: Option<i32>,
) -> bool {
    match px {
        Some(px) => wanted(margin) && call_ensures(width, (margin->0, max), px),
        None => !wanted(margin),
    }
}

/// Whether `w` may be the widths that `width` gives the margins: those at the left and at the right
/// are parts of the width of the touchpad, the others are parts of its height.
pub open spec fn measured<W: Fn(Percent, i32) -> i32>(
    width: W,
    m: Margins,
    x_max: i32,
    y_max: i32,
    w: Widths,
) -> bool {
    &&& measured_side(width, m.left, x_max, w.left)
    &&& measured_side(width, m.right, x_max, w.right)
    &&& measured_side(width, m.top, y_max, w.top)
    &&& measured_side(width, m.bottom, y_max, w.bottom)
}

/// The outline in a list of its own if `cond` holds, else no outline.
pub open spec fn if_wanted(cond: bool, outline: Seq<(i32, i32)>) -> Seq<Seq<(i32, i32)>> {
    if cond {
        seq![outline]
    } else {
        Seq::empty()
    }
}

/// The rectangles along the edges that margins of these widths stand for.
pub open spec fn margin_outlines(w: Widths, x_max: i32, y_max: i32) -> Seq<Seq<(i32, i32)>> {
    if_wanted(w.left is Some, rectangle_vertices(0, 0, w.left->0, y_max)) + if_wanted(
        w.right is Some,
        rectangle_vertices((x_max - w.right->0) as i32, 0, x_max, y_max),
    ) + if_wanted(w.top is Some, rectangle_vertices(0, 0, x_max, w.top->0)) + if_wanted(
        w.bottom is Some,
        rectangle_vertices(0, (y_max - w.bottom->0) as i32, x_max, y_max),
    )
}

/// The zones that are used if nothing was asked for: a rectangle along the upper edge and a
/// triangle in each upper corner.
pub open spec fn default_outlines(w: Widths, x_max: i32, y_max: i32) -> Seq<Seq<(i32, i32)>> {
    seq![
        rectangle_vertices(0, 0, x_max, w.top->0),
        seq![(0i32, 0i32), (w.left->0, 0i32), (0i32, y_max)],
        seq![((x_max - w.right->0) as i32, 0i32), (x_max, 0i32), (x_max, y_max)],
    ]
}

/// The outlines of all exclusion zones, in order, where the margins that are used have the widths
/// `w`.
pub open spec fn zone_outlines(
    m: Margins,
    polygons: Seq<Polygon>,
    w: Widths,
    x_max: i32,
    y_max: i32,
) -> Seq<Seq<(i32, i32)>> {
    if explicit(m, polygons) {
        margin_outlines(w, x_max, y_max) + outlines(polygons)
    } else {
        default_outlines(w, x_max, y_max)
    }
}

/// Whether the corners of the zones can be computed in 32 bits.
pub open spec fn corners_fit(w: Widths, x_max: i32, y_max: i32) -> bool {
    &&& w.right is Some ==> fits_i32(x_max - w.right->0)
    &&& w.bottom is Some ==> fits_i32(y_max - w.bottom->0)
}

/// Whether any margin or polygon was asked for. If none was, the default zones are used.
pub fn is_explicit(margins: &Margins, polygons: &Vec<Polygon>) -> (yes: bool)
    ensures
        yes == explicit(*margins, polygons@),
{
    margins.left.is_some() || margins.right.is_some() || margins.top.is_some()
        || margins.bottom.is_some() || polygons.len() > 0
}

/// The margins that are used: those that were asked for or, if nothing was, the default margins.
pub fn choose_margins(margins: &Margins, polygons: &Vec<Polygon>) -> (used: Margins)
    ensures
        used == used_margins(*margins, polygons@),
{
    if is_explicit(margins, polygons) {
        *margins
    } else {
        Margins {
            left: Some(Percent { bits: DEFAULT_SIDE_BITS }),
            right: Some(Percent { bits: DEFAULT_SIDE_BITS }),
            top: Some(Percent { bits: DEFAULT_TOP_BITS }),
            bottom: None,
        }
    }
}

/// The width of a margin along a side of the length `max`, if it is wider than nothing.
fn measure_side<W: Fn(Percent, i32) -> i32>(
    margin: Option<Percent>,
    max: i32,
    width: &W,
) -> (px: Option<i32>)
    requires
        forall|p: Percent, max: i32| call_requires(*width, (p, max)),
    ensures
        measured_side(*width, margin, max, px),
{
    match margin {
        Some(percent) => if percent.is_positive() {
            Some((*width)(percent, max))
        } else {
            None
        },
        None => None,
    }
}

/// The widths of the margins that are wider than nothing. `width` turns a percentage of a length
/// into a width in device units.
pub fn measure<W: Fn(Percent, i32) -> i32>(
    margins: &Margins,
    x_max: i32,
    y_max: i32,
    width: &W,
) -> (widths: Widths)
    requires
        forall|p: Percent, max: i32| call_requires(*width, (p, max)),
    ensures
        measured(*width, *margins, x_max, y_max, widths),
{
    Widths {
        left: measure_side(margins.left, x_max, width),
        right: measure_side(margins.right, x_max, width),
        top: measure_side(margins.top, y_max, width),
        bottom: measure_side(margins.bottom, y_max, width),
    }
}

/// Appends a polygon to a list.
fn add_zone(zones: &mut Vec<Polygon>, zone: Polygon)
    ensures
        outlines(final(zones)@) == outlines(old(zones)@) + seq![zone.vertices@],
{
    zones.push(zone);
    assert(outlines(zones@) =~= outlines(old(zones)@) + seq![zone.vertices@]);
}

/// The rectangles along the edges that margins of these widths stand for.
fn margin_zones(widths: &Widths, x_max: i32, y_max: i32) -> (zones: Vec<Polygon>)
    requires
        corners_fit(*widths, x_max, y_max),
    ensures
        outlines(zones@) == margin_outlines(*widths, x_max, y_max),
{
    let mut zones: Vec<Polygon> = Vec::new();
    assert(outlines(zones@) =~= Seq::empty());
    if let Some(px) = widths.left {
        add_zone(&mut zones, Polygon::rectangle(0, 0, px, y_max));
    }
    if let Some(px) = widths.right {
        add_zone(&mut zones, Polygon::rectangle(x_max - px, 0, x_max, y_max));
    }
    if let Some(px) = widths.top {
        add_zone(&mut zones, Polygon::rectangle(0, 0, x_max, px));
    }
    if let Some(px) = widths.bottom {
        add_zone(&mut zones, Polygon::rectangle(0, y_max - px, x_max, y_max));
    }
    assert(outlines(zones@) =~= margin_outlines(*widths, x_max, y_max));
    zones
}

/// The zones that are used if nothing was asked for.
fn default_zones(top: i32, left: i32, right: i32, x_max: i32, y_max: i32) -> (zones: Vec<Polygon>)
    requires
        fits_i32(x_max - right),
    ensures
        outlines(zones@) == default_outlines(
            Widths { left: Some(left), right: Some(right), top: Some(top), bottom: None },
            x_max,
            y_max,
        ),
{
    let mut zones: Vec<Polygon> = Vec::new();
    let start = x_max - right;
    add_zone(&mut zones, Polygon::rectangle(0, 0, x_max, top));
    add_zone(&mut zones, Polygon { vertices: vec![(0, 0), (left, 0), (0, y_max)] });
    add_zone(&mut zones, Polygon { vertices: vec![(start, 0), (x_max, 0), (x_max, y_max)] });
    assert(outlines(zones@) =~= default_outlines(
        Widths { left: Some(left), right: Some(right), top: Some(top), bottom: None },
        x_max,
        y_max,
    ));
    zones
}

/// The exclusion zones: the margins and the polygons that were asked for, or, if nothing was, the
/// default zones. `width` turns a percentage of a length into a width in device units.
pub fn exclusion_zones<W: Fn(Percent, i32) -> i32>(
    margins: &Margins,
    polygons: Vec<Polygon>,
    x_max: i32,
    y_max: i32,
    width: W,
) -> (zones: Vec<Polygon>)
    requires
        forall|p: Percent, max: i32| call_requires(width, (p, max)),
        forall|w: Widths| #[trigger]
            measured(width, used_margins(*margins, polygons@), x_max, y_max, w) ==> corners_fit(
                w,
                x_max,
                y_max,
            ),
    ensures
        exists|w: Widths| #[trigger]
            measured(width, used_margins(*margins, polygons@), x_max, y_max, w) && outlines(zones@)
                == zone_outlines(*margins, polygons@, w, x_max, y_max),
{
    let used = choose_margins(margins, &polygons);
    let widths = measure(&used, x_max, y_max, &width);
    assert(measured(width, used_margins(*margins, polygons@), x_max, y_max, widths));
    if is_explicit(margins, &polygons) {
        let mut zones = margin_zones(&widths, x_max, y_max);
        let ghost before = zones@;
        let ghost asked = polygons@;
        let mut polygons = polygons;
        zones.append(&mut polygons);
        assert(outlines(zones@) =~= outlines(before) + outlines(asked));
        zones
    } else {
        proof {
            law_default_percentages();
        }
        match (widths.top, widths.left, widths.right) {
            (Some(top), Some(left), Some(right)) => default_zones(top, left, right, x_max, y_max),
            // The default margins are all wider than nothing.
            _ => Vec::new(),
        }
    }
}

/// The default margins are 20 and 30 percent.
pub proof fn law_default_percentages()
    ensures
        ({
            let top = Percent { bits: DEFAULT_TOP_BITS };
            let side = Percent { bits: DEFAULT_SIDE_BITS };
            &&& top.finite() && top.value() == DEFAULT_TOP_PERCENT * pow2(149)
            &&& side.finite() && side.value() == DEFAULT_SIDE_PERCENT * pow2(149)
            &&& wanted(default_margins().left)
            &&& wanted(default_margins().right)
            &&& wanted(default_margins().top)
        }),
{
    lemma_pow2_adds(130, 19);
    lemma_pow2_pos(130);
    assert(pow2(19) == 0x8_0000) by {
        lemma2_to64();
    }
    let unit = pow2(130) as int;
    assert(0xa0_0000 * unit == 20 * (unit * 0x8_0000)) by (nonlinear_arith);
    assert(0xf0_0000 * unit == 30 * (unit * 0x8_0000)) by (nonlinear_arith);
}

/// Whether one of the outlines holds the point.
pub open spec fn inside_any_outline(list: Seq<Seq<(i32, i32)>>, x: i32, y: i32) -> bool {
    exists|k: int| 0 <= k < list.len() && #[trigger] inside(list[k], x, y)
}

/// What polygons hold depends on their outlines alone.
pub proof fn law_outlines_decide(polygons: Seq<Polygon>, x: i32, y: i32)
    ensures
        inside_any(polygons, x, y) == inside_any_outline(outlines(polygons), x, y),
{
    let list = outlines(polygons);
    if inside_any(polygons, x, y) {
        let k = choose|k: int|
            0 <= k < polygons.len() && #[trigger] inside(polygons[k].vertices@, x, y);
        assert(inside(list[k], x, y));
    }
    if inside_any_outline(list, x, y) {
        let k = choose|k: int| 0 <= k < list.len() && #[trigger] inside(list[k], x, y);
        assert(inside(polygons[k].vertices@, x, y));
    }
}

/// Lists of outlines together hold what one of them holds.
proof fn lemma_outlines_add_up(
    first: Seq<Seq<(i32, i32)>>,
    second: Seq<Seq<(i32, i32)>>,
    x: i32,
    y: i32,
)
    ensures
        inside_any_outline(first + second, x, y) == (inside_any_outline(first, x, y)
            || inside_any_outline(second, x, y)),
{
    let all = first + second;
    if inside_any_outline(first, x, y) {
        let k = choose|k: int| 0 <= k < first.len() && #[trigger] inside(first[k], x, y);
        assert(inside(all[k], x, y));
    }
    if inside_any_outline(second, x, y) {
        let k = choose|k: int| 0 <= k < second.len() && #[trigger] inside(second[k], x, y);
        assert(inside(all[first.len() + k], x, y));
    }
    if inside_any_outline(all, x, y) {
        let k = choose|k: int| 0 <= k < all.len() && #[trigger] inside(all[k], x, y);
        if k < first.len() {
            assert(inside(first[k], x, y));
        } else {
            assert(inside(second[k - first.len()], x, y));
        }
    }
}

proof fn lemma_if_wanted(cond: bool, outline: Seq<(i32, i32)>, x: i32, y: i32)
    ensures
        inside_any_outline(if_wanted(cond, outline), x, y) == (cond && inside(outline, x, y)),
{
    let list = if_wanted(cond, outline);
    if cond && inside(outline, x, y) {
        assert(inside(list[0], x, y));
    }
}

/// Margins block exactly the strips along the edges that have their widths.
pub proof fn law_margins_block_the_edges(w: Widths, x_max: i32, y_max: i32, x: i32, y: i32)
    requires
        corners_fit(w, x_max, y_max),
    ensures
        inside_any_outline(margin_outlines(w, x_max, y_max), x, y) <==> {
            let across = half_open(0, x as int, x_max as int);
            let along = half_open(0, y as int, y_max as int);
            ||| w.left is Some && half_open(0, x as int, w.left->0 as int) && along
            ||| w.right is Some && half_open(x_max - w.right->0, x as int, x_max as int) && along
            ||| w.top is Some && across && half_open(0, y as int, w.top->0 as int)
            ||| w.bottom is Some && across && half_open(
                y_max - w.bottom->0,
                y as int,
                y_max as int,
            )
        },
{
    let left = rectangle_vertices(0, 0, w.left->0, y_max);
    let right = rectangle_vertices((x_max - w.right->0) as i32, 0, x_max, y_max);
    let top = rectangle_vertices(0, 0, x_max, w.top->0);
    let bottom = rectangle_vertices(0, (y_max - w.bottom->0) as i32, x_max, y_max);
    let (a, b) = (if_wanted(w.left is Some, left), if_wanted(w.right is Some, right));
    let (c, d) = (if_wanted(w.top is Some, top), if_wanted(w.bottom is Some, bottom));
    lemma_outlines_add_up(a, b, x, y);
    lemma_outlines_add_up(a + b, c, x, y);
    lemma_outlines_add_up(a + b + c, d, x, y);
    lemma_if_wanted(w.left is Some, left, x, y);
    lemma_if_wanted(w.right is Some, right, x, y);
    lemma_if_wanted(w.top is Some, top, x, y);
    lemma_if_wanted(w.bottom is Some, bottom, x, y);
    law_rectangle_holds_its_points(0, 0, w.left->0, y_max, x, y);
    law_rectangle_holds_its_points((x_max - w.right->0) as i32, 0, x_max, y_max, x, y);
    law_rectangle_holds_its_points(0, 0, x_max, w.top->0, x, y);
    law_rectangle_holds_its_points(0, (y_max - w.bottom->0) as i32, x_max, y_max, x, y);
}

/// The triangle with the right angle at the origin holds exactly the points on the origin's side of
/// the long side.
proof fn lemma_left_triangle(width: i32, height: i32, x: i32, y: i32)
    requires
        0 <= width,
        0 <= height,
    ensures
        inside(seq![(0i32, 0i32), (width, 0i32), (0i32, height)], x, y) <==> 0 <= x && 0 <= y
            < height && x * height + y * width < width * height,
{
    let v = seq![(0i32, 0i32), (width, 0i32), (0i32, height)];
    reveal_with_fuel(ray_cuts, 4);
    assert(v.len() == 3);
    lemma_upright_edge(v[0], v[2], x, y);
    assert(!cuts_ray(v[1], v[0], x, y));
    if 0 <= y < height {
        let (w, h, px, py) = (width as int, height as int, x as int, y as int);
        assert((px - w) * h < py * (0 - w) <==> px * h + py * w < w * h) by (nonlinear_arith);
        if x < 0 {
            lemma_edge_beside_point(v[2], v[1], x, y);
        }
    }
}

/// The triangle with the right angle at the right upper corner holds exactly the points between its
/// long side, which is included, and the right edge.
proof fn lemma_right_triangle(left: i32, right: i32, height: i32, x: i32, y: i32)
    requires
        left <= right,
        0 <= height,
    ensures
        inside(seq![(left, 0i32), (right, 0i32), (right, height)], x, y) <==> x < right && 0 <= y
            < height && (right - x) * height <= (height - y) * (right - left),
{
    let v = seq![(left, 0i32), (right, 0i32), (right, height)];
    reveal_with_fuel(ray_cuts, 4);
    assert(v.len() == 3);
    lemma_upright_edge(v[2], v[1], x, y);
    assert(!cuts_ray(v[1], v[0], x, y));
    if 0 <= y < height {
        let (w, h, d, k) = (right - left, height as int, right - x, height - y);
        assert((-d) * (-h) == d * h && (-k) * (-w) == k * w) by (nonlinear_arith);
        if x >= right {
            lemma_edge_beside_point(v[0], v[2], x, y);
        }
    }
}

/// The default zones block exactly the strip along the upper edge and the two upper corners, each
/// cut off by the line from the upper edge to the lower end of the lateral edge.
pub proof fn law_default_zones(w: Widths, x_max: i32, y_max: i32, x: i32, y: i32)
    requires
        w.top is Some,
        w.left is Some,
        w.right is Some,
        0 <= y_max,
        0 <= w.left->0,
        0 <= w.right->0,
        fits_i32(x_max - w.right->0),
    ensures
        inside_any_outline(default_outlines(w, x_max, y_max), x, y) <==> {
            ||| half_open(0, x as int, x_max as int) && half_open(0, y as int, w.top->0 as int)
            ||| 0 <= x && 0 <= y < y_max && x * y_max + y * w.left->0 < w.left->0 * y_max
            ||| x < x_max && 0 <= y < y_max && (x_max - x) * y_max <= (y_max - y) * w.right->0
        },
{
    let list = default_outlines(w, x_max, y_max);
    law_rectangle_holds_its_points(0, 0, x_max, w.top->0, x, y);
    lemma_left_triangle(w.left->0, y_max, x, y);
    lemma_right_triangle((x_max - w.right->0) as i32, x_max, y_max, x, y);
    assert(inside_any_outline(list, x, y) <==> inside(list[0], x, y) || inside(list[1], x, y)
        || inside(list[2], x, y));
}

/// Zones that are made from polygons with vertices all have vertices.
pub proof fn law_zones_are_testable(
    m: Margins,
    polygons: Seq<Polygon>,
    w: Widths,
    x_max: i32,
    y_max: i32,
    k: int,
)
    requires
        0 <= k < zone_outlines(m, polygons, w, x_max, y_max).len(),
        forall|i: int| 0 <= i < polygons.len() ==> testable(#[trigger] polygons[i].vertices@),
    ensures
        testable(zone_outlines(m, polygons, w, x_max, y_max)[k]),
{
    if explicit(m, polygons) {
        let margins = margin_outlines(w, x_max, y_max);
        if k >= margins.len() {
            assert(zone_outlines(m, polygons, w, x_max, y_max)[k] == polygons[k
                - margins.len()].vertices@);
        }
    }
}

/// Where any margin or polygon was asked for, only what was asked for is blocked. A side has a strip
/// exactly if a margin greater than zero was asked for it; the strip has the width that `width` gives
/// for that margin along the side; and beside the strips only the polygons that were asked for hold
/// points.
pub proof fn law_only_what_was_asked_for<W: Fn(Percent, i32) -> i32>(
    width: W,
    m: Margins,
    polygons: Seq<Polygon>,
    x_max: i32,
    y_max: i32,
    w: Widths,
    zones: Seq<Polygon>,
    x: i32,
    y: i32,
)
    requires
        m.left is Some || m.right is Some || m.top is Some || m.bottom is Some || polygons.len()
            > 0,
        measured(width, used_margins(m, polygons), x_max, y_max, w),
        corners_fit(w, x_max, y_max),
        outlines(zones) == zone_outlines(m, polygons, w, x_max, y_max),
    ensures
        w.left is Some <==> m.left is Some && 0 < (m.left->0).bits <= 0x7f80_0000,
        w.right is Some <==> m.right is Some && 0 < (m.right->0).bits <= 0x7f80_0000,
        w.top is Some <==> m.top is Some && 0 < (m.top->0).bits <= 0x7f80_0000,
        w.bottom is Some <==> m.bottom is Some && 0 < (m.bottom->0).bits <= 0x7f80_0000,
        w.left is Some ==> call_ensures(width, (m.left->0, x_max), w.left->0),
        w.right is Some ==> call_ensures(width, (m.right->0, x_max), w.right->0),
        w.top is Some ==> call_ensures(width, (m.top->0, y_max), w.top->0),
        w.bottom is Some ==> call_ensures(width, (m.bottom->0, y_max), w.bottom->0),
        inside_any(zones, x, y) <==> {
            let across = 0 <= x < x_max || x_max <= x < 0;
            let along = 0 <= y < y_max || y_max <= y < 0;
            ||| w.left is Some && along && (0 <= x < w.left->0 || w.left->0 <= x < 0)
            ||| w.right is Some && along && (x_max - w.right->0 <= x < x_max || x_max <= x < x_max
                - w.right->0)
            ||| w.top is Some && across && (0 <= y < w.top->0 || w.top->0 <= y < 0)
            ||| w.bottom is Some && across && (y_max - w.bottom->0 <= y < y_max || y_max <= y
                < y_max - w.bottom->0)
            ||| inside_any(polygons, x, y)
        },
{
    lemma_wanted_by_encoding(m.left);
    lemma_wanted_by_encoding(m.right);
    lemma_wanted_by_encoding(m.top);
    lemma_wanted_by_encoding(m.bottom);
    law_outlines_decide(zones, x, y);
    law_outlines_decide(polygons, x, y);
    lemma_outlines_add_up(margin_outlines(w, x_max, y_max), outlines(polygons), x, y);
    law_margins_block_the_edges(w, x_max, y_max, x, y);
}

proof fn lemma_wanted_by_encoding(margin: Option<Percent>)
    ensures
        wanted(margin) <==> margin is Some && 0 < (margin->0).bits <= 0x7f80_0000,
{
    if let Some(p) = margin {
        law_ranges_of_encodings(p);
    }
}

/// Where nothing was asked for, the default zones are used: a strip along the upper edge with a
/// fifth of the height, and a triangle in each upper corner with three tenths of the width at the
/// upper edge and its tip at the lower end of the lateral edge.
pub proof fn law_defaults_where_nothing_was_asked_for<W: Fn(Percent, i32) -> i32>(
    width: W,
    m: Margins,
    polygons: Seq<Polygon>,
    x_max: i32,
    y_max: i32,
    w: Widths,
    zones: Seq<Polygon>,
    x: i32,
    y: i32,
)
    requires
        m.left is None && m.right is None && m.top is None && m.bottom is None && polygons.len()
            == 0,
        measured(width, used_margins(m, polygons), x_max, y_max, w),
        corners_fit(w, x_max, y_max),
        outlines(zones) == zone_outlines(m, polygons, w, x_max, y_max),
        0 <= y_max,
    ensures
        w.top is Some && w.left is Some && w.right is Some,
        exists|p: Percent|
            p.finite() && p.value() == 20 * pow2(149) && #[trigger] call_ensures(
                width,
                (p, y_max),
                w.top->0,
            ),
        exists|p: Percent|
            p.finite() && p.value() == 30 * pow2(149) && #[trigger] call_ensures(
                width,
                (p, x_max),
                w.left->0,
            ),
        exists|p: Percent|
            p.finite() && p.value() == 30 * pow2(149) && #[trigger] call_ensures(
                width,
                (p, x_max),
                w.right->0,
            ),
        w.left->0 >= 0 && w.right->0 >= 0 ==> (inside_any(zones, x, y) <==> {
            ||| (0 <= x < x_max || x_max <= x < 0) && (0 <= y < w.top->0 || w.top->0 <= y < 0)
            ||| 0 <= x && 0 <= y < y_max && x * y_max + y * w.left->0 < w.left->0 * y_max
            ||| x < x_max && 0 <= y < y_max && (x_max - x) * y_max <= (y_max - y) * w.right->0
        }),
{
    law_default_percentages();
    law_outlines_decide(zones, x, y);
    let top = Percent { bits: DEFAULT_TOP_BITS };
    let side = Percent { bits: DEFAULT_SIDE_BITS };
    assert(call_ensures(width, (top, y_max), w.top->0));
    assert(call_ensures(width, (side, x_max), w.left->0));
    assert(call_ensures(width, (side, x_max), w.right->0));
    if w.left->0 >= 0 && w.right->0 >= 0 {
        law_default_zones(w, x_max, y_max, x, y);
    }
}

/// There is one zone for each margin that is wider than nothing, and behind these one for each
/// polygon that was asked for, in the same order and with the same vertices.
pub proof fn law_zones_are_listed(
    m: Margins,
    polygons: Seq<Polygon>,
    w: Widths,
    x_max: i32,
    y_max: i32,
    zones: Seq<Polygon>,
)
    requires
        outlines(zones) == zone_outlines(m, polygons, w, x_max, y_max),
        m.left is Some || m.right is Some || m.top is Some || m.bottom is Some || polygons.len()
            > 0,
    ensures
        ({
            let margins = (if w.left is Some { 1int } else { 0 }) + (if w.right is Some {
                1int
            } else {
                0
            }) + (if w.top is Some { 1int } else { 0 }) + (if w.bottom is Some { 1int } else { 0 });
            &&& zones.len() == margins + polygons.len()
            &&& forall|k: int|
                0 <= k < polygons.len() ==> (#[trigger] polygons[k]).vertices@ == zones[margins
                    + k].vertices@
        }),
{
    let margins = margin_outlines(w, x_max, y_max).len();
    assert(outlines(zones).len() == zones.len());
    assert forall|k: int| 0 <= k < polygons.len() implies (#[trigger] polygons[k]).vertices@
        == zones[margins + k].vertices@ by {
        assert(outlines(zones)[margins + k] == zones[margins + k].vertices@);
        assert(outlines(polygons)[k] == polygons[k].vertices@);
    }
}

/// Margins up to the whole width and the whole height leave corners that fit.
pub proof fn law_margins_on_the_touchpad_fit(w: Widths, x_max: i32, y_max: i32)
    requires
        w.right is Some ==> 0 <= w.right->0 <= x_max,
        w.bottom is Some ==> 0 <= w.bottom->0 <= y_max,
    ensures
        corners_fit(w, x_max, y_max),
{
}

/// Anything that is asked for counts, a margin of zero too.
pub proof fn law_anything_asked_for_counts(m: Margins, polygons: Seq<Polygon>)
    ensures
        explicit(m, polygons) <==> !(m.left is None && m.right is None && m.top is None
            && m.bottom is None && polygons.len() == 0),
        explicit(m, polygons) ==> used_margins(m, polygons) == m,
{
}

/// A margin is measured exactly if it is greater than zero, along its own side: at the left and at
/// the right as a part of the width of the touchpad, at the top and at the bottom as a part of its
/// height.
pub proof fn law_margins_are_measured<W: Fn(Percent, i32) -> i32>(
    width: W,
    m: Margins,
    x_max: i32,
    y_max: i32,
    w: Widths,
)
    requires
        measured(width, m, x_max, y_max, w),
    ensures
        w.left is Some <==> m.left is Some && 0 < (m.left->0).bits <= 0x7f80_0000,
        w.right is Some <==> m.right is Some && 0 < (m.right->0).bits <= 0x7f80_0000,
        w.top is Some <==> m.top is Some && 0 < (m.top->0).bits <= 0x7f80_0000,
        w.bottom is Some <==> m.bottom is Some && 0 < (m.bottom->0).bits <= 0x7f80_0000,
        w.left is Some ==> call_ensures(width, (m.left->0, x_max), w.left->0),
        w.right is Some ==> call_ensures(width, (m.right->0, x_max), w.right->0),
        w.top is Some ==> call_ensures(width, (m.top->0, y_max), w.top->0),
        w.bottom is Some ==> call_ensures(width, (m.bottom->0, y_max), w.bottom->0),
{
    lemma_wanted_by_encoding(m.left);
    lemma_wanted_by_encoding(m.right);
    lemma_wanted_by_encoding(m.top);
    lemma_wanted_by_encoding(m.bottom);
}

/// Where nothing was asked for, the margins are 30 percent at the left and at the right, 20 percent
/// at the top and none at the bottom.
pub proof fn law_default_margins(m: Margins, polygons: Seq<Polygon>)
    requires
        m.left is None && m.right is None && m.top is None && m.bottom is None && polygons.len()
            == 0,
    ensures
        ({
            let used = used_margins(m, polygons);
            &&& used.left is Some && (used.left->0).finite() && (used.left->0).value() == 30 * pow2(
                149,
            )
            &&& used.right is Some && (used.right->0).finite() && (used.right->0).value() == 30
                * pow2(149)
            &&& used.top is Some && (used.top->0).finite() && (used.top->0).value() == 20 * pow2(
                149,
            )
            &&& used.bottom is None
        }),
{
    law_default_percentages();
}

/// The default zones, by their vertices, are the strip, the left triangle and the right triangle.
pub proof fn law_default_zones_are_listed(
    m: Margins,
    polygons: Seq<Polygon>,
    w: Widths,
    x_max: i32,
    y_max: i32,
    zones: Seq<Polygon>,
)
    requires
        m.left is None && m.right is None && m.top is None && m.bottom is None && polygons.len()
            == 0,
        outlines(zones) == zone_outlines(m, polygons, w, x_max, y_max),
        fits_i32(x_max - w.right->0),
    ensures
        zones.len() == 3,
        zones[0].vertices@ == seq![(0i32, 0i32), (x_max, 0), (x_max, w.top->0), (0, w.top->0)],
        zones[1].vertices@ == seq![(0i32, 0i32), (w.left->0, 0), (0, y_max)],
        zones[2].vertices@.len() == 3,
        zones[2].vertices@[0].0 == x_max - w.right->0,
        zones[2].vertices@[0].1 == 0,
        zones[2].vertices@[1] == (x_max, 0i32),
        zones[2].vertices@[2] == (x_max, y_max),
{
    assert(outlines(zones).len() == zones.len());
    assert(outlines(zones)[0] == zones[0].vertices@);
    assert(outlines(zones)[1] == zones[1].vertices@);
    assert(outlines(zones)[2] == zones[2].vertices@);
}

/// The outlines of polygons are their vertices, in the same order.
pub proof fn law_outlines_are_of_the_polygons(polygons: Seq<Polygon>)
    ensures
        outlines(polygons).len() == polygons.len(),
        forall|i: int|
            0 <= i < polygons.len() ==> #[trigger] outlines(polygons)[i] == polygons[i].vertices@,
{
}

} // verus!
