//! Polygons on the touchpad surface.

use vstd::prelude::*;

use vstd::string::*;

use crate::geometry::{
    cross, cross_fits, fits_i64, in_box, law_turns_decide_meeting, segments_fit, segments_meet, sign,
};
use crate::text::{append_i32, decimal, texts};

verus! {

/// A closed polygon. The last vertex is joined to the first.
#[derive(Debug, Clone)]
pub struct Polygon {
    /// Absolute coordinates.
    pub vertices: Vec<(i32, i32)>,
}

/// The index behind `i` in a cycle of `n`.
pub open spec fn next_index(i: int, n: int) -> int {
    if i + 1 == n {
        0
    } else {
        i + 1
    }
}

/// The index before `i` in a cycle of `n`.
pub open spec fn prev_index(i: int, n: int) -> int {
    if i == 0 {
        n - 1
    } else {
        i - 1
    }
}

/// Whether just one of `a` and `b` has an ordinate greater than `py`.
pub open spec fn straddles(a: (i32, i32), b: (i32, i32), py: i32) -> bool {
    (a.1 > py) != (b.1 > py)
}

/// Whether the edge from `b` to `a` cuts the ray that runs from the point to the right: the edge
/// cuts the height of the point, and does so at a greater abscissa.
pub open spec fn cuts_ray(a: (i32, i32), b: (i32, i32), px: i32, py: i32) -> bool {
    straddles(a, b, py) && if a.1 > b.1 {
        (px - b.0) * (a.1 - b.1) < (py - b.1) * (a.0 - b.0)
    } else {
        (px - b.0) * (a.1 - b.1) > (py - b.1) * (a.0 - b.0)
    }
}

/// How many of the edges that end at the first `upto` vertices cut the ray to the right of the
/// point.
pub open spec fn ray_cuts(v: Seq<(i32, i32)>, px: i32, py: i32, upto: int) -> nat
    decreases upto,
{
    if upto <= 0 {
        0
    } else {
        ray_cuts(v, px, py, upto - 1) + if cuts_ray(
            v[upto - 1],
            v[prev_index(upto - 1, v.len() as int)],
            px,
            py,
        ) {
            1nat
        } else {
            0nat
        }
    }
}

/// Whether a point lies inside the polygon with the vertices `v`: an odd number of edges cuts the
/// ray that runs from it to the right.
pub open spec fn inside(v: Seq<(i32, i32)>, px: i32, py: i32) -> bool {
    ray_cuts(v, px, py, v.len() as int) % 2 == 1
}

/// Whether points can be tested against the polygon with the vertices `v`: there is a vertex.
pub open spec fn testable(v: Seq<(i32, i32)>) -> bool {
    v.len() > 0
}

/// Whether one of the polygons holds the point.
pub open spec fn inside_any(polygons: Seq<Polygon>, x: i32, y: i32) -> bool {
    exists|k: int| 0 <= k < polygons.len() && #[trigger] inside(polygons[k].vertices@, x, y)
}

/// Whether the polygons can be tested in turn for the point, up to the first that holds it.
pub open spec fn testable_in_turn(polygons: Seq<Polygon>, x: i32, y: i32) -> bool {
    forall|k: int|
        0 <= k < polygons.len() && (forall|m: int|
            0 <= m < k ==> !#[trigger] inside(polygons[m].vertices@, x, y)) ==> #[trigger] testable(
            polygons[k].vertices@,
        )
}

/// Twice the signed area that the first `upto` edges sweep around the origin, by the shoelace
/// formula.
pub open spec fn shoelace(v: Seq<(i32, i32)>, upto: int) -> int
    decreases upto,
{
    if upto <= 0 {
        0
    } else {
        let a = v[upto - 1];
        let b = v[next_index(upto - 1, v.len() as int)];
        shoelace(v, upto - 1) + (a.0 * b.1 - b.0 * a.1)
    }
}

/// Whether 64 bits hold every partial sum of the shoelace formula.
pub open spec fn area_fits(v: Seq<(i32, i32)>) -> bool {
    forall|upto: int| 0 <= upto <= v.len() ==> fits_i64(#[trigger] shoelace(v, upto))
}

/// Whether the edges that start at the vertices `i` and `e` of `n` have no vertex in common.
pub open spec fn edges_apart(i: int, e: int, n: int) -> bool {
    &&& e != i
    &&& e != next_index(i, n)
    &&& next_index(e, n) != i
    &&& next_index(e, n) != next_index(i, n)
}

/// Whether the edges that start at the vertices `i` and `e` have a point in common.
pub open spec fn edges_meet(v: Seq<(i32, i32)>, i: int, e: int) -> bool {
    let n = v.len() as int;
    segments_meet(v[i], v[next_index(i, n)], v[e], v[next_index(e, n)])
}

/// Whether two edges without a common vertex have a point in common.
pub open spec fn self_intersecting(v: Seq<(i32, i32)>) -> bool {
    exists|i: int, e: int|
        0 <= i < v.len() && 0 <= e < v.len() && #[trigger] edges_apart(i, e, v.len() as int)
            && edges_meet(v, i, e)
}

/// The edge that stands at place `k` in the list of edges with which edge `i` is compared: the list
/// goes once round the polygon and begins two edges behind `i`.
pub open spec fn compared_edge(i: int, k: int, n: int) -> int {
    let start = next_index(next_index(i, n), n);
    if start + k >= n {
        start + k - n
    } else {
        start + k
    }
}

/// Whether edge `i` meets the edge at place `k` in its list.
pub open spec fn hit_at(v: Seq<(i32, i32)>, i: int, k: int) -> bool {
    let e = compared_edge(i, k, v.len() as int);
    edges_apart(i, e, v.len() as int) && edges_meet(v, i, e)
}

/// Whether the edges can be compared in turn, up to the first two that meet: 64 bits hold the cross
/// products of each pair.
pub open spec fn comparable(v: Seq<(i32, i32)>) -> bool {
    forall|i: int, k: int|
        0 <= i < v.len() && 0 <= k < v.len() && no_hit_before(v, i, k) ==> #[trigger] pair_fits(
            v,
            i,
            k,
        )
}

/// Whether no pair that is compared before the pair `(i, k)` meets.
pub open spec fn no_hit_before(v: Seq<(i32, i32)>, i: int, k: int) -> bool {
    &&& forall|i2: int, k2: int|
        0 <= i2 < i && 0 <= k2 < v.len() ==> !#[trigger] hit_at(v, i2, k2)
    &&& forall|k2: int| 0 <= k2 < k ==> !#[trigger] hit_at(v, i, k2)
}

/// Whether the pair `(i, k)` is passed over or can be compared in 64 bits.
pub open spec fn pair_fits(v: Seq<(i32, i32)>, i: int, k: int) -> bool {
    let n = v.len() as int;
    let e = compared_edge(i, k, n);
    edges_apart(i, e, n) ==> segments_fit(v[i], v[next_index(i, n)], v[e], v[next_index(e, n)])
}

/// The warning about the vertex `p` that is followed by itself.
pub open spec fn duplicate_warning(p: (i32, i32)) -> Seq<char> {
    "Duplicate consecutive vertex at ("@ + decimal(p.0 as int) + ", "@ + decimal(p.1 as int) + ")"@
}

/// The warnings about the first `upto` vertices that are followed by themselves.
pub open spec fn duplicate_warnings(v: Seq<(i32, i32)>, upto: int) -> Seq<Seq<char>>
    decreases upto,
{
    if upto <= 0 {
        Seq::empty()
    } else if v[upto - 1] == v[next_index(upto - 1, v.len() as int)] {
        duplicate_warnings(v, upto - 1).push(duplicate_warning(v[upto - 1]))
    } else {
        duplicate_warnings(v, upto - 1)
    }
}

/// Whether the area is less than one square unit.
pub open spec fn near_zero_area(v: Seq<(i32, i32)>) -> bool {
    -2 < shoelace(v, v.len() as int) < 2
}

/// All warnings about a polygon, in order.
pub open spec fn polygon_warnings(v: Seq<(i32, i32)>) -> Seq<Seq<char>> {
    let area = if near_zero_area(v) {
        seq!["Polygon has near-zero area (may be degenerate)"@]
    } else {
        Seq::empty()
    };
    let crossing = if self_intersecting(v) {
        seq!["Polygon has self-intersecting edges"@]
    } else {
        Seq::empty()
    };
    duplicate_warnings(v, v.len() as int) + area + crossing
}

/// The product of two coordinates, with room for the difference of two such products.
proof fn lemma_product_bounds(x: i32, y: i32)
    ensures
        -0x3fff_ffff_8000_0000 <= x * y <= 0x4000_0000_0000_0000,
{
    assert(-0x3fff_ffff_8000_0000 <= x * y <= 0x4000_0000_0000_0000) by (nonlinear_arith)
        requires
            -0x8000_0000 <= x <= 0x7fff_ffff,
            -0x8000_0000 <= y <= 0x7fff_ffff,
    ;
}

/// Whether the edge from `b` to `a` cuts the ray that runs from the point to the right.
fn edge_cuts_ray(a: (i32, i32), b: (i32, i32), px: i32, py: i32) -> (found: bool)
    ensures
        found == cuts_ray(a, b, px, py),
{
    let (xi, yi) = a;
    let (xj, yj) = b;
    if (yi > py) == (yj > py) {
        return false;
    }
    let point = wide_product(px as i64 - xj as i64, yi as i64 - yj as i64);
    let edge = wide_product(py as i64 - yj as i64, xi as i64 - xj as i64);
    if yi > yj {
        point < edge
    } else {
        point > edge
    }
}

/// The turning direction of three points.
fn ccw(a: (i32, i32), b: (i32, i32), c: (i32, i32)) -> (turn: i32)
    requires
        cross_fits(a, b, c),
    ensures
        turn == sign(cross(a, b, c)),
{
    let (ax, ay) = a;
    let (bx, by) = b;
    let (cx, cy) = c;
    let turn = (cy as i64 - ay as i64) * (bx as i64 - ax as i64) - (by as i64 - ay as i64) * (
    cx as i64 - ax as i64);
    if turn < 0 {
        -1
    } else if turn == 0 {
        0
    } else {
        1
    }
}

/// The product of two differences of coordinates, which may need more than 64 bits.
fn wide_product(x: i64, y: i64) -> (product: i128)
    requires
        -0x1_0000_0000 <= x <= 0x1_0000_0000,
        -0x1_0000_0000 <= y <= 0x1_0000_0000,
    ensures
        product == x * y,
        -0x1_0000_0000_0000_0000 <= product <= 0x1_0000_0000_0000_0000,
{
    assert(-0x1_0000_0000_0000_0000 <= x * y <= 0x1_0000_0000_0000_0000) by (nonlinear_arith)
        requires
            -0x1_0000_0000 <= x <= 0x1_0000_0000,
            -0x1_0000_0000 <= y <= 0x1_0000_0000,
    ;
    (x as i128) * (y as i128)
}

/// Whether 64 bits hold `x`.
fn is_i64(x: i128) -> (fits: bool)
    ensures
        fits == fits_i64(x as int),
{
    i64::MIN as i128 <= x && x <= i64::MAX as i128
}

/// Whether the cross product of three points can be computed in 64 bits.
fn is_cross_fitting(a: (i32, i32), b: (i32, i32), c: (i32, i32)) -> (fits: bool)
    ensures
        fits == cross_fits(a, b, c),
{
    let left = wide_product(c.1 as i64 - a.1 as i64, b.0 as i64 - a.0 as i64);
    let right = wide_product(b.1 as i64 - a.1 as i64, c.0 as i64 - a.0 as i64);
    is_i64(left) && is_i64(right) && is_i64(left - right)
}

/// The index behind `i` in a cycle of `n`.
fn step(i: usize, n: usize) -> (next: usize)
    requires
        i < n,
    ensures
        next == next_index(i as int, n as int),
        next < n,
{
    if i + 1 == n {
        0
    } else {
        i + 1
    }
}

/// The edge at place `k` in the list of edges with which edge `i` is compared.
fn edge_to_compare(i: usize, k: usize, n: usize) -> (e: usize)
    requires
        i < n,
        k < n,
    ensures
        e == compared_edge(i as int, k as int, n as int),
        e < n,
{
    let start = step(step(i, n), n);
    if start >= n - k {
        start - (n - k)
    } else {
        start + k
    }
}

/// Every edge stands in the list of edges with which an edge is compared.
proof fn lemma_all_compared(i: int, e: int, n: int) -> (k: int)
    requires
        0 <= i < n,
        0 <= e < n,
    ensures
        0 <= k < n,
        compared_edge(i, k, n) == e,
{
    let start = next_index(next_index(i, n), n);
    if e >= start {
        e - start
    } else {
        e - start + n
    }
}

impl Polygon {
    /// A rectangle from the absolute coordinates of two opposite corners.
    pub fn rectangle(x1: i32, y1: i32, x2: i32, y2: i32) -> (polygon: Self)
        ensures
            polygon.vertices@ == seq![(x1, y1), (x2, y1), (x2, y2), (x1, y2)],
    {
        Polygon { vertices: vec![(x1, y1), (x2, y1), (x2, y2), (x1, y2)] }
    }

    /// Whether a point is inside the polygon, by casting a ray to the right.
    pub fn contains(&self, px: i32, py: i32) -> (found: bool)
        requires
            testable(self.vertices@),
        ensures
            found == inside(self.vertices@, px, py),
    {
        let ghost v = self.vertices@;
        let n = self.vertices.len();
        let mut found = false;
        let mut j = n - 1;
        for i in 0..n
            invariant
                v == self.vertices@,
                n == v.len(),
                i < n ==> j == prev_index(i as int, n as int),
                found == (ray_cuts(v, px, py, i as int) % 2 == 1),
        {
            if edge_cuts_ray(self.vertices[i], self.vertices[j], px, py) {
                found = !found;
            }
            j = i;
        }
        found
    }

    /// Whether `validate` can be computed in 64 bits.
    pub fn can_validate(&self) -> (yes: bool)
        ensures
            yes == (area_fits(self.vertices@) && comparable(self.vertices@)),
    {
        self.is_area_fitting() && self.is_comparable()
    }

    fn is_area_fitting(&self) -> (yes: bool)
        ensures
            yes == area_fits(self.vertices@),
    {
        let ghost v = self.vertices@;
        let n = self.vertices.len();
        let mut sum: i128 = 0;
        for i in 0..n
            invariant
                v == self.vertices@,
                n == v.len(),
                fits_i64(sum as int),
                sum == shoelace(v, i as int),
                forall|upto: int| 0 <= upto <= i ==> fits_i64(#[trigger] shoelace(v, upto)),
        {
            let (x1, y1) = self.vertices[i];
            let (x2, y2) = self.vertices[step(i, n)];
            sum = sum + wide_product(x1 as i64, y2 as i64) - wide_product(x2 as i64, y1 as i64);
            assert(sum == shoelace(v, i + 1));
            if !is_i64(sum) {
                return false;
            }
        }
        true
    }

    fn is_comparable(&self) -> (yes: bool)
        ensures
            yes == comparable(self.vertices@),
    {
        let ghost v = self.vertices@;
        let n = self.vertices.len();
        for i in 0..n
            invariant
                v == self.vertices@,
                n == v.len(),
                forall|i2: int, k2: int| 0 <= i2 < i && 0 <= k2 < n ==> !#[trigger] hit_at(v, i2, k2),
                forall|i2: int, k2: int|
                    0 <= i2 < i && 0 <= k2 < n ==> #[trigger] pair_fits(v, i2, k2),
        {
            let j = step(i, n);
            let (p1, p2) = (self.vertices[i], self.vertices[j]);
            for k in 0..n
                invariant
                    v == self.vertices@,
                    n == v.len(),
                    i < n,
                    j == next_index(i as int, n as int),
                    p1 == v[i as int],
                    p2 == v[j as int],
                    no_hit_before(v, i as int, k as int),
                    forall|i2: int, k2: int|
                        0 <= i2 < i && 0 <= k2 < n ==> #[trigger] pair_fits(v, i2, k2),
                    forall|k2: int| 0 <= k2 < k ==> #[trigger] pair_fits(v, i as int, k2),
            {
                let edge = edge_to_compare(i, k, n);
                let next = step(edge, n);
                let ghost hit = hit_at(v, i as int, k as int);
                if edge != i && edge != j && next != i && next != j {
                    assert(edges_apart(i as int, edge as int, n as int));
                    let (p3, p4) = (self.vertices[edge], self.vertices[next]);
                    if !(is_cross_fitting(p3, p4, p1) && is_cross_fitting(p3, p4, p2)
                        && is_cross_fitting(p1, p2, p3) && is_cross_fitting(p1, p2, p4)) {
                        assert(!pair_fits(v, i as int, k as int));
                        return false;
                    }
                    if Self::segments_intersect(p1, p2, p3, p4) {
                        assert(hit);
                        return true;
                    }
                }
            }
        }
        true
    }

    /// Warnings about suspicious configurations: vertices that are followed by themselves, an area
    /// below one square unit, edges that meet.
    pub fn validate(&self) -> (warnings: Vec<String>)
        requires
            area_fits(self.vertices@),
            comparable(self.vertices@),
        ensures
            texts(warnings@) == polygon_warnings(self.vertices@),
    {
        let ghost v = self.vertices@;
        let n = self.vertices.len();
        let mut warnings: Vec<String> = Vec::new();
        assert(texts(warnings@) =~= duplicate_warnings(v, 0));
        for i in 0..n
            invariant
                v == self.vertices@,
                n == v.len(),
                texts(warnings@) == duplicate_warnings(v, i as int),
        {
            let (x, y) = self.vertices[i];
            let (next_x, next_y) = self.vertices[step(i, n)];
            if x == next_x && y == next_y {
                let mut warning = "Duplicate consecutive vertex at (".to_string();
                append_i32(&mut warning, x);
                warning.append(", ");
                append_i32(&mut warning, y);
                warning.append(")");
                let ghost before = warnings@;
                warnings.push(warning);
                assert(texts(warnings@) =~= texts(before).push(duplicate_warning(v[i as int])));
            }
        }
        let ghost duplicates = texts(warnings@);
        let doubled_area = self.doubled_signed_area();
        if -2 < doubled_area && doubled_area < 2 {
            let ghost before = warnings@;
            warnings.push("Polygon has near-zero area (may be degenerate)".to_string());
            assert(texts(warnings@) =~= texts(before) + seq![
                "Polygon has near-zero area (may be degenerate)"@,
            ]);
        } else {
            assert(duplicates =~= duplicates + Seq::empty());
        }
        let ghost with_area = texts(warnings@);
        if self.is_self_intersecting() {
            let ghost before = warnings@;
            warnings.push("Polygon has self-intersecting edges".to_string());
            assert(texts(warnings@) =~= texts(before) + seq![
                "Polygon has self-intersecting edges"@,
            ]);
        } else {
            assert(with_area =~= with_area + Seq::empty());
        }
        warnings
    }

    /// Twice the signed area of the polygon, by the shoelace formula.
    pub fn doubled_signed_area(&self) -> (sum: i64)
        requires
            area_fits(self.vertices@),
        ensures
            sum == shoelace(self.vertices@, self.vertices@.len() as int),
    {
        let ghost v = self.vertices@;
        let n = self.vertices.len();
        let mut sum: i64 = 0;
        for i in 0..n
            invariant
                v == self.vertices@,
                n == v.len(),
                area_fits(v),
                sum == shoelace(v, i as int),
        {
            let (x1, y1) = self.vertices[i];
            let (x2, y2) = self.vertices[step(i, n)];
            proof {
                lemma_product_bounds(x1, y2);
                lemma_product_bounds(x2, y1);
                assert(fits_i64(shoelace(v, i + 1)));
            }
            sum += (x1 as i64) * (y2 as i64) - (x2 as i64) * (y1 as i64);
        }
        sum
    }

    /// Whether edges without a common vertex meet.
    pub fn is_self_intersecting(&self) -> (found: bool)
        requires
            comparable(self.vertices@),
        ensures
            found == self_intersecting(self.vertices@),
    {
        let ghost v = self.vertices@;
        let n = self.vertices.len();
        for i in 0..n
            invariant
                v == self.vertices@,
                n == v.len(),
                comparable(v),
                forall|i2: int, k2: int| 0 <= i2 < i && 0 <= k2 < n ==> !#[trigger] hit_at(v, i2, k2),
        {
            let j = step(i, n);
            let (p1, p2) = (self.vertices[i], self.vertices[j]);
            for k in 0..n
                invariant
                    v == self.vertices@,
                    n == v.len(),
                    comparable(v),
                    i < n,
                    j == next_index(i as int, n as int),
                    p1 == v[i as int],
                    p2 == v[j as int],
                    no_hit_before(v, i as int, k as int),
            {
                let edge = edge_to_compare(i, k, n);
                let next = step(edge, n);
                let ghost hit = hit_at(v, i as int, k as int);
                if edge != i && edge != j && next != i && next != j {
                    assert(edges_apart(i as int, edge as int, n as int));
                    assert(pair_fits(v, i as int, k as int));
                    let (p3, p4) = (self.vertices[edge], self.vertices[next]);
                    if Self::segments_intersect(p1, p2, p3, p4) {
                        return true;
                    }
                }
            }
        }
        proof {
            if self_intersecting(v) {
                let (i, e) = choose|i: int, e: int|
                    0 <= i < v.len() && 0 <= e < v.len() && #[trigger] edges_apart(
                        i,
                        e,
                        v.len() as int,
                    ) && edges_meet(v, i, e);
                let k = lemma_all_compared(i, e, n as int);
                assert(hit_at(v, i, k));
            }
        }
        false
    }

    /// Whether two segments, ends included, have a point in common.
    pub fn segments_intersect(
        p1: (i32, i32),
        p2: (i32, i32),
        p3: (i32, i32),
        p4: (i32, i32),
    ) -> (meet: bool)
        requires
            segments_fit(p1, p2, p3, p4),
        ensures
            meet == segments_meet(p1, p2, p3, p4),
    {
        proof {
            law_turns_decide_meeting(p1, p2, p3, p4);
        }
        let d1 = ccw(p3, p4, p1);
        let d2 = ccw(p3, p4, p2);
        let d3 = ccw(p1, p2, p3);
        let d4 = ccw(p1, p2, p4);
        if d1 != d2 && d3 != d4 {
            return true;
        }
        // Collinear cases: an end point on the other segment.
        if d1 == 0 && Self::on_segment(p3, p1, p4) {
            return true;
        }
        if d2 == 0 && Self::on_segment(p3, p2, p4) {
            return true;
        }
        if d3 == 0 && Self::on_segment(p1, p3, p2) {
            return true;
        }
        if d4 == 0 && Self::on_segment(p1, p4, p2) {
            return true;
        }
        false
    }

    /// Whether `q` lies in the rectangle with the opposite corners `p` and `r`. A point on the line
    /// through `p` and `r` then lies on the segment between them.
    pub fn on_segment(p: (i32, i32), q: (i32, i32), r: (i32, i32)) -> (found: bool)
        ensures
            found == in_box(p, q, r),
    {
        let (min_x, max_x) = if p.0 <= r.0 {
            (p.0, r.0)
        } else {
            (r.0, p.0)
        };
        let (min_y, max_y) = if p.1 <= r.1 {
            (p.1, r.1)
        } else {
            (r.1, p.1)
        };
        q.0 <= max_x && q.0 >= min_x && q.1 <= max_y && q.1 >= min_y
    }
}

/// Whether a point is inside any of the exclusion polygons.
pub fn is_in_any_polygon(x: i32, y: i32, polygons: &[Polygon]) -> (found: bool)
    requires
        testable_in_turn(polygons@, x, y),
    ensures
        found == inside_any(polygons@, x, y),
{
    for i in 0..polygons.len()
        invariant
            testable_in_turn(polygons@, x, y),
            forall|m: int| 0 <= m < i ==> !#[trigger] inside(polygons@[m].vertices@, x, y),
    {
        assert(testable(polygons@[i as int].vertices@));
        if polygons[i].contains(x, y) {
            return true;
        }
    }
    false
}

} // verus!
