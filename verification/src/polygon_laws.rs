//! What holds of all polygons.

use vstd::arithmetic::div_mod::{lemma_mod_self_0, lemma_small_mod};
use vstd::prelude::*;

use crate::geometry::{
    fits_i64, law_common_point_makes_meeting, law_meeting_has_common_point,
    law_meeting_is_symmetric, law_moderate_segments_fit, meet_at, segments_fit, segments_meet,
};
use crate::polygon::{
    area_fits, comparable, compared_edge, cuts_ray, duplicate_warnings, edges_apart, edges_meet, inside, inside_any, next_index,
    no_hit_before, pair_fits, polygon_warnings, prev_index, ray_cuts, self_intersecting, shoelace, straddles, testable,
    Polygon,
};
use crate::text::decimal;

verus! {

/// The vertices of the rectangle with two opposite corners.
pub open spec fn rectangle_vertices(x1: i32, y1: i32, x2: i32, y2: i32) -> Seq<(i32, i32)> {
    seq![(x1, y1), (x2, y1), (x2, y2), (x1, y2)]
}

/// Whether `m` lies between `a` and `b`, in either order, the smaller included and the larger not.
pub open spec fn half_open(a: int, m: int, b: int) -> bool {
    a <= m < b || b <= m < a
}

/// A rectangle holds exactly the points between its corners. Of each two borders that face each
/// other, the one with the smaller coordinate is included and the other is not.
pub proof fn law_rectangle_holds_its_points(x1: i32, y1: i32, x2: i32, y2: i32, px: i32, py: i32)
    ensures
        inside(rectangle_vertices(x1, y1, x2, y2), px, py) <==> half_open(
            x1 as int,
            px as int,
            x2 as int,
        ) && half_open(y1 as int, py as int, y2 as int),
{
    let v = rectangle_vertices(x1, y1, x2, y2);
    reveal_with_fuel(ray_cuts, 5);
    assert(v.len() == 4);
    lemma_upright_edge((x2, y2), (x2, y1), px, py);
    lemma_upright_edge((x1, y1), (x1, y2), px, py);
    assert(cuts_ray(v[0], v[3], px, py) == (((y1 > py) != (y2 > py)) && px < x1));
    assert(!cuts_ray(v[1], v[0], px, py));
    assert(cuts_ray(v[2], v[1], px, py) == (((y1 > py) != (y2 > py)) && px < x2));
    assert(!cuts_ray(v[3], v[2], px, py));
}

/// An upright edge cuts the rays that start to its left.
pub(crate) proof fn lemma_upright_edge(a: (i32, i32), b: (i32, i32), px: i32, py: i32)
    requires
        a.0 == b.0,
    ensures
        cuts_ray(a, b, px, py) == (straddles(a, b, py) && px < a.0),
{
    let (d, h) = (px - b.0, a.1 - b.1);
    assert((py - b.1) * (a.0 - b.0) == 0) by (nonlinear_arith)
        requires
            a.0 == b.0,
    ;
    if h > 0 {
        assert(d * h < 0 <==> d < 0) by (nonlinear_arith)
            requires
                h > 0,
        ;
    } else if h < 0 {
        assert(d * h > 0 <==> d < 0) by (nonlinear_arith)
            requires
                h < 0,
        ;
    }
}

/// An edge that cuts the height of a point cuts the ray from it if both ends of the edge lie to the
/// right, and does not if neither does.
pub(crate) proof fn lemma_edge_beside_point(a: (i32, i32), b: (i32, i32), px: i32, py: i32)
    requires
        straddles(a, b, py),
    ensures
        px < a.0 && px < b.0 ==> cuts_ray(a, b, px, py),
        a.0 <= px && b.0 <= px ==> !cuts_ray(a, b, px, py),
{
    let (d, h, k, w) = (px - b.0, a.1 - b.1, py - b.1, a.0 - b.0);
    if h > 0 {
        if d < 0 && d < w {
            assert(d * h < k * w) by (nonlinear_arith)
                requires
                    0 <= k < h,
                    d < 0,
                    d < w,
            ;
        }
        if d >= 0 && d >= w {
            assert(d * h >= k * w) by (nonlinear_arith)
                requires
                    0 <= k < h,
                    d >= 0,
                    d >= w,
            ;
        }
    } else {
        if d < 0 && d < w {
            assert(d * h > k * w) by (nonlinear_arith)
                requires
                    h <= k < 0,
                    d < 0,
                    d < w,
            ;
        }
        if d >= 0 && d >= w {
            assert(d * h <= k * w) by (nonlinear_arith)
                requires
                    h <= k < 0,
                    d >= 0,
                    d >= w,
            ;
        }
    }
}

/// It does not matter in which direction an edge is run through.
pub(crate) proof fn lemma_edge_direction(a: (i32, i32), b: (i32, i32), px: i32, py: i32)
    ensures
        cuts_ray(a, b, px, py) == cuts_ray(b, a, px, py),
{
    let (d, h, k, w) = (px - b.0, a.1 - b.1, py - b.1, a.0 - b.0);
    assert((d - w) * (-h) - (k - h) * (-w) == -(d * h - k * w)) by (nonlinear_arith);
}

/// Twice the signed area of a rectangle is twice the product of its signed sides.
pub proof fn law_rectangle_area(x1: i32, y1: i32, x2: i32, y2: i32)
    ensures
        shoelace(rectangle_vertices(x1, y1, x2, y2), 4) == 2 * ((x2 - x1) * (y2 - y1)),
{
    let v = rectangle_vertices(x1, y1, x2, y2);
    reveal_with_fuel(shoelace, 5);
    assert(shoelace(v, 4) == (x1 * y1 - x2 * y1) + (x2 * y2 - x2 * y1) + (x2 * y2 - x1 * y2) + (x1
        * y1 - x1 * y2));
    assert((x1 * y1 - x2 * y1) + (x2 * y2 - x2 * y1) + (x2 * y2 - x1 * y2) + (x1 * y1 - x1 * y2)
        == 2 * ((x2 - x1) * (y2 - y1))) by (nonlinear_arith);
}

/// A rectangle with sides of some length gives no warning.
pub proof fn law_proper_rectangle_is_clean(x1: i32, y1: i32, x2: i32, y2: i32)
    requires
        x1 != x2,
        y1 != y2,
    ensures
        polygon_warnings(rectangle_vertices(x1, y1, x2, y2)) == Seq::<Seq<char>>::empty(),
{
    let v = rectangle_vertices(x1, y1, x2, y2);
    reveal_with_fuel(duplicate_warnings, 5);
    assert(duplicate_warnings(v, 4) =~= Seq::empty());
    law_rectangle_area(x1, y1, x2, y2);
    let (w, h) = (x2 - x1, y2 - y1);
    assert(w * h >= 1 || w * h <= -1) by (nonlinear_arith)
        requires
            w != 0,
            h != 0,
    ;
    assert(!self_intersecting(v)) by {
        if self_intersecting(v) {
            let (i, e) = choose|i: int, e: int|
                0 <= i < v.len() && 0 <= e < v.len() && #[trigger] edges_apart(
                    i,
                    e,
                    v.len() as int,
                ) && edges_meet(v, i, e);
            let (p1, p2) = (v[i], v[next_index(i, 4)]);
            let (p3, p4) = (v[e], v[next_index(e, 4)]);
            assert((i == 0 && e == 2) || (i == 2 && e == 0) || (i == 1 && e == 3) || (i == 3 && e
                == 1));
            lemma_parallel_edges_apart(p1, p2, p3, p4);
        }
    }
    assert(polygon_warnings(v) =~= Seq::empty());
}

/// Two level edges at different heights, or two upright edges at different abscissas, do not meet.
proof fn lemma_parallel_edges_apart(
    p1: (i32, i32),
    p2: (i32, i32),
    p3: (i32, i32),
    p4: (i32, i32),
)
    requires
        (p1.1 == p2.1 && p3.1 == p4.1 && p1.1 != p3.1) || (p1.0 == p2.0 && p3.0 == p4.0 && p1.0
            != p3.0),
    ensures
        !segments_meet(p1, p2, p3, p4),
{
    if segments_meet(p1, p2, p3, p4) {
        let (den, s, t) = choose|den: int, s: int, t: int|
            0 < den && 0 <= s <= den && 0 <= t <= den && #[trigger] meet_at(
                p1,
                p2,
                p3,
                p4,
                den,
                s,
                t,
            );
        let (a, b) = if p1.1 == p2.1 && p3.1 == p4.1 && p1.1 != p3.1 {
            (p1.1 as int, p3.1 as int)
        } else {
            (p1.0 as int, p3.0 as int)
        };
        assert(s * 0 == 0 && t * 0 == 0);
        assert(a * den == b * den);
        assert(a == b) by (nonlinear_arith)
            requires
                a * den == b * den,
                0 < den,
        ;
    }
}

/// A polygon with at most three vertices has no edges apart from each other, and so none that meet.
pub proof fn law_triangle_never_self_intersects(v: Seq<(i32, i32)>)
    requires
        v.len() <= 3,
    ensures
        !self_intersecting(v),
{
}

/// How many of the edges that end at the first `upto` vertices cut the height `py`.
spec fn height_cuts(v: Seq<(i32, i32)>, py: i32, upto: int) -> nat
    decreases upto,
{
    if upto <= 0 {
        0
    } else {
        height_cuts(v, py, upto - 1) + if straddles(
            v[upto - 1],
            v[prev_index(upto - 1, v.len() as int)],
            py,
        ) {
            1nat
        } else {
            0nat
        }
    }
}

/// Up to a vertex, the height has been cut an odd number of times exactly if it lies between that
/// vertex and the last one.
proof fn lemma_height_cuts_parity(v: Seq<(i32, i32)>, py: i32, upto: int)
    requires
        0 < upto <= v.len(),
    ensures
        (height_cuts(v, py, upto) % 2 == 1) == straddles(v[upto - 1], v[v.len() - 1], py),
    decreases upto,
{
    if upto > 1 {
        lemma_height_cuts_parity(v, py, upto - 1);
    } else {
        assert(height_cuts(v, py, 0) == 0);
    }
}

/// Left of all vertices the ray is cut by every edge that cuts its height.
proof fn lemma_cuts_from_far_left(v: Seq<(i32, i32)>, px: i32, py: i32, upto: int)
    requires
        0 <= upto <= v.len(),
        forall|i: int| 0 <= i < v.len() ==> px < (#[trigger] v[i]).0,
    ensures
        ray_cuts(v, px, py, upto) == height_cuts(v, py, upto),
    decreases upto,
{
    if upto > 0 {
        lemma_cuts_from_far_left(v, px, py, upto - 1);
        let (a, b) = (v[upto - 1], v[prev_index(upto - 1, v.len() as int)]);
        if straddles(a, b, py) {
            lemma_edge_beside_point(a, b, px, py);
        }
    }
}

/// Where the ray has been cut, some edge has cut it.
proof fn lemma_cut_has_edge(v: Seq<(i32, i32)>, px: i32, py: i32, upto: int) -> (i: int)
    requires
        0 <= upto <= v.len(),
        ray_cuts(v, px, py, upto) > 0,
    ensures
        0 <= i < upto,
        cuts_ray(v[i], v[prev_index(i, v.len() as int)], px, py),
    decreases upto,
{
    if cuts_ray(v[upto - 1], v[prev_index(upto - 1, v.len() as int)], px, py) {
        upto - 1
    } else {
        lemma_cut_has_edge(v, px, py, upto - 1)
    }
}

/// A polygon holds no point beyond its vertices: in each direction, some vertex has a coordinate
/// that is greater than that of a point inside, and some vertex has one that is not.
pub proof fn law_inside_within_bounds(v: Seq<(i32, i32)>, px: i32, py: i32)
    requires
        inside(v, px, py),
    ensures
        exists|i: int| 0 <= i < v.len() && px < (#[trigger] v[i]).0,
        exists|i: int| 0 <= i < v.len() && (#[trigger] v[i]).0 <= px,
        exists|i: int| 0 <= i < v.len() && py < (#[trigger] v[i]).1,
        exists|i: int| 0 <= i < v.len() && (#[trigger] v[i]).1 <= py,
{
    let n = v.len() as int;
    let i = lemma_cut_has_edge(v, px, py, n);
    let j = prev_index(i, n);
    lemma_edge_beside_point(v[i], v[j], px, py);
    assert(0 <= j < n);
    assert(px < v[i].0 || px < v[j].0);
    assert(py < v[i].1 || py < v[j].1);
    assert(v[i].1 <= py || v[j].1 <= py);
    if forall|k: int| 0 <= k < v.len() ==> px < (#[trigger] v[k]).0 {
        lemma_cuts_from_far_left(v, px, py, n);
        lemma_height_cuts_parity(v, py, n);
        assert(false);
    }
}

/// Whether `w` is `v` moved by `(dx, dy)`.
pub open spec fn moved(v: Seq<(i32, i32)>, w: Seq<(i32, i32)>, dx: int, dy: int) -> bool {
    &&& v.len() == w.len()
    &&& forall|i: int|
        #![trigger v[i]]
        #![trigger w[i]]
        0 <= i < v.len() ==> w[i].0 == v[i].0 + dx && w[i].1 == v[i].1 + dy
}

/// A polygon that is moved holds the points that are moved with it.
pub proof fn law_moved_polygon(
    v: Seq<(i32, i32)>,
    w: Seq<(i32, i32)>,
    dx: int,
    dy: int,
    px: i32,
    py: i32,
    qx: i32,
    qy: i32,
)
    requires
        moved(v, w, dx, dy),
        qx == px + dx,
        qy == py + dy,
    ensures
        inside(v, px, py) == inside(w, qx, qy),
{
    lemma_moved_cuts(v, w, dx, dy, px, py, qx, qy, v.len() as int);
}

proof fn lemma_moved_cuts(
    v: Seq<(i32, i32)>,
    w: Seq<(i32, i32)>,
    dx: int,
    dy: int,
    px: i32,
    py: i32,
    qx: i32,
    qy: i32,
    upto: int,
)
    requires
        moved(v, w, dx, dy),
        qx == px + dx,
        qy == py + dy,
        0 <= upto <= v.len(),
    ensures
        ray_cuts(v, px, py, upto) == ray_cuts(w, qx, qy, upto),
    decreases upto,
{
    if upto > 0 {
        lemma_moved_cuts(v, w, dx, dy, px, py, qx, qy, upto - 1);
        let (i, j) = (upto - 1, prev_index(upto - 1, v.len() as int));
        let (a, b) = (v[i], v[j]);
        let (c, d) = (w[i], w[j]);
        assert(qx - d.0 == px - b.0 && qy - d.1 == py - b.1);
        assert(c.0 - d.0 == a.0 - b.0 && c.1 - d.1 == a.1 - b.1);
    }
}

/// It does not matter with which vertex the list of vertices begins.
pub proof fn law_first_vertex_is_arbitrary(v: Seq<(i32, i32)>, px: i32, py: i32)
    requires
        v.len() > 0,
    ensures
        inside(v.skip(1).push(v[0]), px, py) == inside(v, px, py),
{
    let n = v.len() as int;
    let w = v.skip(1).push(v[0]);
    lemma_rotated_cuts(v, px, py, n - 1);
    assert(w[n - 1] == v[0]);
    if n > 1 {
        assert(w[n - 2] == v[n - 1]);
    }
    reveal_with_fuel(ray_cuts, 2);
}

proof fn lemma_rotated_cuts(v: Seq<(i32, i32)>, px: i32, py: i32, upto: int)
    requires
        v.len() > 0,
        0 <= upto < v.len(),
    ensures
        ray_cuts(v.skip(1).push(v[0]), px, py, upto) + ray_cuts(v, px, py, 1) == ray_cuts(
            v,
            px,
            py,
            upto + 1,
        ),
    decreases upto,
{
    let n = v.len() as int;
    let w = v.skip(1).push(v[0]);
    if upto > 0 {
        lemma_rotated_cuts(v, px, py, upto - 1);
        assert(w[upto - 1] == v[upto]);
        assert(w[prev_index(upto - 1, n)] == v[upto - 1]);
    }
}

/// It does not matter in which direction the vertices are listed.
pub proof fn law_direction_is_arbitrary(v: Seq<(i32, i32)>, px: i32, py: i32)
    ensures
        inside(v.reverse(), px, py) == inside(v, px, py),
{
    let n = v.len() as int;
    if n > 0 {
        lemma_reversed_cuts(v, px, py, n);
    }
}

/// The first `upto` edges of the reversed list are the first edge and the last ones of the list.
proof fn lemma_reversed_cuts(v: Seq<(i32, i32)>, px: i32, py: i32, upto: int)
    requires
        0 < upto <= v.len(),
    ensures
        ray_cuts(v.reverse(), px, py, upto) + ray_cuts(v, px, py, v.len() - upto + 1) == ray_cuts(
            v,
            px,
            py,
            1,
        ) + ray_cuts(v, px, py, v.len() as int),
    decreases upto,
{
    let n = v.len() as int;
    let w = v.reverse();
    lemma_edge_direction(w[upto - 1], w[prev_index(upto - 1, n)], px, py);
    if upto == 1 {
        assert(w[0] == v[n - 1] && w[n - 1] == v[0]);
        assert(ray_cuts(w, px, py, 0) == 0 && ray_cuts(v, px, py, 0) == 0);
    } else {
        lemma_reversed_cuts(v, px, py, upto - 1);
        assert(w[upto - 1] == v[n - upto] && w[upto - 2] == v[n - upto + 1]);
    }
}

/// A vertex that is listed twice in a row changes nothing about the points that are held.
pub proof fn law_repeated_vertex_holds_the_same(v: Seq<(i32, i32)>, k: int, px: i32, py: i32)
    requires
        0 <= k < v.len(),
    ensures
        inside(v.insert(k, v[k]), px, py) == inside(v, px, py),
{
    lemma_repeated_cuts(v, k, px, py, v.len() as int);
}

proof fn lemma_repeated_cuts(v: Seq<(i32, i32)>, k: int, px: i32, py: i32, upto: int)
    requires
        0 <= k < v.len(),
        0 <= upto <= v.len(),
    ensures
        upto <= k ==> ray_cuts(v.insert(k, v[k]), px, py, upto) == ray_cuts(v, px, py, upto),
        upto > k ==> ray_cuts(v.insert(k, v[k]), px, py, upto + 1) == ray_cuts(v, px, py, upto),
    decreases upto,
{
    let n = v.len() as int;
    let w = v.insert(k, v[k]);
    if upto > 0 {
        lemma_repeated_cuts(v, k, px, py, upto - 1);
        let i = upto - 1;
        assert(w[n] == v[n - 1]);
        if upto <= k {
            assert(w[i] == v[i]);
            assert(w[prev_index(i, n + 1)] == v[prev_index(i, n)]);
        } else if i == k {
            // The first of the two ends the same edge as before, the second an edge without length.
            assert(w[k] == v[k] && w[k + 1] == v[k]);
            assert(w[prev_index(k, n + 1)] == v[prev_index(k, n)]);
            assert(!cuts_ray(w[k + 1], w[k], px, py));
            assert(ray_cuts(w, px, py, k + 1) == ray_cuts(v, px, py, k + 1));
        } else {
            assert(w[i + 1] == v[i] && w[i] == v[i - 1]);
        }
    }
}

/// Whether the vertices are listed from another first vertex or in the other direction does not
/// change whether edges meet.
pub proof fn law_listing_keeps_self_intersection(v: Seq<(i32, i32)>)
    requires
        v.len() > 0,
    ensures
        self_intersecting(v.skip(1).push(v[0])) == self_intersecting(v),
        self_intersecting(v.reverse()) == self_intersecting(v),
{
    let n = v.len() as int;
    let w = v.skip(1).push(v[0]);
    if self_intersecting(w) {
        let (i, e) = lemma_meeting_edges(w);
        lemma_rotated_edge(v, i);
        lemma_rotated_edge(v, e);
        let (j, f) = (next_index(i, n), next_index(e, n));
        assert(edges_apart(j, f, n) && edges_meet(v, j, f));
    }
    if self_intersecting(v) {
        let (j, f) = lemma_meeting_edges(v);
        let (i, e) = (prev_index(j, n), prev_index(f, n));
        lemma_rotated_edge(v, i);
        lemma_rotated_edge(v, e);
        assert(edges_apart(i, e, n) && edges_meet(w, i, e));
        lemma_reversed_self_intersection(v);
    }
    if self_intersecting(v.reverse()) {
        lemma_reversed_self_intersection(v.reverse());
        assert(v.reverse().reverse() =~= v);
    }
}

/// Two edges that are apart and meet.
proof fn lemma_meeting_edges(v: Seq<(i32, i32)>) -> (pair: (int, int))
    requires
        self_intersecting(v),
    ensures
        0 <= pair.0 < v.len(),
        0 <= pair.1 < v.len(),
        edges_apart(pair.0, pair.1, v.len() as int),
        edges_meet(v, pair.0, pair.1),
{
    choose|i: int, e: int|
        0 <= i < v.len() && 0 <= e < v.len() && #[trigger] edges_apart(i, e, v.len() as int)
            && edges_meet(v, i, e)
}

/// An edge of the list that begins with the second vertex.
proof fn lemma_rotated_edge(v: Seq<(i32, i32)>, i: int)
    requires
        0 <= i < v.len(),
    ensures
        ({
            let n = v.len() as int;
            let w = v.skip(1).push(v[0]);
            &&& w.len() == n
            &&& w[i] == v[next_index(i, n)]
            &&& w[next_index(i, n)] == v[next_index(next_index(i, n), n)]
        }),
{
}

proof fn lemma_reversed_self_intersection(v: Seq<(i32, i32)>)
    requires
        self_intersecting(v),
    ensures
        self_intersecting(v.reverse()),
{
    let n = v.len() as int;
    let w = v.reverse();
    let (i, e) = lemma_meeting_edges(v);
    // The edge from `i` to the next vertex runs from that vertex to `i` in the reversed list.
    let (i2, e2) = (next_index(i, n), next_index(e, n));
    let (j, f) = (n - 1 - i2, n - 1 - e2);
    assert(w[j] == v[i2] && w[next_index(j, n)] == v[i]);
    assert(w[f] == v[e2] && w[next_index(f, n)] == v[e]);
    law_meeting_is_symmetric(v[i], v[i2], v[e], v[e2]);
    law_meeting_is_symmetric(v[e], v[e2], v[i2], v[i]);
    law_meeting_is_symmetric(v[i2], v[i], v[e], v[e2]);
    law_meeting_is_symmetric(v[e2], v[e], v[i2], v[i]);
    assert(edges_apart(j, f, n) && edges_meet(w, j, f));
}

/// Two lists of polygons together hold what either holds.
pub proof fn law_zones_add_up(first: Seq<Polygon>, second: Seq<Polygon>, x: i32, y: i32)
    ensures
        inside_any(first + second, x, y) == (inside_any(first, x, y) || inside_any(second, x, y)),
{
    let all = first + second;
    if inside_any(first, x, y) {
        let k = choose|k: int|
            0 <= k < first.len() && #[trigger] inside(first[k].vertices@, x, y);
        assert(all[k] == first[k]);
        assert(inside(all[k].vertices@, x, y));
    }
    if inside_any(second, x, y) {
        let k = choose|k: int|
            0 <= k < second.len() && #[trigger] inside(second[k].vertices@, x, y);
        assert(all[first.len() + k] == second[k]);
        assert(inside(all[first.len() + k].vertices@, x, y));
    }
    if inside_any(all, x, y) {
        let k = choose|k: int| 0 <= k < all.len() && #[trigger] inside(all[k].vertices@, x, y);
        if k < first.len() {
            assert(inside(first[k].vertices@, x, y));
        } else {
            assert(inside(second[k - first.len()].vertices@, x, y));
        }
    }
}

/// Without polygons no point is held.
pub proof fn law_no_zones_hold_nothing(x: i32, y: i32)
    ensures
        !inside_any(Seq::<Polygon>::empty(), x, y),
{
}

/// The vertex behind `i` in a cycle of `n` has the number `i + 1`, counted round.
proof fn lemma_next_is_round(i: int, n: int)
    requires
        0 <= i < n,
    ensures
        next_index(i, n) == (i + 1) % n,
{
    if i + 1 < n {
        lemma_small_mod((i + 1) as nat, n as nat);
    } else {
        lemma_mod_self_0(n);
    }
}

/// Any two edges count: if two edges that have no vertex in common, by their numbers, have a point
/// in common, the polygon intersects itself, wherever the edges stand in the list.
pub proof fn law_every_pair_of_edges_counts(
    v: Seq<(i32, i32)>,
    i: int,
    e: int,
    den: int,
    s: int,
    t: int,
)
    requires
        0 <= i < v.len(),
        0 <= e < v.len(),
        i != e,
        i != (e + 1) % v.len() as int,
        e != (i + 1) % v.len() as int,
        0 < den,
        0 <= s <= den,
        0 <= t <= den,
        ({
            let (p1, p2) = (v[i], v[(i + 1) % v.len() as int]);
            let (p3, p4) = (v[e], v[(e + 1) % v.len() as int]);
            &&& p1.0 * den + s * (p2.0 - p1.0) == p3.0 * den + t * (p4.0 - p3.0)
            &&& p1.1 * den + s * (p2.1 - p1.1) == p3.1 * den + t * (p4.1 - p3.1)
        }),
    ensures
        self_intersecting(v),
{
    let n = v.len() as int;
    lemma_next_is_round(i, n);
    lemma_next_is_round(e, n);
    law_common_point_makes_meeting(
        v[i],
        v[next_index(i, n)],
        v[e],
        v[next_index(e, n)],
        den,
        s,
        t,
    );
    assert(edges_apart(i, e, n) && edges_meet(v, i, e));
}

/// A polygon that intersects itself has two edges, with the numbers `r.0` and `r.1`, that have no
/// vertex in common and do have a point in common.
pub proof fn law_self_intersection_has_edges(v: Seq<(i32, i32)>) -> (r: (int, int, int, int, int))
    requires
        self_intersecting(v),
    ensures
        0 <= r.0 < v.len(),
        0 <= r.1 < v.len(),
        r.0 != r.1,
        r.0 != (r.1 + 1) % v.len() as int,
        r.1 != (r.0 + 1) % v.len() as int,
        0 < r.2,
        0 <= r.3 <= r.2,
        0 <= r.4 <= r.2,
        ({
            let (p1, p2) = (v[r.0], v[(r.0 + 1) % v.len() as int]);
            let (p3, p4) = (v[r.1], v[(r.1 + 1) % v.len() as int]);
            &&& p1.0 * r.2 + r.3 * (p2.0 - p1.0) == p3.0 * r.2 + r.4 * (p4.0 - p3.0)
            &&& p1.1 * r.2 + r.3 * (p2.1 - p1.1) == p3.1 * r.2 + r.4 * (p4.1 - p3.1)
        }),
{
    let n = v.len() as int;
    let (i, e) = lemma_meeting_edges(v);
    lemma_next_is_round(i, n);
    lemma_next_is_round(e, n);
    let f = law_meeting_has_common_point(v[i], v[next_index(i, n)], v[e], v[next_index(e, n)]);
    (i, e, f.0, f.1, f.2)
}

/// The warnings are: one for each vertex that is followed by itself, counted round, in the order of
/// the vertices; then one if the doubled area lies between -2 and 2, both left out; then one if the
/// polygon intersects itself.
pub proof fn law_warnings_say_what_is_wrong(v: Seq<(i32, i32)>)
    ensures
        ({
            let repeated = Seq::new(v.len(), |i: int| i).filter(
                |i: int| v[i] == v[(i + 1) % v.len() as int],
            );
            let area = shoelace(v, v.len() as int);
            polygon_warnings(v) == repeated.map_values(
                |i: int|
                    "Duplicate consecutive vertex at ("@ + decimal(v[i].0 as int) + ", "@ + decimal(
                        v[i].1 as int,
                    ) + ")"@,
            ) + (if -2 < area && area < 2 {
                seq!["Polygon has near-zero area (may be degenerate)"@]
            } else {
                Seq::<Seq<char>>::empty()
            }) + (if self_intersecting(v) {
                seq!["Polygon has self-intersecting edges"@]
            } else {
                Seq::<Seq<char>>::empty()
            })
        }),
{
    lemma_repeated_vertices(v, v.len() as int);
}

proof fn lemma_repeated_vertices(v: Seq<(i32, i32)>, upto: int)
    requires
        0 <= upto <= v.len(),
    ensures
        duplicate_warnings(v, upto) == Seq::new(upto as nat, |i: int| i).filter(
            |i: int| v[i] == v[(i + 1) % v.len() as int],
        ).map_values(
            |i: int|
                "Duplicate consecutive vertex at ("@ + decimal(v[i].0 as int) + ", "@ + decimal(
                    v[i].1 as int,
                ) + ")"@,
        ),
    decreases upto,
{
    reveal(Seq::filter);
    let all = Seq::new(upto as nat, |i: int| i);
    let same = |i: int| v[i] == v[(i + 1) % v.len() as int];
    let text = |i: int|
        "Duplicate consecutive vertex at ("@ + decimal(v[i].0 as int) + ", "@ + decimal(
            v[i].1 as int,
        ) + ")"@;
    if upto == 0 {
        assert(all.filter(same).map_values(text) =~= Seq::empty());
    } else {
        lemma_repeated_vertices(v, upto - 1);
        lemma_next_is_round(upto - 1, v.len() as int);
        assert(all.drop_last() =~= Seq::new((upto - 1) as nat, |i: int| i));
        let before = all.drop_last().filter(same);
        if same(upto - 1) {
            assert(before.push(upto - 1).map_values(text) =~= before.map_values(text).push(
                text(upto - 1),
            ));
        }
    }
}

/// Polygons of the size of a touchpad can be validated: up to 4096 vertices with coordinates up to 2
/// to the power of 24.
pub proof fn law_touchpad_polygon_can_be_validated(v: Seq<(i32, i32)>)
    requires
        v.len() <= 0x1000,
        forall|i: int|
            0 <= i < v.len() ==> -0x100_0000 <= (#[trigger] v[i]).0 <= 0x100_0000 && -0x100_0000
                <= v[i].1 <= 0x100_0000,
    ensures
        area_fits(v),
        comparable(v),
{
    let n = v.len() as int;
    assert forall|upto: int| 0 <= upto <= v.len() implies fits_i64(#[trigger] shoelace(v, upto)) by {
        lemma_moderate_area(v, upto);
    }
    assert forall|i: int, k: int|
        0 <= i < n && 0 <= k < n && no_hit_before(v, i, k) implies #[trigger] pair_fits(
        v,
        i,
        k,
    ) by {
        let e = compared_edge(i, k, n);
        assert(0 <= e < n);
        let (p1, p2, p3, p4) = (v[i], v[next_index(i, n)], v[e], v[next_index(e, n)]);
        law_moderate_segments_fit(p1, p2, p3, p4);
    }
}

proof fn lemma_moderate_area(v: Seq<(i32, i32)>, upto: int)
    requires
        v.len() <= 0x1000,
        0 <= upto <= v.len(),
        forall|i: int|
            0 <= i < v.len() ==> -0x100_0000 <= (#[trigger] v[i]).0 <= 0x100_0000 && -0x100_0000
                <= v[i].1 <= 0x100_0000,
    ensures
        -0x2_0000_0000_0000 * upto <= shoelace(v, upto) <= 0x2_0000_0000_0000 * upto,
    decreases upto,
{
    if upto > 0 {
        lemma_moderate_area(v, upto - 1);
        let (a, b) = (v[upto - 1], v[next_index(upto - 1, v.len() as int)]);
        let (ax, ay, bx, by) = (a.0 as int, a.1 as int, b.0 as int, b.1 as int);
        assert(-0x1_0000_0000_0000 <= ax * by <= 0x1_0000_0000_0000) by (nonlinear_arith)
            requires
                -0x100_0000 <= ax <= 0x100_0000,
                -0x100_0000 <= by <= 0x100_0000,
        ;
        assert(-0x1_0000_0000_0000 <= bx * ay <= 0x1_0000_0000_0000) by (nonlinear_arith)
            requires
                -0x100_0000 <= bx <= 0x100_0000,
                -0x100_0000 <= ay <= 0x100_0000,
        ;
    }
}

/// A point can be tested against every polygon with a vertex, wherever the vertices are.
pub proof fn law_one_vertex_is_enough(v: Seq<(i32, i32)>)
    ensures
        testable(v) <==> v.len() >= 1,
{
}

/// The area can be computed exactly if 64 bits hold the doubled area swept by the first edges, however
/// many.
pub proof fn law_when_the_area_can_be_computed(v: Seq<(i32, i32)>)
    ensures
        area_fits(v) <==> forall|upto: int|
            0 <= upto <= v.len() ==> -0x8000_0000_0000_0000 <= #[trigger] shoelace(v, upto)
                <= 0x7fff_ffff_ffff_ffff,
{
}

/// Edges can be compared wherever 64 bits are enough for any two of them.
pub proof fn law_when_edges_can_be_compared(v: Seq<(i32, i32)>)
    requires
        forall|i: int, e: int|
            0 <= i < v.len() && 0 <= e < v.len() ==> #[trigger] segments_fit(
                v[i],
                v[next_index(i, v.len() as int)],
                v[e],
                v[next_index(e, v.len() as int)],
            ),
    ensures
        comparable(v),
{
    let n = v.len() as int;
    assert forall|i: int, k: int|
        0 <= i < n && 0 <= k < n && no_hit_before(v, i, k) implies #[trigger] pair_fits(
        v,
        i,
        k,
    ) by {
        let e = compared_edge(i, k, n);
        assert(0 <= e < n);
        assert(segments_fit(v[i], v[next_index(i, n)], v[e], v[next_index(e, n)]));
    }
}

} // verus!
