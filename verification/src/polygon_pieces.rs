//! Polygons taken apart into triangles.

use vstd::prelude::*;

use crate::polygon::{cuts_ray, inside, inside_any, ray_cuts, shoelace, Polygon};
use crate::polygon_laws::lemma_edge_direction;

verus! {

/// Whether the point lies to the left of the line from `a` to `b`. A point on the line counts as
/// moved to the right by a trifle, and up by a trifle of that.
pub open spec fn left_of(a: (i32, i32), b: (i32, i32), px: i32, py: i32) -> bool {
    let turn = (py - a.1) * (b.0 - a.0) - (b.1 - a.1) * (px - a.0);
    turn > 0 || (turn == 0 && (b.1 < a.1 || (b.1 == a.1 && b.0 > a.0)))
}

/// Twice the signed area of a triangle.
pub open spec fn doubled_triangle(a: (i32, i32), b: (i32, i32), c: (i32, i32)) -> int {
    (b.0 - a.0) * (c.1 - a.1) - (c.0 - a.0) * (b.1 - a.1)
}

/// As `left_of`, with the point at the origin.
spec fn left_of_origin(ax: int, ay: int, bx: int, by: int) -> bool {
    let turn = ax * by - ay * bx;
    turn > 0 || (turn == 0 && (by < ay || (by == ay && bx > ax)))
}

/// The turns around the origin, weighted with the heights of the opposite corners, cancel out.
proof fn lemma_weights(ax: int, ay: int, bx: int, by: int, cx: int, cy: int)
    ensures
        (bx * cy - by * cx) * ay + (cx * ay - cy * ax) * by + (ax * by - ay * bx) * cy == 0,
{
    assert((bx * cy - by * cx) * ay + (cx * ay - cy * ax) * by + (ax * by - ay * bx) * cy == 0)
        by (nonlinear_arith);
}

/// Twice the area of a triangle is the sum of the turns around the origin.
proof fn lemma_turns_add_up(ax: int, ay: int, bx: int, by: int, cx: int, cy: int)
    ensures
        (bx - ax) * (cy - ay) - (cx - ax) * (by - ay) == (bx * cy - by * cx) + (cx * ay - cy * ax)
            + (ax * by - ay * bx),
{
    assert((bx - ax) * (cy - ay) == bx * cy - bx * ay - ax * cy + ax * ay) by (nonlinear_arith);
    assert((cx - ax) * (by - ay) == cx * by - cx * ay - ax * by + ax * ay) by (nonlinear_arith);
    assert(bx * ay == ay * bx && ax * cy == cy * ax && cx * by == by * cx) by (nonlinear_arith);
}

/// The sign of a product of which the second factor is not zero.
proof fn lemma_product_sign(x: int, y: int)
    ensures
        x > 0 && y > 0 ==> x * y > 0,
        x > 0 && y < 0 ==> x * y < 0,
        x < 0 && y > 0 ==> x * y < 0,
        x < 0 && y < 0 ==> x * y > 0,
        x == 0 || y == 0 ==> x * y == 0,
{
    if x > 0 && y > 0 {
        assert(x * y > 0) by (nonlinear_arith)
            requires
                x > 0,
                y > 0,
        ;
    } else if x > 0 && y < 0 {
        assert(x * y < 0) by (nonlinear_arith)
            requires
                x > 0,
                y < 0,
        ;
    } else if x < 0 && y > 0 {
        assert(x * y < 0) by (nonlinear_arith)
            requires
                x < 0,
                y > 0,
        ;
    } else if x < 0 && y < 0 {
        assert(x * y > 0) by (nonlinear_arith)
            requires
                x < 0,
                y < 0,
        ;
    } else {
        assert(x * y == 0) by (nonlinear_arith)
            requires
                x == 0 || y == 0,
        ;
    }
}

/// A triangle without a corner above the origin does not have it on the left of all sides.
proof fn lemma_all_below(ax: int, ay: int, bx: int, by: int, cx: int, cy: int)
    requires
        ay <= 0,
        by <= 0,
        cy <= 0,
        bx * cy - by * cx > 0,
    ensures
        !(left_of_origin(ax, ay, bx, by) && left_of_origin(bx, by, cx, cy) && left_of_origin(
            cx,
            cy,
            ax,
            ay,
        )),
{
    if left_of_origin(ax, ay, bx, by) && left_of_origin(bx, by, cx, cy) && left_of_origin(
        cx,
        cy,
        ax,
        ay,
    ) {
        let (a, b, c) = (bx * cy - by * cx, cx * ay - cy * ax, ax * by - ay * bx);
        lemma_weights(ax, ay, bx, by, cx, cy);
        lemma_product_sign(a, ay);
        lemma_product_sign(b, by);
        lemma_product_sign(c, cy);
        assert(ay == 0);
        lemma_product_sign(cx, ay);
        lemma_product_sign(ay, bx);
        lemma_product_sign(cy, ax);
        lemma_product_sign(ax, by);
        lemma_product_sign(bx, cy);
        lemma_product_sign(by, cx);
        assert(false);
    }
}

/// What holds of a triangle with a corner `a` above the origin and the others not above it.
proof fn lemma_one_above(ax: int, ay: int, bx: int, by: int, cx: int, cy: int)
    requires
        ay > 0,
        by <= 0,
        cy <= 0,
        (bx * cy - by * cx) + (cx * ay - cy * ax) + (ax * by - ay * bx) > 0,
    ensures
        left_of_origin(ax, ay, bx, by) == left_of_origin(cx, cy, ax, ay) <==> left_of_origin(
            ax,
            ay,
            bx,
            by,
        ) && left_of_origin(bx, by, cx, cy) && left_of_origin(cx, cy, ax, ay),
{
    let (a, b, c) = (bx * cy - by * cx, cx * ay - cy * ax, ax * by - ay * bx);
    lemma_weights(ax, ay, bx, by, cx, cy);
    lemma_product_sign(a, ay);
    lemma_product_sign(b, by);
    lemma_product_sign(c, cy);
    lemma_product_sign(cx, ay);
    lemma_product_sign(ay, bx);
    lemma_product_sign(cy, ax);
    lemma_product_sign(ax, by);
}

/// What holds of a triangle with a corner `a` not above the origin and the others above it.
proof fn lemma_two_above(ax: int, ay: int, bx: int, by: int, cx: int, cy: int)
    requires
        ay <= 0,
        by > 0,
        cy > 0,
        (bx * cy - by * cx) + (cx * ay - cy * ax) + (ax * by - ay * bx) > 0,
    ensures
        left_of_origin(ax, ay, bx, by) == left_of_origin(cx, cy, ax, ay) <==> left_of_origin(
            ax,
            ay,
            bx,
            by,
        ) && left_of_origin(bx, by, cx, cy) && left_of_origin(cx, cy, ax, ay),
{
    let (a, b, c) = (bx * cy - by * cx, cx * ay - cy * ax, ax * by - ay * bx);
    lemma_weights(ax, ay, bx, by, cx, cy);
    lemma_product_sign(a, ay);
    lemma_product_sign(b, by);
    lemma_product_sign(c, cy);
}

/// A triangle above the origin does not have it on the left of all sides.
proof fn lemma_all_above(ax: int, ay: int, bx: int, by: int, cx: int, cy: int)
    requires
        ay > 0,
        by > 0,
        cy > 0,
        (bx * cy - by * cx) + (cx * ay - cy * ax) + (ax * by - ay * bx) > 0,
    ensures
        !(left_of_origin(ax, ay, bx, by) && left_of_origin(bx, by, cx, cy) && left_of_origin(
            cx,
            cy,
            ax,
            ay,
        )),
{
    let (a, b, c) = (bx * cy - by * cx, cx * ay - cy * ax, ax * by - ay * bx);
    lemma_weights(ax, ay, bx, by, cx, cy);
    lemma_product_sign(a, ay);
    lemma_product_sign(b, by);
    lemma_product_sign(c, cy);
}

proof fn lemma_left_of_shift(a: (i32, i32), b: (i32, i32), px: i32, py: i32)
    ensures
        left_of(a, b, px, py) == left_of_origin(a.0 - px, a.1 - py, b.0 - px, b.1 - py),
        (py - a.1) * (b.0 - a.0) - (b.1 - a.1) * (px - a.0) == (a.0 - px) * (b.1 - py) - (a.1 - py)
            * (b.0 - px),
{
    let (ax, ay, bx, by) = (a.0 - px, a.1 - py, b.0 - px, b.1 - py);
    assert((-ay) * (bx - ax) - (by - ay) * (-ax) == ax * by - ay * bx) by (nonlinear_arith);
}

/// An edge that runs upward past the height of the point cuts its ray if the point lies to the left.
/// One that runs downward does if the point lies to the right.
proof fn lemma_cut_is_side(a: (i32, i32), b: (i32, i32), px: i32, py: i32)
    ensures
        a.1 <= py && b.1 > py ==> cuts_ray(a, b, px, py) == left_of(a, b, px, py),
        a.1 > py && b.1 <= py ==> cuts_ray(a, b, px, py) == !left_of(a, b, px, py),
        (a.1 > py) == (b.1 > py) ==> !cuts_ray(a, b, px, py),
{
    lemma_edge_direction(a, b, px, py);
    let (d, h, k, w) = (px - a.0, b.1 - a.1, py - a.1, b.0 - a.0);
    assert(d * h == h * d) by (nonlinear_arith);
}

/// The directions of a side are opposite.
proof fn lemma_left_of_reversed(a: (i32, i32), b: (i32, i32), px: i32, py: i32)
    requires
        a != b,
    ensures
        left_of(a, b, px, py) == !left_of(b, a, px, py),
{
    lemma_left_of_shift(a, b, px, py);
    lemma_left_of_shift(b, a, px, py);
    let (ax, ay, bx, by) = (a.0 - px, a.1 - py, b.0 - px, b.1 - py);
    assert(bx * ay - by * ax == -(ax * by - ay * bx)) by (nonlinear_arith);
}

proof fn lemma_triangle_cuts(a: (i32, i32), b: (i32, i32), c: (i32, i32), px: i32, py: i32)
    ensures
        inside(seq![a, b, c], px, py) == (cuts_ray(a, b, px, py) != (cuts_ray(b, c, px, py)
            != cuts_ray(c, a, px, py))),
{
    let v = seq![a, b, c];
    reveal_with_fuel(ray_cuts, 4);
    assert(v.len() == 3);
    lemma_edge_direction(a, c, px, py);
    lemma_edge_direction(b, a, px, py);
    lemma_edge_direction(c, b, px, py);
}

proof fn lemma_left_turning_triangle(
    a: (i32, i32),
    b: (i32, i32),
    c: (i32, i32),
    px: i32,
    py: i32,
)
    requires
        doubled_triangle(a, b, c) > 0,
    ensures
        inside(seq![a, b, c], px, py) <==> left_of(a, b, px, py) && left_of(b, c, px, py)
            && left_of(c, a, px, py),
{
    let (ax, ay, bx, by) = (a.0 - px, a.1 - py, b.0 - px, b.1 - py);
    let (cx, cy) = (c.0 - px, c.1 - py);
    lemma_turns_add_up(ax, ay, bx, by, cx, cy);
    lemma_triangle_cuts(a, b, c, px, py);
    lemma_left_of_shift(a, b, px, py);
    lemma_left_of_shift(b, c, px, py);
    lemma_left_of_shift(c, a, px, py);
    lemma_cut_is_side(a, b, px, py);
    lemma_cut_is_side(b, c, px, py);
    lemma_cut_is_side(c, a, px, py);
    if ay > 0 && by > 0 && cy > 0 {
        lemma_all_above(ax, ay, bx, by, cx, cy);
    } else if ay <= 0 && by <= 0 && cy <= 0 {
        if bx * cy - by * cx > 0 {
            lemma_all_below(ax, ay, bx, by, cx, cy);
        } else if cx * ay - cy * ax > 0 {
            lemma_all_below(bx, by, cx, cy, ax, ay);
        } else {
            lemma_all_below(cx, cy, ax, ay, bx, by);
        }
    } else if (by > 0) == (cy > 0) {
        if ay > 0 {
            lemma_one_above(ax, ay, bx, by, cx, cy);
        } else {
            lemma_two_above(ax, ay, bx, by, cx, cy);
        }
    } else if (cy > 0) == (ay > 0) {
        if by > 0 {
            lemma_one_above(bx, by, cx, cy, ax, ay);
        } else {
            lemma_two_above(bx, by, cx, cy, ax, ay);
        }
    } else {
        if cy > 0 {
            lemma_one_above(cx, cy, ax, ay, bx, by);
        } else {
            lemma_two_above(cx, cy, ax, ay, bx, by);
        }
    }
}

/// A triangle holds exactly the points that lie on the same side of its three sides, each run
/// through in the order of the corners. A triangle without area holds no point.
pub proof fn law_triangle_holds_its_points(
    a: (i32, i32),
    b: (i32, i32),
    c: (i32, i32),
    px: i32,
    py: i32,
)
    ensures
        doubled_triangle(a, b, c) != 0 ==> (inside(seq![a, b, c], px, py) <==> left_of(
            a,
            b,
            px,
            py,
        ) == left_of(b, c, px, py) && left_of(b, c, px, py) == left_of(c, a, px, py)),
        doubled_triangle(a, b, c) == 0 ==> !inside(seq![a, b, c], px, py),
{
    lemma_triangle_cuts(a, b, c, px, py);
    let (ax, ay, bx, by) = (a.0 - px, a.1 - py, b.0 - px, b.1 - py);
    let (cx, cy) = (c.0 - px, c.1 - py);
    lemma_turns_add_up(ax, ay, bx, by, cx, cy);
    lemma_left_of_shift(a, b, px, py);
    lemma_left_of_shift(b, c, px, py);
    lemma_left_of_shift(c, a, px, py);
    if doubled_triangle(a, b, c) > 0 {
        lemma_left_turning_triangle(a, b, c, px, py);
    } else if doubled_triangle(a, b, c) < 0 {
        assert((cx - ax) * (by - ay) - (bx - ax) * (cy - ay) > 0);
        lemma_left_turning_triangle(a, c, b, px, py);
        lemma_triangle_cuts(a, c, b, px, py);
        lemma_edge_direction(a, c, px, py);
        lemma_edge_direction(c, b, px, py);
        lemma_edge_direction(b, a, px, py);
        assert(a != b && b != c && c != a) by {
            if a == b {
                assert((bx - ax) * (cy - ay) == 0 && (cx - ax) * (by - ay) == 0)
                    by (nonlinear_arith)
                    requires
                        ax == bx,
                        ay == by,
                ;
            }
            if a == c {
                assert((bx - ax) * (cy - ay) == 0 && (cx - ax) * (by - ay) == 0)
                    by (nonlinear_arith)
                    requires
                        ax == cx,
                        ay == cy,
                ;
            }
            if b == c {
                assert((bx - ax) * (cy - ay) == (cx - ax) * (by - ay));
            }
        }
        lemma_left_of_reversed(a, b, px, py);
        lemma_left_of_reversed(b, c, px, py);
        lemma_left_of_reversed(c, a, px, py);
    } else {
        lemma_cut_is_side(a, b, px, py);
        lemma_cut_is_side(b, c, px, py);
        lemma_cut_is_side(c, a, px, py);
        lemma_flat(ax, ay, bx, by, cx, cy);
        lemma_flat(bx, by, cx, cy, ax, ay);
        lemma_flat(cx, cy, ax, ay, bx, by);
    }
}

/// In a triangle without area, two sides from a corner to the other side of the origin's height pass
/// the origin on the same side.
proof fn lemma_flat(ax: int, ay: int, bx: int, by: int, cx: int, cy: int)
    requires
        (bx * cy - by * cx) + (cx * ay - cy * ax) + (ax * by - ay * bx) == 0,
    ensures
        (ay > 0) != (by > 0) && (by > 0) == (cy > 0) ==> left_of_origin(ax, ay, bx, by)
            != left_of_origin(cx, cy, ax, ay),
{
    if (ay > 0) != (by > 0) && (by > 0) == (cy > 0) {
        let (b, c) = (cx * ay - cy * ax, ax * by - ay * bx);
        let (uy, wy) = (by - ay, cy - ay);
        lemma_weights(ax, ay, bx, by, cx, cy);
        assert(c * wy == c * cy - c * ay && b * uy == b * by - b * ay) by (nonlinear_arith)
            requires
                uy == by - ay,
                wy == cy - ay,
        ;
        let a = bx * cy - by * cx;
        assert(a * ay + b * ay + c * ay == 0) by (nonlinear_arith)
            requires
                a + b + c == 0,
        ;
        assert(c * wy == -(b * uy));
        lemma_product_sign(c, wy);
        lemma_product_sign(b, uy);
    }
}

/// Fewer than three vertices hold no point.
pub proof fn law_two_vertices_hold_nothing(v: Seq<(i32, i32)>, px: i32, py: i32)
    requires
        v.len() < 3,
    ensures
        !inside(v, px, py),
{
    reveal_with_fuel(ray_cuts, 3);
    if v.len() == 2 {
        lemma_edge_direction(v[0], v[1], px, py);
    }
}

/// Cut in two along the line from the first vertex to another, a polygon holds exactly the points
/// that just one of the pieces holds. With triangles in the end, this says of every polygon which
/// points it holds.
pub proof fn law_pieces_hold_the_points(v: Seq<(i32, i32)>, k: int, px: i32, py: i32)
    requires
        0 < k < v.len(),
    ensures
        inside(v, px, py) == (inside(v.take(k + 1), px, py) != inside(
            seq![v[0]] + v.skip(k),
            px,
            py,
        )),
{
    let n = v.len() as int;
    let (a, b) = (v.take(k + 1), seq![v[0]] + v.skip(k));
    lemma_first_piece_cuts(v, k, px, py, k + 1);
    lemma_second_piece_cuts(v, k, px, py, n);
    lemma_edge_direction(v[0], v[k], px, py);
    assert(a.len() == k + 1 && b.len() == n - k + 1);
}

/// How often the edge into vertex `to` from vertex `from` cuts the ray.
spec fn cut_count(v: Seq<(i32, i32)>, to: int, from: int, px: i32, py: i32) -> nat {
    if cuts_ray(v[to], v[from], px, py) {
        1
    } else {
        0
    }
}

proof fn lemma_first_piece_cuts(v: Seq<(i32, i32)>, k: int, px: i32, py: i32, upto: int)
    requires
        0 < k < v.len(),
        0 < upto <= k + 1,
    ensures
        ray_cuts(v.take(k + 1), px, py, upto) + cut_count(v, 0, v.len() - 1, px, py) == ray_cuts(
            v,
            px,
            py,
            upto,
        ) + cut_count(v, 0, k, px, py),
    decreases upto,
{
    let n = v.len() as int;
    let a = v.take(k + 1);
    if upto == 1 {
        reveal_with_fuel(ray_cuts, 2);
        assert(a[0] == v[0] && a[k] == v[k]);
        assert(ray_cuts(a, px, py, 0) == 0 && ray_cuts(v, px, py, 0) == 0);
    } else {
        lemma_first_piece_cuts(v, k, px, py, upto - 1);
        assert(a[upto - 1] == v[upto - 1] && a[upto - 2] == v[upto - 2]);
    }
}

proof fn lemma_second_piece_cuts(v: Seq<(i32, i32)>, k: int, px: i32, py: i32, upto: int)
    requires
        0 < k < v.len(),
        k < upto <= v.len(),
    ensures
        ray_cuts(seq![v[0]] + v.skip(k), px, py, upto - k + 1) + ray_cuts(v, px, py, k + 1)
            == ray_cuts(v, px, py, upto) + cut_count(v, 0, v.len() - 1, px, py) + cut_count(
            v,
            k,
            0,
            px,
            py,
        ),
    decreases upto,
{
    let n = v.len() as int;
    let b = seq![v[0]] + v.skip(k);
    assert(b.len() == n - k + 1);
    if upto == k + 1 {
        assert(b[0] == v[0] && b[1] == v[k] && b[n - k] == v[n - 1]);
        assert(ray_cuts(b, px, py, 0) == 0);
        assert(ray_cuts(b, px, py, 1) == cut_count(v, 0, n - 1, px, py));
        assert(ray_cuts(b, px, py, 2) == ray_cuts(b, px, py, 1) + cut_count(v, k, 0, px, py));
    } else {
        lemma_second_piece_cuts(v, k, px, py, upto - 1);
        assert(b[upto - k] == v[upto - 1] && b[upto - k - 1] == v[upto - 2]);
    }
}

/// A single polygon in a list holds its own points.
pub proof fn law_single_zone_holds_its_points(p: Polygon, x: i32, y: i32)
    ensures
        inside_any(seq![p], x, y) == inside(p.vertices@, x, y),
{
    let list = seq![p];
    if inside(p.vertices@, x, y) {
        assert(inside(list[0].vertices@, x, y));
    }
}

/// Twice the area of a triangle is its cross product.
pub proof fn law_triangle_area(a: (i32, i32), b: (i32, i32), c: (i32, i32))
    ensures
        shoelace(seq![a, b, c], 3) == doubled_triangle(a, b, c),
{
    let v = seq![a, b, c];
    reveal_with_fuel(shoelace, 4);
    assert(v.len() == 3);
    let (ax, ay, bx, by) = (a.0 as int, a.1 as int, b.0 as int, b.1 as int);
    let (cx, cy) = (c.0 as int, c.1 as int);
    assert((ax * by - bx * ay) + (bx * cy - cx * by) + (cx * ay - ax * cy) == (bx - ax) * (cy - ay)
        - (cx - ax) * (by - ay)) by (nonlinear_arith);
}

/// Fewer than three vertices have no area.
pub proof fn law_two_vertices_have_no_area(v: Seq<(i32, i32)>)
    requires
        v.len() < 3,
    ensures
        shoelace(v, v.len() as int) == 0,
{
    reveal_with_fuel(shoelace, 3);
    if v.len() > 0 {
        let (a, b) = (v[0], v[v.len() - 1]);
        assert(a.0 * b.1 - b.0 * a.1 + (b.0 * a.1 - a.0 * b.1) == 0);
        assert(a.0 * a.1 - a.0 * a.1 == 0);
    }
}

/// Cut in two along the line from the first vertex to another, a polygon has the area of both pieces
/// together.
pub proof fn law_pieces_share_the_area(v: Seq<(i32, i32)>, k: int)
    requires
        0 < k < v.len(),
    ensures
        shoelace(v, v.len() as int) == shoelace(v.take(k + 1), k + 1) + shoelace(
            seq![v[0]] + v.skip(k),
            v.len() - k + 1,
        ),
{
    let n = v.len() as int;
    let (a, b) = (v.take(k + 1), seq![v[0]] + v.skip(k));
    assert(b.len() == n - k + 1);
    lemma_first_piece_area(v, k, k);
    lemma_second_piece_area(v, k, n - 1);
    let (p, q) = (v[0], v[k]);
    assert(a[k] == q && a[0] == p);
    assert(b[n - k] == v[n - 1] && b[0] == p);
    assert(shoelace(a, k + 1) == shoelace(a, k) + (q.0 * p.1 - p.0 * q.1));
    assert(shoelace(b, n - k + 1) == shoelace(b, n - k) + (v[n - 1].0 * p.1 - p.0 * v[n - 1].1));
    assert(shoelace(v, n) == shoelace(v, n - 1) + (v[n - 1].0 * p.1 - p.0 * v[n - 1].1));
}

proof fn lemma_first_piece_area(v: Seq<(i32, i32)>, k: int, upto: int)
    requires
        0 < k < v.len(),
        0 <= upto <= k,
    ensures
        shoelace(v.take(k + 1), upto) == shoelace(v, upto),
    decreases upto,
{
    if upto > 0 {
        lemma_first_piece_area(v, k, upto - 1);
        let a = v.take(k + 1);
        assert(a[upto - 1] == v[upto - 1] && a[upto] == v[upto]);
    }
}

proof fn lemma_second_piece_area(v: Seq<(i32, i32)>, k: int, upto: int)
    requires
        0 < k < v.len(),
        k <= upto < v.len(),
    ensures
        shoelace(seq![v[0]] + v.skip(k), upto - k + 1) == (v[0].0 * v[k].1 - v[k].0 * v[0].1)
            + shoelace(v, upto) - shoelace(v, k),
    decreases upto,
{
    let b = seq![v[0]] + v.skip(k);
    assert(b.len() == v.len() - k + 1);
    if upto == k {
        assert(shoelace(b, 0) == 0);
        assert(b[0] == v[0] && b[1] == v[k]);
    } else {
        lemma_second_piece_area(v, k, upto - 1);
        assert(b[upto - k] == v[upto - 1] && b[upto - k + 1] == v[upto]);
    }
}

} // verus!
