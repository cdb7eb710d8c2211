//! Orientation and intersection of segments with integer end points.

use vstd::prelude::*;

verus! {

/// The cross product of `b - a` and `c - a`: positive where `a`, `b`, `c` turn counterclockwise,
/// negative where they turn clockwise, zero where they stand on one line.
pub open spec fn cross(a: (i32, i32), b: (i32, i32), c: (i32, i32)) -> int {
    (c.1 - a.1) * (b.0 - a.0) - (b.1 - a.1) * (c.0 - a.0)
}

/// Minus one, zero or one, as `x` is negative, zero or positive.
pub open spec fn sign(x: int) -> int {
    if x < 0 {
        -1
    } else if x == 0 {
        0
    } else {
        1
    }
}

/// Whether a 64-bit signed integer can hold `x`.
pub open spec fn fits_i64(x: int) -> bool {
    i64::MIN <= x <= i64::MAX
}

/// Whether the cross product of three points can be computed in 64 bits.
pub open spec fn cross_fits(a: (i32, i32), b: (i32, i32), c: (i32, i32)) -> bool {
    &&& fits_i64((c.1 - a.1) * (b.0 - a.0))
    &&& fits_i64((b.1 - a.1) * (c.0 - a.0))
    &&& fits_i64(cross(a, b, c))
}

/// Whether the four cross products that compare two segments can be computed in 64 bits.
pub open spec fn segments_fit(
    p1: (i32, i32),
    p2: (i32, i32),
    p3: (i32, i32),
    p4: (i32, i32),
) -> bool {
    &&& cross_fits(p3, p4, p1)
    &&& cross_fits(p3, p4, p2)
    &&& cross_fits(p1, p2, p3)
    &&& cross_fits(p1, p2, p4)
}

/// Whether `m` lies between `a` and `b`, in either order, ends included.
pub open spec fn between(a: int, m: int, b: int) -> bool {
    a <= m <= b || b <= m <= a
}

/// Whether `q` lies in the rectangle with the opposite corners `p` and `r`, its border included.
pub open spec fn in_box(p: (i32, i32), q: (i32, i32), r: (i32, i32)) -> bool {
    between(p.0 as int, q.0 as int, r.0 as int) && between(p.1 as int, q.1 as int, r.1 as int)
}

/// Whether the point at the fraction `s / den` of the way from `p1` to `p2` is the point at the
/// fraction `t / den` of the way from `p3` to `p4`.
pub open spec fn meet_at(
    p1: (i32, i32),
    p2: (i32, i32),
    p3: (i32, i32),
    p4: (i32, i32),
    den: int,
    s: int,
    t: int,
) -> bool {
    &&& p1.0 * den + s * (p2.0 - p1.0) == p3.0 * den + t * (p4.0 - p3.0)
    &&& p1.1 * den + s * (p2.1 - p1.1) == p3.1 * den + t * (p4.1 - p3.1)
}

/// Whether the segment from `p1` to `p2` and the segment from `p3` to `p4`, ends included, have a
/// point in common.
pub open spec fn segments_meet(
    p1: (i32, i32),
    p2: (i32, i32),
    p3: (i32, i32),
    p4: (i32, i32),
) -> bool {
    exists|den: int, s: int, t: int|
        0 < den && 0 <= s <= den && 0 <= t <= den && #[trigger] meet_at(p1, p2, p3, p4, den, s, t)
}

/// The test that decides `segments_meet` from the turning directions of the end points.
pub open spec fn turns_cross(
    p1: (i32, i32),
    p2: (i32, i32),
    p3: (i32, i32),
    p4: (i32, i32),
) -> bool {
    let d1 = sign(cross(p3, p4, p1));
    let d2 = sign(cross(p3, p4, p2));
    let d3 = sign(cross(p1, p2, p3));
    let d4 = sign(cross(p1, p2, p4));
    ||| d1 != d2 && d3 != d4
    ||| d1 == 0 && in_box(p3, p1, p4)
    ||| d2 == 0 && in_box(p3, p2, p4)
    ||| d3 == 0 && in_box(p1, p3, p2)
    ||| d4 == 0 && in_box(p1, p4, p2)
}

/// Cramer's rule for two vectors.
proof fn lemma_cramer(ux: int, uy: int, vx: int, vy: int, wx: int, wy: int)
    ensures
        (wx * vy - wy * vx) * ux + (ux * wy - uy * wx) * vx == (ux * vy - uy * vx) * wx,
        (wx * vy - wy * vx) * uy + (ux * wy - uy * wx) * vy == (ux * vy - uy * vx) * wy,
{
    assert((wx * vy - wy * vx) * ux + (ux * wy - uy * wx) * vx == (ux * vy - uy * vx) * wx)
        by (nonlinear_arith);
    assert((wx * vy - wy * vx) * uy + (ux * wy - uy * wx) * vy == (ux * vy - uy * vx) * wy)
        by (nonlinear_arith);
}

/// The four cross products in terms of the vectors `u = p2 - p1`, `v = p4 - p3`, `w = p3 - p1`.
proof fn lemma_cross_terms(p1: (i32, i32), p2: (i32, i32), p3: (i32, i32), p4: (i32, i32))
    ensures
        ({
            let (ux, uy) = (p2.0 - p1.0, p2.1 - p1.1);
            let (vx, vy) = (p4.0 - p3.0, p4.1 - p3.1);
            let (wx, wy) = (p3.0 - p1.0, p3.1 - p1.1);
            &&& cross(p3, p4, p1) == wx * vy - wy * vx
            &&& cross(p3, p4, p2) == wx * vy - wy * vx - (ux * vy - uy * vx)
            &&& cross(p1, p2, p3) == ux * wy - uy * wx
            &&& cross(p1, p2, p4) == ux * wy - uy * wx + (ux * vy - uy * vx)
        }),
{
    let (ux, uy) = (p2.0 - p1.0, p2.1 - p1.1);
    let (vx, vy) = (p4.0 - p3.0, p4.1 - p3.1);
    let (wx, wy) = (p3.0 - p1.0, p3.1 - p1.1);
    assert((-wy) * vx - vy * (-wx) == wx * vy - wy * vx) by (nonlinear_arith);
    assert((uy - wy) * vx - vy * (ux - wx) == wx * vy - wy * vx - (ux * vy - uy * vx))
        by (nonlinear_arith);
    assert(wy * ux - uy * wx == ux * wy - uy * wx) by (nonlinear_arith);
    assert((wy + vy) * ux - uy * (wx + vx) == ux * wy - uy * wx + (ux * vy - uy * vx))
        by (nonlinear_arith);
}

/// A point on the line through `p` and `r` and in their box stands at some fraction of the way.
proof fn lemma_on_line(p: (i32, i32), q: (i32, i32), r: (i32, i32)) -> (f: (int, int))
    requires
        cross(p, r, q) == 0,
        in_box(p, q, r),
    ensures
        0 < f.0,
        0 <= f.1 <= f.0,
        q.0 * f.0 == p.0 * f.0 + f.1 * (r.0 - p.0),
        q.1 * f.0 == p.1 * f.0 + f.1 * (r.1 - p.1),
{
    let (dx, dy) = (r.0 - p.0, r.1 - p.1);
    let (ex, ey) = (q.0 - p.0, q.1 - p.1);
    assert(ey * dx == dy * ex);
    let f: (int, int) = if dx > 0 {
        (dx, ex)
    } else if dx < 0 {
        (-dx, -ex)
    } else if dy > 0 {
        (dy, ey)
    } else if dy < 0 {
        (-dy, -ey)
    } else {
        (1, 0)
    };
    let (px, py) = (p.0 as int, p.1 as int);
    assert(ex * f.0 == f.1 * dx && ey * f.0 == f.1 * dy) by {
        if dx > 0 {
            assert(ex * dx == ex * dx && ey * dx == ex * dy) by (nonlinear_arith)
                requires
                    ey * dx == dy * ex,
            ;
        } else if dx < 0 {
            assert(ex * (-dx) == (-ex) * dx && ey * (-dx) == (-ex) * dy) by (nonlinear_arith)
                requires
                    ey * dx == dy * ex,
            ;
        } else if dy > 0 {
            assert(ex == 0 && dx == 0);
        } else if dy < 0 {
            assert(ex == 0 && dx == 0);
            assert(ey * (-dy) == (-ey) * dy) by (nonlinear_arith);
        }
    }
    let (f0, f1) = f;
    assert((px + ex) * f0 == px * f0 + f1 * dx) by (nonlinear_arith)
        requires
            ex * f0 == f1 * dx,
    ;
    assert((py + ey) * f0 == py * f0 + f1 * dy) by (nonlinear_arith)
        requires
            ey * f0 == f1 * dy,
    ;
    f
}

/// Turns that cross, or an end point on the other segment, give a common point.
proof fn lemma_turns_give_point(p1: (i32, i32), p2: (i32, i32), p3: (i32, i32), p4: (i32, i32))
    requires
        turns_cross(p1, p2, p3, p4),
    ensures
        segments_meet(p1, p2, p3, p4),
{
    let a = cross(p3, p4, p1);
    let b = cross(p3, p4, p2);
    let c = cross(p1, p2, p3);
    let d = cross(p1, p2, p4);
    if sign(a) != sign(b) && sign(c) != sign(d) {
        let (ux, uy) = (p2.0 - p1.0, p2.1 - p1.1);
        let (vx, vy) = (p4.0 - p3.0, p4.1 - p3.1);
        let (wx, wy) = (p3.0 - p1.0, p3.1 - p1.1);
        lemma_cross_terms(p1, p2, p3, p4);
        lemma_cramer(ux, uy, vx, vy, wx, wy);
        let det = ux * vy - uy * vx;
        let (den, s, t) = if det > 0 {
            (det, a, -c)
        } else {
            (-det, -a, c)
        };
        assert(0 < den && 0 <= s <= den && 0 <= t <= den);
        let (x1, y1) = (p1.0 as int, p1.1 as int);
        assert(x1 * den + s * ux == (x1 + wx) * den + t * vx && y1 * den + s * uy == (y1 + wy) * den
            + t * vy) by {
            if det > 0 {
                assert(x1 * det + a * ux == (x1 + wx) * det + (-c) * vx) by (nonlinear_arith)
                    requires
                        a * ux + c * vx == det * wx,
                ;
                assert(y1 * det + a * uy == (y1 + wy) * det + (-c) * vy) by (nonlinear_arith)
                    requires
                        a * uy + c * vy == det * wy,
                ;
            } else {
                assert(x1 * (-det) + (-a) * ux == (x1 + wx) * (-det) + c * vx) by (nonlinear_arith)
                    requires
                        a * ux + c * vx == det * wx,
                ;
                assert(y1 * (-det) + (-a) * uy == (y1 + wy) * (-det) + c * vy) by (nonlinear_arith)
                    requires
                        a * uy + c * vy == det * wy,
                ;
            }
        }
        assert(meet_at(p1, p2, p3, p4, den, s, t));
    } else if a == 0 && in_box(p3, p1, p4) {
        let f = lemma_on_line(p3, p1, p4);
        assert(0 * (p2.0 - p1.0) == 0 && 0 * (p2.1 - p1.1) == 0);
        assert(meet_at(p1, p2, p3, p4, f.0, 0, f.1));
    } else if b == 0 && in_box(p3, p2, p4) {
        let f = lemma_on_line(p3, p2, p4);
        lemma_full_way(p1, p2, f.0);
        assert(meet_at(p1, p2, p3, p4, f.0, f.0, f.1));
    } else if c == 0 && in_box(p1, p3, p2) {
        let f = lemma_on_line(p1, p3, p2);
        assert(0 * (p4.0 - p3.0) == 0 && 0 * (p4.1 - p3.1) == 0);
        assert(meet_at(p1, p2, p3, p4, f.0, f.1, 0));
    } else {
        let f = lemma_on_line(p1, p4, p2);
        lemma_full_way(p3, p4, f.0);
        assert(meet_at(p1, p2, p3, p4, f.0, f.1, f.0));
    }
}

/// The whole way from `p` to `q` ends at `q`.
proof fn lemma_full_way(p: (i32, i32), q: (i32, i32), den: int)
    ensures
        p.0 * den + den * (q.0 - p.0) == q.0 * den,
        p.1 * den + den * (q.1 - p.1) == q.1 * den,
{
    let (px, py, qx, qy) = (p.0 as int, p.1 as int, q.0 as int, q.1 as int);
    assert(px * den + den * (qx - px) == qx * den) by (nonlinear_arith);
    assert(py * den + den * (qy - py) == qy * den) by (nonlinear_arith);
}

/// A fraction of the way along a signed distance stays between its ends.
proof fn lemma_part_of_way(den: int, s: int, dx: int)
    requires
        0 < den,
        0 <= s <= den,
    ensures
        dx >= 0 ==> 0 <= s * dx <= den * dx,
        dx <= 0 ==> den * dx <= s * dx <= 0,
{
    if dx >= 0 {
        assert(0 <= s * dx <= den * dx) by (nonlinear_arith)
            requires
                0 <= s <= den,
                dx >= 0,
        ;
    }
    if dx <= 0 {
        assert(den * dx <= s * dx <= 0) by (nonlinear_arith)
            requires
                0 <= s <= den,
                dx <= 0,
        ;
    }
}

/// A common multiple on both sides of a bound can be left out.
proof fn lemma_cancel(x: int, y: int, den: int)
    requires
        0 < den,
        x * den <= y * den,
    ensures
        x <= y,
{
    assert(x <= y) by (nonlinear_arith)
        requires
            0 < den,
            x * den <= y * den,
    ;
}

/// On a line that is not vertical, a point whose abscissa lies between those of two others lies
/// between them in both coordinates.
proof fn lemma_between_on_line(dx: int, dy: int, ex: int, ey: int)
    requires
        dx != 0,
        ey * dx == dy * ex,
        between(0, ex, dx),
    ensures
        between(0, ey, dy),
{
    if dx > 0 {
        if dy >= 0 {
            assert(0 <= ey <= dy) by (nonlinear_arith)
                requires
                    dx > 0,
                    dy >= 0,
                    0 <= ex <= dx,
                    ey * dx == dy * ex,
            ;
        } else {
            assert(dy <= ey <= 0) by (nonlinear_arith)
                requires
                    dx > 0,
                    dy < 0,
                    0 <= ex <= dx,
                    ey * dx == dy * ex,
            ;
        }
    } else {
        if dy >= 0 {
            assert(0 <= ey <= dy) by (nonlinear_arith)
                requires
                    dx < 0,
                    dy >= 0,
                    dx <= ex <= 0,
                    ey * dx == dy * ex,
            ;
        } else {
            assert(dy <= ey <= 0) by (nonlinear_arith)
                requires
                    dx < 0,
                    dy < 0,
                    dx <= ex <= 0,
                    ey * dx == dy * ex,
            ;
        }
    }
}

/// Where two intervals have a common point, an end of one lies in the other.
proof fn lemma_intervals_overlap(x1: int, x2: int, x3: int, x4: int, den: int, s: int, t: int)
    requires
        0 < den,
        0 <= s <= den,
        0 <= t <= den,
        x1 * den + s * (x2 - x1) == x3 * den + t * (x4 - x3),
    ensures
        between(x1, x3, x2) || between(x1, x4, x2) || (between(x3, x1, x4) && x3 != x4),
{
    let m = x1 * den + s * (x2 - x1);
    lemma_part_of_way(den, s, x2 - x1);
    lemma_part_of_way(den, t, x4 - x3);
    assert(x1 * den + den * (x2 - x1) == x2 * den) by (nonlinear_arith);
    assert(x3 * den + den * (x4 - x3) == x4 * den) by (nonlinear_arith);
    let lo1 = if x1 <= x2 { x1 } else { x2 };
    let hi1 = if x1 <= x2 { x2 } else { x1 };
    let lo3 = if x3 <= x4 { x3 } else { x4 };
    let hi3 = if x3 <= x4 { x4 } else { x3 };
    assert(lo1 * den <= m <= hi1 * den);
    assert(lo3 * den <= m <= hi3 * den);
    lemma_cancel(lo1, hi3, den);
    lemma_cancel(lo3, hi1, den);
}

/// Two segments of one line that is not vertical: a common point puts an end of one on the other.
proof fn lemma_collinear_overlap(
    x1: int,
    y1: int,
    x2: int,
    y2: int,
    x3: int,
    y3: int,
    x4: int,
    y4: int,
    den: int,
    s: int,
    t: int,
)
    requires
        0 < den,
        0 <= s <= den,
        0 <= t <= den,
        x1 * den + s * (x2 - x1) == x3 * den + t * (x4 - x3),
        x1 != x2,
        (y3 - y1) * (x2 - x1) == (y2 - y1) * (x3 - x1),
        (y4 - y1) * (x2 - x1) == (y2 - y1) * (x4 - x1),
        (y1 - y3) * (x4 - x3) == (y4 - y3) * (x1 - x3),
    ensures
        ({
            ||| between(x1, x3, x2) && between(y1, y3, y2)
            ||| between(x1, x4, x2) && between(y1, y4, y2)
            ||| between(x3, x1, x4) && between(y3, y1, y4)
        }),
{
    lemma_intervals_overlap(x1, x2, x3, x4, den, s, t);
    if between(x1, x3, x2) {
        lemma_between_on_line(x2 - x1, y2 - y1, x3 - x1, y3 - y1);
    } else if between(x1, x4, x2) {
        lemma_between_on_line(x2 - x1, y2 - y1, x4 - x1, y4 - y1);
    } else {
        lemma_between_on_line(x4 - x3, y4 - y3, x1 - x3, y1 - y3);
    }
}

/// A point at a fraction of the way from `p` to `r` lies in their box.
proof fn lemma_fraction_in_box(p: int, q: int, r: int, den: int, t: int)
    requires
        0 < den,
        0 <= t <= den,
        q * den == p * den + t * (r - p),
    ensures
        between(p, q, r),
{
    lemma_part_of_way(den, t, r - p);
    assert(p * den + den * (r - p) == r * den) by (nonlinear_arith);
    if r >= p {
        lemma_cancel(p, q, den);
        lemma_cancel(q, r, den);
    } else {
        lemma_cancel(r, q, den);
        lemma_cancel(q, p, den);
    }
}

/// The zero product rule for a positive factor.
proof fn lemma_scaled_sign(x: int, den: int, k: int, det: int)
    requires
        0 < den,
        x * den == k * det,
    ensures
        k >= 0 && det > 0 ==> x >= 0,
        k <= 0 && det > 0 ==> x <= 0,
        k >= 0 && det < 0 ==> x <= 0,
        k <= 0 && det < 0 ==> x >= 0,
        det == 0 ==> x == 0,
{
    if k >= 0 && det > 0 {
        assert(x >= 0) by (nonlinear_arith)
            requires
                0 < den,
                k >= 0,
                det > 0,
                x * den == k * det,
        ;
    }
    if k <= 0 && det > 0 {
        assert(x <= 0) by (nonlinear_arith)
            requires
                0 < den,
                k <= 0,
                det > 0,
                x * den == k * det,
        ;
    }
    if k >= 0 && det < 0 {
        assert(x <= 0) by (nonlinear_arith)
            requires
                0 < den,
                k >= 0,
                det < 0,
                x * den == k * det,
        ;
    }
    if k <= 0 && det < 0 {
        assert(x >= 0) by (nonlinear_arith)
            requires
                0 < den,
                k <= 0,
                det < 0,
                x * den == k * det,
        ;
    }
    if det == 0 {
        assert(x == 0) by (nonlinear_arith)
            requires
                0 < den,
                det == 0,
                x * den == k * det,
        ;
    }
}

/// A common point shows in the turns, or puts an end point on the other segment.
proof fn lemma_point_gives_turns(
    p1: (i32, i32),
    p2: (i32, i32),
    p3: (i32, i32),
    p4: (i32, i32),
    den: int,
    s: int,
    t: int,
)
    requires
        0 < den,
        0 <= s <= den,
        0 <= t <= den,
        meet_at(p1, p2, p3, p4, den, s, t),
    ensures
        turns_cross(p1, p2, p3, p4),
{
    let a = cross(p3, p4, p1);
    let b = cross(p3, p4, p2);
    let c = cross(p1, p2, p3);
    let d = cross(p1, p2, p4);
    let (ux, uy) = (p2.0 - p1.0, p2.1 - p1.1);
    let (vx, vy) = (p4.0 - p3.0, p4.1 - p3.1);
    let (wx, wy) = (p3.0 - p1.0, p3.1 - p1.1);
    let (x1, y1) = (p1.0 as int, p1.1 as int);
    lemma_cross_terms(p1, p2, p3, p4);
    let det = ux * vy - uy * vx;
    assert(s * ux - t * vx == wx * den) by (nonlinear_arith)
        requires
            x1 * den + s * ux == (x1 + wx) * den + t * vx,
    ;
    assert(s * uy - t * vy == wy * den) by (nonlinear_arith)
        requires
            y1 * den + s * uy == (y1 + wy) * den + t * vy,
    ;
    assert(a * den == s * det) by {
        assert((wx * vy - wy * vx) * den == (wx * den) * vy - (wy * den) * vx) by (nonlinear_arith);
        assert((s * ux - t * vx) * vy - (s * uy - t * vy) * vx == s * (ux * vy - uy * vx))
            by (nonlinear_arith);
    }
    assert(c * den == (-t) * det) by {
        assert((ux * wy - uy * wx) * den == ux * (wy * den) - uy * (wx * den)) by (nonlinear_arith);
        assert(ux * (s * uy - t * vy) - uy * (s * ux - t * vx) == (-t) * (ux * vy - uy * vx))
            by (nonlinear_arith);
    }
    assert(b * den == (s - den) * det) by (nonlinear_arith)
        requires
            a * den == s * det,
            b == a - det,
    ;
    assert(d * den == (den - t) * det) by (nonlinear_arith)
        requires
            c * den == (-t) * det,
            d == c + det,
    ;
    lemma_scaled_sign(a, den, s, det);
    lemma_scaled_sign(b, den, s - den, det);
    lemma_scaled_sign(c, den, -t, det);
    lemma_scaled_sign(d, den, den - t, det);
    if det == 0 {
        let (x2, y2) = (p2.0 as int, p2.1 as int);
        let (x3, y3) = (p3.0 as int, p3.1 as int);
        let (x4, y4) = (p4.0 as int, p4.1 as int);
        if ux != 0 {
            lemma_collinear_overlap(x1, y1, x2, y2, x3, y3, x4, y4, den, s, t);
        } else if uy != 0 {
            assert((x3 - x1) * (y2 - y1) == (x2 - x1) * (y3 - y1)) by (nonlinear_arith)
                requires
                    (y3 - y1) * (x2 - x1) - (y2 - y1) * (x3 - x1) == 0,
            ;
            assert((x4 - x1) * (y2 - y1) == (x2 - x1) * (y4 - y1)) by (nonlinear_arith)
                requires
                    (y4 - y1) * (x2 - x1) - (y2 - y1) * (x4 - x1) == 0,
            ;
            assert((x1 - x3) * (y4 - y3) == (x4 - x3) * (y1 - y3)) by (nonlinear_arith)
                requires
                    (y1 - y3) * (x4 - x3) - (y4 - y3) * (x1 - x3) == 0,
            ;
            lemma_collinear_overlap(y1, x1, y2, x2, y3, x3, y4, x4, den, s, t);
        } else {
            assert(s * ux == 0 && s * uy == 0);
            lemma_fraction_in_box(x3, x1, x4, den, t);
            lemma_fraction_in_box(y3, y1, y4, den, t);
        }
    }
}

/// Two segments have a point in common exactly where the turning directions of their end points
/// say so, touching and overlapping segments and single points among them.
pub proof fn law_turns_decide_meeting(
    p1: (i32, i32),
    p2: (i32, i32),
    p3: (i32, i32),
    p4: (i32, i32),
)
    ensures
        turns_cross(p1, p2, p3, p4) <==> segments_meet(p1, p2, p3, p4),
{
    if turns_cross(p1, p2, p3, p4) {
        lemma_turns_give_point(p1, p2, p3, p4);
    }
    if segments_meet(p1, p2, p3, p4) {
        let (den, s, t) = choose|den: int, s: int, t: int|
            0 < den && 0 <= s <= den && 0 <= t <= den && #[trigger] meet_at(
                p1,
                p2,
                p3,
                p4,
                den,
                s,
                t,
            );
        lemma_point_gives_turns(p1, p2, p3, p4, den, s, t);
    }
}

/// Whether two segments meet does not depend on which is named first, nor on the direction in
/// which either is run through.
pub proof fn law_meeting_is_symmetric(
    p1: (i32, i32),
    p2: (i32, i32),
    p3: (i32, i32),
    p4: (i32, i32),
)
    ensures
        segments_meet(p1, p2, p3, p4) == segments_meet(p3, p4, p1, p2),
        segments_meet(p1, p2, p3, p4) == segments_meet(p2, p1, p3, p4),
{
    if segments_meet(p1, p2, p3, p4) {
        lemma_meet_symmetric(p1, p2, p3, p4);
    }
    if segments_meet(p3, p4, p1, p2) {
        lemma_meet_symmetric(p3, p4, p1, p2);
    }
    if segments_meet(p2, p1, p3, p4) {
        lemma_meet_symmetric(p2, p1, p3, p4);
    }
}

proof fn lemma_meet_symmetric(p1: (i32, i32), p2: (i32, i32), p3: (i32, i32), p4: (i32, i32))
    requires
        segments_meet(p1, p2, p3, p4),
    ensures
        segments_meet(p3, p4, p1, p2),
        segments_meet(p2, p1, p3, p4),
{
    let (den, s, t) = choose|den: int, s: int, t: int|
        0 < den && 0 <= s <= den && 0 <= t <= den && #[trigger] meet_at(p1, p2, p3, p4, den, s, t);
    assert(meet_at(p3, p4, p1, p2, den, t, s));
    let (x1, y1, x2, y2) = (p1.0 as int, p1.1 as int, p2.0 as int, p2.1 as int);
    assert(x2 * den + (den - s) * (x1 - x2) == x1 * den + s * (x2 - x1)) by (nonlinear_arith);
    assert(y2 * den + (den - s) * (y1 - y2) == y1 * den + s * (y2 - y1)) by (nonlinear_arith);
    assert(meet_at(p2, p1, p3, p4, den, den - s, t));
}

/// A point that stands on both segments, at the fraction `s / den` of the way along the first and at
/// the fraction `t / den` of the way along the second, makes them meet.
pub proof fn law_common_point_makes_meeting(
    p1: (i32, i32),
    p2: (i32, i32),
    p3: (i32, i32),
    p4: (i32, i32),
    den: int,
    s: int,
    t: int,
)
    requires
        0 < den,
        0 <= s <= den,
        0 <= t <= den,
        p1.0 * den + s * (p2.0 - p1.0) == p3.0 * den + t * (p4.0 - p3.0),
        p1.1 * den + s * (p2.1 - p1.1) == p3.1 * den + t * (p4.1 - p3.1),
    ensures
        segments_meet(p1, p2, p3, p4),
{
    assert(meet_at(p1, p2, p3, p4, den, s, t));
}

/// Segments that meet have a point in common: it stands at the fraction `f.1 / f.0` of the way along
/// the first and at the fraction `f.2 / f.0` of the way along the second.
pub proof fn law_meeting_has_common_point(
    p1: (i32, i32),
    p2: (i32, i32),
    p3: (i32, i32),
    p4: (i32, i32),
) -> (f: (int, int, int))
    requires
        segments_meet(p1, p2, p3, p4),
    ensures
        0 < f.0,
        0 <= f.1 <= f.0,
        0 <= f.2 <= f.0,
        p1.0 * f.0 + f.1 * (p2.0 - p1.0) == p3.0 * f.0 + f.2 * (p4.0 - p3.0),
        p1.1 * f.0 + f.1 * (p2.1 - p1.1) == p3.1 * f.0 + f.2 * (p4.1 - p3.1),
{
    choose|den: int, s: int, t: int|
        0 < den && 0 <= s <= den && 0 <= t <= den && #[trigger] meet_at(p1, p2, p3, p4, den, s, t)
}

/// A box reaches, in each coordinate, from the smaller to the larger one of its corners.
pub proof fn law_box_reaches_to_its_corners(p: (i32, i32), q: (i32, i32), r: (i32, i32))
    ensures
        in_box(p, q, r) <==> {
            &&& q.0 <= p.0 || q.0 <= r.0
            &&& p.0 <= q.0 || r.0 <= q.0
            &&& q.1 <= p.1 || q.1 <= r.1
            &&& p.1 <= q.1 || r.1 <= q.1
        },
{
}

/// Segments with coordinates up to 2 to the power of 29 can be compared in 64 bits.
pub proof fn law_moderate_segments_fit(
    p1: (i32, i32),
    p2: (i32, i32),
    p3: (i32, i32),
    p4: (i32, i32),
)
    requires
        -0x2000_0000 <= p1.0 <= 0x2000_0000 && -0x2000_0000 <= p1.1 <= 0x2000_0000,
        -0x2000_0000 <= p2.0 <= 0x2000_0000 && -0x2000_0000 <= p2.1 <= 0x2000_0000,
        -0x2000_0000 <= p3.0 <= 0x2000_0000 && -0x2000_0000 <= p3.1 <= 0x2000_0000,
        -0x2000_0000 <= p4.0 <= 0x2000_0000 && -0x2000_0000 <= p4.1 <= 0x2000_0000,
    ensures
        segments_fit(p1, p2, p3, p4),
{
    lemma_moderate_cross(p3, p4, p1);
    lemma_moderate_cross(p3, p4, p2);
    lemma_moderate_cross(p1, p2, p3);
    lemma_moderate_cross(p1, p2, p4);
}

proof fn lemma_moderate_cross(a: (i32, i32), b: (i32, i32), c: (i32, i32))
    requires
        -0x2000_0000 <= a.0 <= 0x2000_0000 && -0x2000_0000 <= a.1 <= 0x2000_0000,
        -0x2000_0000 <= b.0 <= 0x2000_0000 && -0x2000_0000 <= b.1 <= 0x2000_0000,
        -0x2000_0000 <= c.0 <= 0x2000_0000 && -0x2000_0000 <= c.1 <= 0x2000_0000,
    ensures
        cross_fits(a, b, c),
{
    lemma_moderate_product(c.1 - a.1, b.0 - a.0);
    lemma_moderate_product(b.1 - a.1, c.0 - a.0);
}

proof fn lemma_moderate_product(x: int, y: int)
    requires
        -0x4000_0000 <= x <= 0x4000_0000,
        -0x4000_0000 <= y <= 0x4000_0000,
    ensures
        -0x1000_0000_0000_0000 <= x * y <= 0x1000_0000_0000_0000,
{
    assert(-0x1000_0000_0000_0000 <= x * y <= 0x1000_0000_0000_0000) by (nonlinear_arith)
        requires
            -0x4000_0000 <= x <= 0x4000_0000,
            -0x4000_0000 <= y <= 0x4000_0000,
    ;
}

/// Two segments can be compared wherever 64 bits hold the two products for each end point and their
/// difference.
pub proof fn law_when_segments_can_be_compared(
    p1: (i32, i32),
    p2: (i32, i32),
    p3: (i32, i32),
    p4: (i32, i32),
)
    requires
        forall|a: (i32, i32), b: (i32, i32), c: (i32, i32)|
            (a == p3 && b == p4 && (c == p1 || c == p2)) || (a == p1 && b == p2 && (c == p3 || c
                == p4)) ==> {
                let left = (c.1 - a.1) * (b.0 - a.0);
                let right = (b.1 - a.1) * (c.0 - a.0);
                &&& -0x8000_0000_0000_0000 <= left <= 0x7fff_ffff_ffff_ffff
                &&& -0x8000_0000_0000_0000 <= right <= 0x7fff_ffff_ffff_ffff
                &&& -0x8000_0000_0000_0000 <= #[trigger] cross(a, b, c) <= 0x7fff_ffff_ffff_ffff
            },
    ensures
        segments_fit(p1, p2, p3, p4),
{
    assert(fits_i64(cross(p3, p4, p1)) && fits_i64(cross(p3, p4, p2)));
    assert(fits_i64(cross(p1, p2, p3)) && fits_i64(cross(p1, p2, p4)));
}

} // verus!
