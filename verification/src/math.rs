//! Geometry kernel: segment intersection, closest point on a segment, and
//! closest points between two segments.
//!
//! All inputs are points on a fixed-point integer grid.  Intermediate
//! results are exact rationals held as integer numerators over a positive
//! integer denominator, so every contract below pins the result exactly.

use vstd::prelude::*;
use crate::num::lemma_mul_bound;
use crate::num::lemma_square_bounds;

verus! {

/// Largest coordinate magnitude the kernel accepts; keeps every
/// intermediate product inside `i128`.
pub const MAX_COORD: i64 = 65536;

/// Largest denominator a kernel result can carry (`8 * MAX_COORD^2`).
pub const DEN_MAX: i128 = 34359738368;

/// Largest numerator magnitude a kernel result can carry (`32 * MAX_COORD^3`).
pub const NUM_MAX: i128 = 9007199254740992;

/// Largest magnitude of a squared-distance numerator (`4 * DEN_MAX^2`).
pub const PSEG_MAX: i128 = 4722366482869645213696;

/// A point (or vector) on the fixed-point grid.
#[derive(Clone, Copy, PartialEq, Eq, Structural, Debug)]
pub struct Point2 {
    pub x: i64,
    pub y: i64,
}

/// An exact rational point: `(xn / den, yn / den)` with `den >= 1`.
#[derive(Clone, Copy, PartialEq, Eq, Structural, Debug)]
pub struct RatPoint {
    pub xn: i128,
    pub yn: i128,
    pub den: i128,
}

pub open spec fn in_range(p: Point2) -> bool {
    &&& -(MAX_COORD as int) <= p.x as int <= MAX_COORD as int
    &&& -(MAX_COORD as int) <= p.y as int <= MAX_COORD as int
}

/// The rational point sitting exactly on a grid point.
pub open spec fn rat_of(p: Point2) -> RatPoint {
    (RatPoint { xn: p.x as i128, yn: p.y as i128, den: 1 })
}

/// Numerators and denominator within the kernel's bounds.
pub open spec fn rat_bounded(p: RatPoint) -> bool {
    &&& 1 <= p.den <= DEN_MAX
    &&& -NUM_MAX <= p.xn <= NUM_MAX
    &&& -NUM_MAX <= p.yn <= NUM_MAX
}

/// Smaller of two integers.
pub open spec fn lo2(u: int, w: int) -> int {
    if u <= w {
        u
    } else {
        w
    }
}

/// Larger of two integers.
pub open spec fn hi2(u: int, w: int) -> int {
    if u <= w {
        w
    } else {
        u
    }
}

/// The rational point `(xn / den, yn / den)` lies in the axis-aligned
/// bounding box of segment `s1 -> s2`.
pub open spec fn on_seg_box(xn: int, yn: int, den: int, s1: Point2, s2: Point2) -> bool {
    &&& lo2(s1.x as int, s2.x as int) * den <= xn <= hi2(s1.x as int, s2.x as int) * den
    &&& lo2(s1.y as int, s2.y as int) * den <= yn <= hi2(s1.y as int, s2.y as int) * den
}

/// The rational point's coordinates stay within the grid's coordinate range.
pub open spec fn rat_in_grid(p: RatPoint) -> bool {
    &&& -65536 * p.den <= p.xn <= 65536 * p.den
    &&& -65536 * p.den <= p.yn <= 65536 * p.den
}

/// A bounding box within the grid range keeps the point in the grid range.
proof fn lemma_box_to_grid(p: RatPoint, s1: Point2, s2: Point2)
    requires
        in_range(s1),
        in_range(s2),
        1 <= p.den,
        on_seg_box(p.xn as int, p.yn as int, p.den as int, s1, s2),
    ensures
        rat_in_grid(p),
{
    crate::num::lemma_scale_le(-65536, lo2(s1.x as int, s2.x as int), p.den as int);
    crate::num::lemma_scale_le(hi2(s1.x as int, s2.x as int), 65536, p.den as int);
    crate::num::lemma_scale_le(-65536, lo2(s1.y as int, s2.y as int), p.den as int);
    crate::num::lemma_scale_le(hi2(s1.y as int, s2.y as int), 65536, p.den as int);
}

// --- segment intersection -------------------------------------------------

/// Determinant of the 2x2 system for the parametric intersection of
/// segment `a1 -> a2` with segment `b1 -> b2`.
pub open spec fn det_of(a1: Point2, a2: Point2, b1: Point2, b2: Point2) -> int {
    (a2.x - a1.x) * (b2.y - b1.y) - (a2.y - a1.y) * (b2.x - b1.x)
}

/// Numerator of the parameter along segment A, by Cramer's rule.
pub open spec fn t1_raw(a1: Point2, a2: Point2, b1: Point2, b2: Point2) -> int {
    (a1.y - b1.y) * (b2.x - b1.x) - (a1.x - b1.x) * (b2.y - b1.y)
}

/// Numerator of the parameter along segment B, by Cramer's rule.
pub open spec fn t2_raw(a1: Point2, a2: Point2, b1: Point2, b2: Point2) -> int {
    (a1.y - b1.y) * (a2.x - a1.x) - (a1.x - b1.x) * (a2.y - a1.y)
}

/// `|det|`: the common denominator of both parameters.
pub open spec fn isect_den(a1: Point2, a2: Point2, b1: Point2, b2: Point2) -> int {
    if det_of(a1, a2, b1, b2) >= 0 {
        det_of(a1, a2, b1, b2)
    } else {
        -det_of(a1, a2, b1, b2)
    }
}

/// Parameter numerator along A, sign-adjusted to the positive denominator.
pub open spec fn isect_t1(a1: Point2, a2: Point2, b1: Point2, b2: Point2) -> int {
    if det_of(a1, a2, b1, b2) >= 0 {
        t1_raw(a1, a2, b1, b2)
    } else {
        -t1_raw(a1, a2, b1, b2)
    }
}

/// Parameter numerator along B, sign-adjusted to the positive denominator.
pub open spec fn isect_t2(a1: Point2, a2: Point2, b1: Point2, b2: Point2) -> int {
    if det_of(a1, a2, b1, b2) >= 0 {
        t2_raw(a1, a2, b1, b2)
    } else {
        -t2_raw(a1, a2, b1, b2)
    }
}

/// The segments are not parallel and both parameters land in `[0, 1]`.
pub open spec fn isect_some(a1: Point2, a2: Point2, b1: Point2, b2: Point2) -> bool {
    &&& det_of(a1, a2, b1, b2) != 0
    &&& 0 <= isect_t1(a1, a2, b1, b2) <= isect_den(a1, a2, b1, b2)
    &&& 0 <= isect_t2(a1, a2, b1, b2) <= isect_den(a1, a2, b1, b2)
}

/// Numerator of the intersection's x coordinate over `isect_den`.
pub open spec fn isect_xn(a1: Point2, a2: Point2, b1: Point2, b2: Point2) -> int {
    a1.x * isect_den(a1, a2, b1, b2) + isect_t1(a1, a2, b1, b2) * (a2.x - a1.x)
}

/// Numerator of the intersection's y coordinate over `isect_den`.
pub open spec fn isect_yn(a1: Point2, a2: Point2, b1: Point2, b2: Point2) -> int {
    a1.y * isect_den(a1, a2, b1, b2) + isect_t1(a1, a2, b1, b2) * (a2.y - a1.y)
}

/// Cramer consistency over difference vectors: the intersection point,
/// measured from the shared origin offset, is the same along either
/// segment.
proof fn lemma_cramer_col(
    dc: int,
    d1c: int,
    d2c: int,
    dy: int,
    d1y: int,
    d2y: int,
    det: int,
    t1: int,
    t2: int,
) by (nonlinear_arith)
    requires
        det == d1c * d2y - d1y * d2c,
        t1 == dy * d2c - dc * d2y,
        t2 == dy * d1c - dc * d1y,
    ensures
        dc * det + t1 * d1c == t2 * d2c,
{
}

/// Cramer consistency for the second coordinate.
proof fn lemma_cramer_col_y(
    dc: int,
    d1c: int,
    d2c: int,
    dx: int,
    d1x: int,
    d2x: int,
    det: int,
    t1: int,
    t2: int,
) by (nonlinear_arith)
    requires
        det == d1x * d2c - d1c * d2x,
        t1 == dc * d2x - dx * d2c,
        t2 == dc * d1x - dx * d1c,
    ensures
        dc * det + t1 * d1c == t2 * d2c,
{
}

/// Multiplication distributes over subtraction.
proof fn lemma_mul_sub(a: int, b: int, c: int) by (nonlinear_arith)
    ensures
        (a - b) * c == a * c - b * c,
{
}

/// Negating the parameter and the denominator together keeps a
/// parametric combination equal.
proof fn lemma_negate_combo(px: int, qx: int, d: int, t: int, s: int, ex: int, fx: int) by (nonlinear_arith)
    requires
        px * d + t * ex == qx * d + s * fx,
    ensures
        px * (-d) + (-t) * ex == qx * (-d) + (-s) * fx,
{
}

/// Parametric intersection point of two segments, or `None` when the
/// segments are parallel or the solution falls outside either segment.
pub fn try_get_lines_intersection_point(a1: Point2, a2: Point2, b1: Point2, b2: Point2) -> (r:
    Option<RatPoint>)
    requires
        in_range(a1),
        in_range(a2),
        in_range(b1),
        in_range(b2),
    ensures
        r is Some <==> isect_some(a1, a2, b1, b2),
        r matches Some(p) ==> {
            &&& p.den as int == isect_den(a1, a2, b1, b2)
            &&& p.xn as int == isect_xn(a1, a2, b1, b2)
            &&& p.yn as int == isect_yn(a1, a2, b1, b2)
            &&& rat_bounded(p)
            &&& on_seg_box(p.xn as int, p.yn as int, p.den as int, a1, a2)
            &&& on_seg_box(p.xn as int, p.yn as int, p.den as int, b1, b2)
            &&& rat_in_grid(p)
        },
{
    let d1x: i128 = a2.x as i128 - a1.x as i128;
    let d1y: i128 = a2.y as i128 - a1.y as i128;
    let d2x: i128 = b2.x as i128 - b1.x as i128;
    let d2y: i128 = b2.y as i128 - b1.y as i128;
    proof {
        lemma_mul_bound(d1x as int, d2y as int, 131072, 131072);
        lemma_mul_bound(d1y as int, d2x as int, 131072, 131072);
    }
    let det: i128 = d1x * d2y - d1y * d2x;
    if det == 0 {
        return None;
    }
    let dx: i128 = a1.x as i128 - b1.x as i128;
    let dy: i128 = a1.y as i128 - b1.y as i128;
    proof {
        lemma_mul_bound(dy as int, d2x as int, 131072, 131072);
        lemma_mul_bound(dx as int, d2y as int, 131072, 131072);
        lemma_mul_bound(dy as int, d1x as int, 131072, 131072);
        lemma_mul_bound(dx as int, d1y as int, 131072, 131072);
    }
    let t1: i128 = dy * d2x - dx * d2y;
    let t2: i128 = dy * d1x - dx * d1y;
    let adet: i128 = if det >= 0 {
        det
    } else {
        -det
    };
    let at1: i128 = if det >= 0 {
        t1
    } else {
        -t1
    };
    let at2: i128 = if det >= 0 {
        t2
    } else {
        -t2
    };
    if at1 < 0 || at1 > adet || at2 < 0 || at2 > adet {
        return None;
    }
    proof {
        lemma_mul_bound(a1.x as int, adet as int, 65536, 34359738368);
        lemma_mul_bound(a1.y as int, adet as int, 65536, 34359738368);
        lemma_mul_bound(at1 as int, d1x as int, 34359738368, 131072);
        lemma_mul_bound(at1 as int, d1y as int, 34359738368, 131072);
    }
    let xn: i128 = a1.x as i128 * adet + at1 * d1x;
    let yn: i128 = a1.y as i128 * adet + at1 * d1y;
    let p = RatPoint { xn, yn, den: adet };
    proof {
        let deti = det_of(a1, a2, b1, b2);
        let t1i = t1_raw(a1, a2, b1, b2);
        let t2i = t2_raw(a1, a2, b1, b2);
        let adeni = isect_den(a1, a2, b1, b2);
        let at1i = isect_t1(a1, a2, b1, b2);
        let at2i = isect_t2(a1, a2, b1, b2);
        let ghost dxi = a1.x as int - b1.x as int;
        let ghost dyi = a1.y as int - b1.y as int;
        let ghost g1x = a2.x as int - a1.x as int;
        let ghost g1y = a2.y as int - a1.y as int;
        let ghost g2x = b2.x as int - b1.x as int;
        let ghost g2y = b2.y as int - b1.y as int;
        lemma_cramer_col(dxi, g1x, g2x, dyi, g1y, g2y, deti, t1i, t2i);
        lemma_cramer_col_y(dyi, g1y, g2y, dxi, g1x, g2x, deti, t1i, t2i);
        lemma_mul_sub(a1.x as int, b1.x as int, deti);
        lemma_mul_sub(a1.y as int, b1.y as int, deti);
        assert(a1.x * deti + t1i * g1x == b1.x * deti + t2i * g2x);
        assert(a1.y * deti + t1i * g1y == b1.y * deti + t2i * g2y);
        if deti < 0 {
            lemma_negate_combo(
                a1.x as int,
                b1.x as int,
                deti,
                t1i,
                t2i,
                a2.x as int - a1.x as int,
                b2.x as int - b1.x as int,
            );
            lemma_negate_combo(
                a1.y as int,
                b1.y as int,
                deti,
                t1i,
                t2i,
                a2.y as int - a1.y as int,
                b2.y as int - b1.y as int,
            );
        }
        // the same point, written along each segment, stays in that
        // segment's bounding box
        crate::num::lemma_convex_combo(
            a1.x as int,
            a2.x as int,
            at1i,
            adeni,
            lo2(a1.x as int, a2.x as int),
            hi2(a1.x as int, a2.x as int),
        );
        crate::num::lemma_convex_combo(
            a1.y as int,
            a2.y as int,
            at1i,
            adeni,
            lo2(a1.y as int, a2.y as int),
            hi2(a1.y as int, a2.y as int),
        );
        assert(xn as int == b1.x * adeni + at2i * (b2.x - b1.x));
        assert(yn as int == b1.y * adeni + at2i * (b2.y - b1.y));
        crate::num::lemma_convex_combo(
            b1.x as int,
            b2.x as int,
            at2i,
            adeni,
            lo2(b1.x as int, b2.x as int),
            hi2(b1.x as int, b2.x as int),
        );
        crate::num::lemma_convex_combo(
            b1.y as int,
            b2.y as int,
            at2i,
            adeni,
            lo2(b1.y as int, b2.y as int),
            hi2(b1.y as int, b2.y as int),
        );
        lemma_box_to_grid(p, a1, a2);
    }
    Some(p)
}

// --- closest point on one segment ----------------------------------------

/// Squared length of segment `a -> b`; the denominator of a projection
/// onto it.
pub open spec fn seg_den(a: Point2, b: Point2) -> int {
    (b.x - a.x) * (b.x - a.x) + (b.y - a.y) * (b.y - a.y)
}

/// Dot product of `p - a` with `b - a`: the unclamped projection numerator.
pub open spec fn proj_e(p: Point2, a: Point2, b: Point2) -> int {
    (p.x - a.x) * (b.x - a.x) + (p.y - a.y) * (b.y - a.y)
}

/// The projection parameter numerator, clamped to `[0, seg_den]`.
pub open spec fn proj_t(p: Point2, a: Point2, b: Point2) -> int {
    let e = proj_e(p, a, b);
    let d = seg_den(a, b);
    if e < 0 {
        0
    } else if e > d {
        d
    } else {
        e
    }
}

/// Numerator of the x coordinate of the closest point, over `seg_den`.
pub open spec fn proj_xn(p: Point2, a: Point2, b: Point2) -> int {
    a.x * seg_den(a, b) + proj_t(p, a, b) * (b.x - a.x)
}

/// Numerator of the y coordinate of the closest point, over `seg_den`.
pub open spec fn proj_yn(p: Point2, a: Point2, b: Point2) -> int {
    a.y * seg_den(a, b) + proj_t(p, a, b) * (b.y - a.y)
}

/// The point of segment `a -> b` closest to `point`: projection onto the
/// carrying line, clamped to the segment.  The segment must not be
/// degenerate.
pub fn closest_points_on_segment(point: Point2, a: Point2, b: Point2) -> (r: RatPoint)
    requires
        in_range(point),
        in_range(a),
        in_range(b),
        a != b,
    ensures
        r.den as int == seg_den(a, b),
        r.xn as int == proj_xn(point, a, b),
        r.yn as int == proj_yn(point, a, b),
        rat_bounded(r),
        on_seg_box(r.xn as int, r.yn as int, r.den as int, a, b),
        rat_in_grid(r),
{
    let abx: i128 = b.x as i128 - a.x as i128;
    let aby: i128 = b.y as i128 - a.y as i128;
    let apx: i128 = point.x as i128 - a.x as i128;
    let apy: i128 = point.y as i128 - a.y as i128;
    proof {
        lemma_mul_bound(abx as int, abx as int, 131072, 131072);
        lemma_mul_bound(aby as int, aby as int, 131072, 131072);
        lemma_mul_bound(apx as int, abx as int, 131072, 131072);
        lemma_mul_bound(apy as int, aby as int, 131072, 131072);
        lemma_square_bounds(abx as int);
        lemma_square_bounds(aby as int);
    }
    let den: i128 = abx * abx + aby * aby;
    let e: i128 = apx * abx + apy * aby;
    let t: i128 = if e < 0 {
        0
    } else if e > den {
        den
    } else {
        e
    };
    proof {
        lemma_mul_bound(a.x as int, den as int, 65536, 34359738368);
        lemma_mul_bound(a.y as int, den as int, 65536, 34359738368);
        lemma_mul_bound(t as int, abx as int, 34359738368, 131072);
        lemma_mul_bound(t as int, aby as int, 34359738368, 131072);
    }
    let xn: i128 = a.x as i128 * den + t * abx;
    let yn: i128 = a.y as i128 * den + t * aby;
    let r = RatPoint { xn, yn, den };
    proof {
        crate::num::lemma_convex_combo(
            a.x as int,
            b.x as int,
            proj_t(point, a, b),
            seg_den(a, b),
            lo2(a.x as int, b.x as int),
            hi2(a.x as int, b.x as int),
        );
        crate::num::lemma_convex_combo(
            a.y as int,
            b.y as int,
            proj_t(point, a, b),
            seg_den(a, b),
            lo2(a.y as int, b.y as int),
            hi2(a.y as int, b.y as int),
        );
        lemma_box_to_grid(r, a, b);
    }
    r
}

// --- closest points between two segments ----------------------------------

/// Squared distance from `p` to segment `a -> b`, as the numerator of a
/// fraction over `seg_den(a, b)`.
pub open spec fn pseg_num(p: Point2, a: Point2, b: Point2) -> int {
    let d = seg_den(a, b);
    let e = proj_e(p, a, b);
    let t = proj_t(p, a, b);
    let w2 = (p.x - a.x) * (p.x - a.x) + (p.y - a.y) * (p.y - a.y);
    d * w2 - 2 * (t * e) + t * t
}

/// Squared-distance numerator of candidate `i` (in the evaluation order
/// `a1, a2, b1, b2`: each endpoint against the other segment).
pub open spec fn cand_num(i: int, a1: Point2, a2: Point2, b1: Point2, b2: Point2) -> int {
    if i == 0 {
        pseg_num(a1, b1, b2)
    } else if i == 1 {
        pseg_num(a2, b1, b2)
    } else if i == 2 {
        pseg_num(b1, a1, a2)
    } else {
        pseg_num(b2, a1, a2)
    }
}

/// Squared-distance denominator of candidate `i`.
pub open spec fn cand_den(i: int, a1: Point2, a2: Point2, b1: Point2, b2: Point2) -> int {
    if i == 0 || i == 1 {
        seg_den(b1, b2)
    } else {
        seg_den(a1, a2)
    }
}

/// Candidate `i` is strictly closer than candidate `j` (fractions compared
/// by cross-multiplication; both denominators are positive).
pub open spec fn cand_lt(i: int, j: int, a1: Point2, a2: Point2, b1: Point2, b2: Point2) -> bool {
    cand_num(i, a1, a2, b1, b2) * cand_den(j, a1, a2, b1, b2) < cand_num(j, a1, a2, b1, b2)
        * cand_den(i, a1, a2, b1, b2)
}

/// Candidate `i` is at most as far as candidate `j`.
pub open spec fn cand_le(i: int, j: int, a1: Point2, a2: Point2, b1: Point2, b2: Point2) -> bool {
    cand_num(i, a1, a2, b1, b2) * cand_den(j, a1, a2, b1, b2) <= cand_num(j, a1, a2, b1, b2)
        * cand_den(i, a1, a2, b1, b2)
}

/// The first-encountered minimum over the four candidates: a later
/// candidate replaces an earlier one only when strictly closer.
pub open spec fn best_cand(a1: Point2, a2: Point2, b1: Point2, b2: Point2) -> int {
    let i1 = if cand_lt(1, 0, a1, a2, b1, b2) {
        1int
    } else {
        0int
    };
    let i2 = if cand_lt(2, i1, a1, a2, b1, b2) {
        2int
    } else {
        i1
    };
    if cand_lt(3, i2, a1, a2, b1, b2) {
        3int
    } else {
        i2
    }
}

/// The pair of candidate `i`, oriented as (point on A, point on B):
/// x numerator of the A-side point.
pub open spec fn cand_axn(i: int, a1: Point2, a2: Point2, b1: Point2, b2: Point2) -> int {
    if i == 0 {
        a1.x as int
    } else if i == 1 {
        a2.x as int
    } else if i == 2 {
        proj_xn(b1, a1, a2)
    } else {
        proj_xn(b2, a1, a2)
    }
}

pub open spec fn cand_ayn(i: int, a1: Point2, a2: Point2, b1: Point2, b2: Point2) -> int {
    if i == 0 {
        a1.y as int
    } else if i == 1 {
        a2.y as int
    } else if i == 2 {
        proj_yn(b1, a1, a2)
    } else {
        proj_yn(b2, a1, a2)
    }
}

pub open spec fn cand_aden(i: int, a1: Point2, a2: Point2, b1: Point2, b2: Point2) -> int {
    if i == 0 || i == 1 {
        1int
    } else {
        seg_den(a1, a2)
    }
}

/// x numerator of the B-side point of candidate `i`.
pub open spec fn cand_bxn(i: int, a1: Point2, a2: Point2, b1: Point2, b2: Point2) -> int {
    if i == 0 {
        proj_xn(a1, b1, b2)
    } else if i == 1 {
        proj_xn(a2, b1, b2)
    } else if i == 2 {
        b1.x as int
    } else {
        b2.x as int
    }
}

pub open spec fn cand_byn(i: int, a1: Point2, a2: Point2, b1: Point2, b2: Point2) -> int {
    if i == 0 {
        proj_yn(a1, b1, b2)
    } else if i == 1 {
        proj_yn(a2, b1, b2)
    } else if i == 2 {
        b1.y as int
    } else {
        b2.y as int
    }
}

pub open spec fn cand_bden(i: int, a1: Point2, a2: Point2, b1: Point2, b2: Point2) -> int {
    if i == 0 || i == 1 {
        seg_den(b1, b2)
    } else {
        1int
    }
}

/// Ordering fractions with positive denominators is transitive.
proof fn lemma_frac_trans(n0: int, d0: int, n1: int, d1: int, n2: int, d2: int) by (nonlinear_arith)
    requires
        1 <= d0,
        1 <= d1,
        1 <= d2,
        n2 * d1 <= n1 * d2,
        n1 * d0 <= n0 * d1,
    ensures
        n2 * d0 <= n0 * d2,
{
}

/// Squared distance from `p` to segment `a -> b`, as an exact fraction
/// `(numerator, denominator)`.
fn pseg_frac(p: Point2, a: Point2, b: Point2) -> (r: (i128, i128))
    requires
        in_range(p),
        in_range(a),
        in_range(b),
        a != b,
    ensures
        r.0 as int == pseg_num(p, a, b),
        r.1 as int == seg_den(a, b),
        1 <= r.1 <= DEN_MAX,
        -4722366482869645213696 <= r.0 <= 4722366482869645213696,
{
    let abx: i128 = b.x as i128 - a.x as i128;
    let aby: i128 = b.y as i128 - a.y as i128;
    let wx: i128 = p.x as i128 - a.x as i128;
    let wy: i128 = p.y as i128 - a.y as i128;
    proof {
        lemma_mul_bound(abx as int, abx as int, 131072, 131072);
        lemma_mul_bound(aby as int, aby as int, 131072, 131072);
        lemma_mul_bound(wx as int, abx as int, 131072, 131072);
        lemma_mul_bound(wy as int, aby as int, 131072, 131072);
        lemma_mul_bound(wx as int, wx as int, 131072, 131072);
        lemma_mul_bound(wy as int, wy as int, 131072, 131072);
        lemma_square_bounds(abx as int);
        lemma_square_bounds(aby as int);
        lemma_square_bounds(wx as int);
        lemma_square_bounds(wy as int);
    }
    let den: i128 = abx * abx + aby * aby;
    let e: i128 = wx * wx + wy * wy;
    let w2: i128 = e;
    let ed: i128 = wx * abx + wy * aby;
    let t: i128 = if ed < 0 {
        0
    } else if ed > den {
        den
    } else {
        ed
    };
    proof {
        assert(den as int == seg_den(a, b));
        assert(ed as int == proj_e(p, a, b));
        assert(t as int == proj_t(p, a, b));
        assert(0 <= den as int <= DEN_MAX as int);
        assert(0 <= w2 as int <= DEN_MAX as int);
        assert(-(DEN_MAX as int) <= ed as int <= DEN_MAX as int);
        assert(0 <= t as int <= DEN_MAX as int);
        lemma_mul_bound(den as int, w2 as int, 34359738368, 34359738368);
        lemma_mul_bound(t as int, ed as int, 34359738368, 34359738368);
        lemma_mul_bound(t as int, t as int, 34359738368, 34359738368);
        assert((34359738368int) * 34359738368 == 1180591620717411303424int);
    }
    let m1: i128 = den * w2;
    let m2: i128 = t * ed;
    let m3: i128 = t * t;
    proof {
        assert(-1180591620717411303424int <= m1 as int <= 1180591620717411303424int);
        assert(-1180591620717411303424int <= m2 as int <= 1180591620717411303424int);
        assert(-1180591620717411303424int <= m3 as int <= 1180591620717411303424int);
    }
    let num: i128 = m1 - 2 * m2 + m3;
    (num, den)
}

/// Closest pair of points between segment `a1 -> a2` and segment
/// `b1 -> b2`, as (point on A, point on B).  When the segments intersect,
/// the intersection point is returned twice; otherwise the closest of the
/// four endpoint-to-segment candidates wins, ties going to the earliest in
/// the order `a1, a2, b1, b2`.
pub fn closest_points_on_segments(a1: Point2, a2: Point2, b1: Point2, b2: Point2) -> (r: (
    RatPoint,
    RatPoint,
))
    requires
        in_range(a1),
        in_range(a2),
        in_range(b1),
        in_range(b2),
        a1 != a2,
        b1 != b2,
    ensures
        rat_bounded(r.0),
        rat_bounded(r.1),
        rat_in_grid(r.0),
        rat_in_grid(r.1),
        on_seg_box(r.0.xn as int, r.0.yn as int, r.0.den as int, a1, a2),
        on_seg_box(r.1.xn as int, r.1.yn as int, r.1.den as int, b1, b2),
        isect_some(a1, a2, b1, b2) ==> {
            &&& r.0 == r.1
            &&& r.0.den as int == isect_den(a1, a2, b1, b2)
            &&& r.0.xn as int == isect_xn(a1, a2, b1, b2)
            &&& r.0.yn as int == isect_yn(a1, a2, b1, b2)
        },
        !isect_some(a1, a2, b1, b2) ==> {
            let i = best_cand(a1, a2, b1, b2);
            &&& r.0.xn as int == cand_axn(i, a1, a2, b1, b2)
            &&& r.0.yn as int == cand_ayn(i, a1, a2, b1, b2)
            &&& r.0.den as int == cand_aden(i, a1, a2, b1, b2)
            &&& r.1.xn as int == cand_bxn(i, a1, a2, b1, b2)
            &&& r.1.yn as int == cand_byn(i, a1, a2, b1, b2)
            &&& r.1.den as int == cand_bden(i, a1, a2, b1, b2)
            &&& r.0.den == 1 || r.1.den == 1
            &&& forall|j: int| 0 <= j < 4 ==> cand_le(i, j, a1, a2, b1, b2)
        },
{
    let isect = try_get_lines_intersection_point(a1, a2, b1, b2);
    if let Some(p) = isect {
        return (p, p);
    }
    let p0 = closest_points_on_segment(a1, b1, b2);
    let p1 = closest_points_on_segment(a2, b1, b2);
    let p2 = closest_points_on_segment(b1, a1, a2);
    let p3 = closest_points_on_segment(b2, a1, a2);
    let f0 = pseg_frac(a1, b1, b2);
    let f1 = pseg_frac(a2, b1, b2);
    let f2 = pseg_frac(b1, a1, a2);
    let f3 = pseg_frac(b2, a1, a2);
    let ghost gi1: int = if cand_lt(1, 0, a1, a2, b1, b2) {
        1int
    } else {
        0int
    };
    let ghost gi2: int = if cand_lt(2, gi1, a1, a2, b1, b2) {
        2int
    } else {
        gi1
    };
    let ghost gbest: int = best_cand(a1, a2, b1, b2);

    proof {
        lemma_mul_bound(f1.0 as int, f0.1 as int, 4722366482869645213696, 34359738368);
        lemma_mul_bound(f0.0 as int, f1.1 as int, 4722366482869645213696, 34359738368);
        lemma_mul_bound(f2.0 as int, f0.1 as int, 4722366482869645213696, 34359738368);
        lemma_mul_bound(f0.0 as int, f2.1 as int, 4722366482869645213696, 34359738368);
        lemma_mul_bound(f2.0 as int, f1.1 as int, 4722366482869645213696, 34359738368);
        lemma_mul_bound(f1.0 as int, f2.1 as int, 4722366482869645213696, 34359738368);
        lemma_mul_bound(f3.0 as int, f0.1 as int, 4722366482869645213696, 34359738368);
        lemma_mul_bound(f0.0 as int, f3.1 as int, 4722366482869645213696, 34359738368);
        lemma_mul_bound(f3.0 as int, f1.1 as int, 4722366482869645213696, 34359738368);
        lemma_mul_bound(f1.0 as int, f3.1 as int, 4722366482869645213696, 34359738368);
        lemma_mul_bound(f3.0 as int, f2.1 as int, 4722366482869645213696, 34359738368);
        lemma_mul_bound(f2.0 as int, f3.1 as int, 4722366482869645213696, 34359738368);
    }

    let c1_beats: bool = f1.0 * f0.1 < f0.0 * f1.1;
    let (bn1, bd1, bi1): (i128, i128, u8) = if c1_beats {
        (f1.0, f1.1, 1)
    } else {
        (f0.0, f0.1, 0)
    };
    let c2_beats: bool = f2.0 * bd1 < bn1 * f2.1;
    let (bn2, bd2, bi2): (i128, i128, u8) = if c2_beats {
        (f2.0, f2.1, 2)
    } else {
        (bn1, bd1, bi1)
    };
    let c3_beats: bool = f3.0 * bd2 < bn2 * f3.1;
    let bi3: u8 = if c3_beats {
        3
    } else {
        bi2
    };
    proof {
        assert(bi1 as int == gi1);
        assert(bi2 as int == gi2);
        assert(bi3 as int == gbest);
        // the chosen candidate is at most as far as every other candidate
        assert forall|j: int| 0 <= j < 4 implies cand_le(gbest, j, a1, a2, b1, b2) by {
            let n0 = cand_num(0, a1, a2, b1, b2);
            let d0 = cand_den(0, a1, a2, b1, b2);
            let n1 = cand_num(1, a1, a2, b1, b2);
            let d1 = cand_den(1, a1, a2, b1, b2);
            let n2 = cand_num(2, a1, a2, b1, b2);
            let d2 = cand_den(2, a1, a2, b1, b2);
            let n3 = cand_num(3, a1, a2, b1, b2);
            let d3 = cand_den(3, a1, a2, b1, b2);
            // step 1: gi1 is minimal among {0, 1}
            assert(cand_le(gi1, 0, a1, a2, b1, b2));
            assert(cand_le(gi1, 1, a1, a2, b1, b2));
            // step 2: gi2 is minimal among {0, 1, 2}
            if cand_lt(2, gi1, a1, a2, b1, b2) {
                lemma_frac_trans(
                    n0,
                    d0,
                    cand_num(gi1, a1, a2, b1, b2),
                    cand_den(gi1, a1, a2, b1, b2),
                    n2,
                    d2,
                );
                lemma_frac_trans(
                    n1,
                    d1,
                    cand_num(gi1, a1, a2, b1, b2),
                    cand_den(gi1, a1, a2, b1, b2),
                    n2,
                    d2,
                );
            }
            assert(cand_le(gi2, 0, a1, a2, b1, b2));
            assert(cand_le(gi2, 1, a1, a2, b1, b2));
            assert(cand_le(gi2, 2, a1, a2, b1, b2));
            // step 3: gbest is minimal among all four
            if cand_lt(3, gi2, a1, a2, b1, b2) {
                lemma_frac_trans(
                    n0,
                    d0,
                    cand_num(gi2, a1, a2, b1, b2),
                    cand_den(gi2, a1, a2, b1, b2),
                    n3,
                    d3,
                );
                lemma_frac_trans(
                    n1,
                    d1,
                    cand_num(gi2, a1, a2, b1, b2),
                    cand_den(gi2, a1, a2, b1, b2),
                    n3,
                    d3,
                );
                lemma_frac_trans(
                    n2,
                    d2,
                    cand_num(gi2, a1, a2, b1, b2),
                    cand_den(gi2, a1, a2, b1, b2),
                    n3,
                    d3,
                );
            }
            assert(cand_le(gbest, j, a1, a2, b1, b2));
        }
    }
    if bi3 == 0 {
        (
            RatPoint { xn: a1.x as i128, yn: a1.y as i128, den: 1 },
            p0,
        )
    } else if bi3 == 1 {
        (
            RatPoint { xn: a2.x as i128, yn: a2.y as i128, den: 1 },
            p1,
        )
    } else if bi3 == 2 {
        (
            p2,
            RatPoint { xn: b1.x as i128, yn: b1.y as i128, den: 1 },
        )
    } else {
        (
            p3,
            RatPoint { xn: b2.x as i128, yn: b2.y as i128, den: 1 },
        )
    }
}

} // verus!
