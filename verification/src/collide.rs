//! Capsule collision resolver: given a ball's travel segment and a capsule
//! (spine segment plus radius), decide contact, compute the contact normal,
//! reflect the velocity and propose a corrected position.
//!
//! All outcomes are pinned exactly by the contracts: the corrected position
//! and velocity are stated as integer formulas over the exact rational
//! closest-point pair, an integer square root, and floor/truncating
//! division.

use vstd::prelude::*;
use crate::math::Point2;
use crate::math::RatPoint;
use crate::math::in_range;
use crate::math::rat_bounded;
use crate::math::rat_in_grid;
use crate::math::on_seg_box;
use crate::math::lo2;
use crate::math::hi2;
use crate::math::isect_some;
use crate::math::isect_xn;
use crate::math::isect_yn;
use crate::math::isect_den;
use crate::math::best_cand;
use crate::math::cand_axn;
use crate::math::cand_ayn;
use crate::math::cand_aden;
use crate::math::cand_bxn;
use crate::math::cand_byn;
use crate::math::cand_bden;
use crate::math::proj_xn;
use crate::math::proj_yn;
use crate::math::seg_den;
use crate::math::closest_points_on_segment;
use crate::math::closest_points_on_segments;
use crate::num::trunc_div;
use crate::num::isqrt_spec;
use crate::num::isqrt;
use crate::num::div_floor_i128;
use crate::num::div_trunc_i128;
use crate::num::abs_int;
use crate::num::lemma_mul_bound;
use crate::num::lemma_square_bounds;
use crate::num::lemma_scale_le;
use crate::num::lemma_abs_from_sq;
use crate::num::lemma_sq_from_abs;
use crate::num::lemma_floor_div_bound;
use crate::num::lemma_trunc_div_close;
use crate::num::lemma_isqrt_spec;
use vstd::arithmetic::div_mod::lemma_fundamental_div_mod_converse;

verus! {

/// Largest coordinate magnitude for capsule spine endpoints.
pub const GEOM_MAX: i64 = 16384;

/// Largest radius of a ball or capsule.
pub const RAD_MAX: i64 = 4095;

/// Largest coordinate magnitude for the ball's center and predicted position.
pub const POS_MAX: i64 = 32768;

/// Largest coordinate magnitude of a corrected position.
pub const CENTER_MAX: i64 = 24576;

/// Cap on the squared velocity magnitude (`65536^2`).
pub const VNORM2_MAX: i64 = 4294967296;

/// The moving ball: a center position and a velocity, both on the grid.
#[derive(Clone, Copy, PartialEq, Eq, Structural, Debug)]
pub struct Ball {
    pub center: Point2,
    pub velocity: Point2,
}

pub open spec fn in_geom(p: Point2) -> bool {
    &&& -(GEOM_MAX as int) <= p.x as int <= GEOM_MAX as int
    &&& -(GEOM_MAX as int) <= p.y as int <= GEOM_MAX as int
}

pub open spec fn in_pos(p: Point2) -> bool {
    &&& -(POS_MAX as int) <= p.x as int <= POS_MAX as int
    &&& -(POS_MAX as int) <= p.y as int <= POS_MAX as int
}

pub open spec fn in_center(p: Point2) -> bool {
    &&& -(CENTER_MAX as int) <= p.x as int <= CENTER_MAX as int
    &&& -(CENTER_MAX as int) <= p.y as int <= CENTER_MAX as int
}

/// Squared magnitude of a velocity.
pub open spec fn norm2(v: Point2) -> int {
    v.x * v.x + v.y * v.y
}

pub open spec fn vel_wf(v: Point2) -> bool {
    norm2(v) <= VNORM2_MAX as int
}

// --- the closest pair between travel segment and spine, as spec ----------

/// x numerator of the travel-side point of the closest pair between the
/// ball's travel segment `c -> q` and the spine `cs -> ce`.
pub open spec fn cpair_axn(c: Point2, q: Point2, cs: Point2, ce: Point2) -> int {
    if c == q {
        c.x as int
    } else if isect_some(c, q, cs, ce) {
        isect_xn(c, q, cs, ce)
    } else {
        cand_axn(best_cand(c, q, cs, ce), c, q, cs, ce)
    }
}

pub open spec fn cpair_ayn(c: Point2, q: Point2, cs: Point2, ce: Point2) -> int {
    if c == q {
        c.y as int
    } else if isect_some(c, q, cs, ce) {
        isect_yn(c, q, cs, ce)
    } else {
        cand_ayn(best_cand(c, q, cs, ce), c, q, cs, ce)
    }
}

pub open spec fn cpair_aden(c: Point2, q: Point2, cs: Point2, ce: Point2) -> int {
    if c == q {
        1int
    } else if isect_some(c, q, cs, ce) {
        isect_den(c, q, cs, ce)
    } else {
        cand_aden(best_cand(c, q, cs, ce), c, q, cs, ce)
    }
}

/// x numerator of the spine-side point of the closest pair.
pub open spec fn cpair_bxn(c: Point2, q: Point2, cs: Point2, ce: Point2) -> int {
    if c == q {
        proj_xn(c, cs, ce)
    } else if isect_some(c, q, cs, ce) {
        isect_xn(c, q, cs, ce)
    } else {
        cand_bxn(best_cand(c, q, cs, ce), c, q, cs, ce)
    }
}

pub open spec fn cpair_byn(c: Point2, q: Point2, cs: Point2, ce: Point2) -> int {
    if c == q {
        proj_yn(c, cs, ce)
    } else if isect_some(c, q, cs, ce) {
        isect_yn(c, q, cs, ce)
    } else {
        cand_byn(best_cand(c, q, cs, ce), c, q, cs, ce)
    }
}

pub open spec fn cpair_bden(c: Point2, q: Point2, cs: Point2, ce: Point2) -> int {
    if c == q {
        seg_den(cs, ce)
    } else if isect_some(c, q, cs, ce) {
        isect_den(c, q, cs, ce)
    } else {
        cand_bden(best_cand(c, q, cs, ce), c, q, cs, ce)
    }
}

// --- gap, normal, contact --------------------------------------------------

/// x component of the (unnormalized) separation vector, scaled by both
/// denominators: points from the spine toward the travel segment.
pub open spec fn gap_ux(c: Point2, q: Point2, cs: Point2, ce: Point2) -> int {
    cpair_axn(c, q, cs, ce) * cpair_bden(c, q, cs, ce) - cpair_bxn(c, q, cs, ce) * cpair_aden(
        c,
        q,
        cs,
        ce,
    )
}

pub open spec fn gap_uy(c: Point2, q: Point2, cs: Point2, ce: Point2) -> int {
    cpair_ayn(c, q, cs, ce) * cpair_bden(c, q, cs, ce) - cpair_byn(c, q, cs, ce) * cpair_aden(
        c,
        q,
        cs,
        ce,
    )
}

/// Squared distance between the closest pair, scaled by the square of the
/// product of denominators.  Zero exactly when the travel segment touches
/// the spine.
pub open spec fn res_gap2(c: Point2, q: Point2, cs: Point2, ce: Point2) -> int {
    gap_ux(c, q, cs, ce) * gap_ux(c, q, cs, ce) + gap_uy(c, q, cs, ce) * gap_uy(c, q, cs, ce)
}

/// x component of the contact normal direction (not normalized).
pub open spec fn res_nx(c: Point2, q: Point2, cs: Point2, ce: Point2) -> int {
    if res_gap2(c, q, cs, ce) == 0 {
        0int
    } else {
        gap_ux(c, q, cs, ce)
    }
}

/// y component of the contact normal direction.  When the travel segment
/// touches the spine the normal falls back to a vertical unit vector
/// pointing toward the ball's current center (above the spine: up,
/// otherwise down); this is exact only for horizontal capsules.
pub open spec fn res_ny(c: Point2, q: Point2, cs: Point2, ce: Point2) -> int {
    if res_gap2(c, q, cs, ce) == 0 {
        if c.y > cs.y {
            1int
        } else {
            -1int
        }
    } else {
        gap_uy(c, q, cs, ce)
    }
}

/// The closest distance is strictly below the sum of the radii.
pub open spec fn res_contact(c: Point2, q: Point2, cs: Point2, ce: Point2, rsum: int) -> bool {
    res_gap2(c, q, cs, ce) < (rsum * (cpair_aden(c, q, cs, ce) * cpair_bden(c, q, cs, ce))) * (rsum
        * (cpair_aden(c, q, cs, ce) * cpair_bden(c, q, cs, ce)))
}

/// The velocity points into the surface (negative along the normal).
pub open spec fn res_approach(c: Point2, q: Point2, cs: Point2, ce: Point2, v: Point2) -> bool {
    v.x * res_nx(c, q, cs, ce) + v.y * res_ny(c, q, cs, ce) < 0
}

/// The resolver reports a collision exactly when the capsule is contacted
/// and the ball is moving toward it.
pub open spec fn hit_spec(c: Point2, q: Point2, cs: Point2, ce: Point2, rsum: int, v: Point2) -> bool {
    res_contact(c, q, cs, ce, rsum) && res_approach(c, q, cs, ce, v)
}

// --- the corrected state, as spec ------------------------------------------

/// Floor of the square root of the scaled squared gap.
pub open spec fn res_ell(c: Point2, q: Point2, cs: Point2, ce: Point2) -> int {
    isqrt_spec(res_gap2(c, q, cs, ce))
}

/// Corrected x position: the spine-side closest point pushed out along
/// the normal by the sum of the radii (at least; the integer square root
/// rounds the push distance up), floored to the grid.
pub open spec fn out_px(c: Point2, q: Point2, cs: Point2, ce: Point2, rsum: int) -> int {
    if res_gap2(c, q, cs, ce) == 0 {
        cpair_bxn(c, q, cs, ce) / cpair_bden(c, q, cs, ce)
    } else {
        (cpair_bxn(c, q, cs, ce) * res_ell(c, q, cs, ce) + (rsum * res_nx(c, q, cs, ce))
            * cpair_bden(c, q, cs, ce)) / (cpair_bden(c, q, cs, ce) * res_ell(c, q, cs, ce))
    }
}

/// Corrected y position.
pub open spec fn out_py(c: Point2, q: Point2, cs: Point2, ce: Point2, rsum: int) -> int {
    if res_gap2(c, q, cs, ce) == 0 {
        cpair_byn(c, q, cs, ce) / cpair_bden(c, q, cs, ce) + (if c.y > cs.y {
            rsum
        } else {
            -rsum
        })
    } else {
        (cpair_byn(c, q, cs, ce) * res_ell(c, q, cs, ce) + (rsum * res_ny(c, q, cs, ce))
            * cpair_bden(c, q, cs, ce)) / (cpair_bden(c, q, cs, ce) * res_ell(c, q, cs, ce))
    }
}

/// Velocity along the normal, before reflection.
pub open spec fn res_dvn(c: Point2, q: Point2, cs: Point2, ce: Point2, v: Point2) -> int {
    v.x * res_nx(c, q, cs, ce) + v.y * res_ny(c, q, cs, ce)
}

/// Reflected x velocity: the specular reflection about the normal,
/// computed exactly over rationals and rounded toward zero.
pub open spec fn out_vx(c: Point2, q: Point2, cs: Point2, ce: Point2, v: Point2) -> int {
    if res_gap2(c, q, cs, ce) == 0 {
        v.x as int
    } else {
        trunc_div(
            v.x * res_gap2(c, q, cs, ce) - 2 * (res_dvn(c, q, cs, ce, v) * res_nx(c, q, cs, ce)),
            res_gap2(c, q, cs, ce),
        )
    }
}

/// Reflected y velocity.
pub open spec fn out_vy(c: Point2, q: Point2, cs: Point2, ce: Point2, v: Point2) -> int {
    if res_gap2(c, q, cs, ce) == 0 {
        -(v.y as int)
    } else {
        trunc_div(
            v.y * res_gap2(c, q, cs, ce) - 2 * (res_dvn(c, q, cs, ce, v) * res_ny(c, q, cs, ce)),
            res_gap2(c, q, cs, ce),
        )
    }
}

// --- laws -------------------------------------------------------------------

/// `(a - 2b)^2` expanded.
proof fn lemma_sq_diff(a: int, b: int) by (nonlinear_arith)
    ensures
        (a - 2 * b) * (a - 2 * b) == a * a - 4 * (a * b) + 4 * (b * b),
{
}

/// Products commute and associate.
proof fn lemma_shuffle(p: int, q: int, r: int, s: int) by (nonlinear_arith)
    ensures
        (p * q) * (r * s) == ((p * s) * r) * q,
{
}

/// Multiplication distributes over a sum of scaled terms.
proof fn lemma_dist2(a: int, b: int, c: int, d: int) by (nonlinear_arith)
    ensures
        (a * c) * d + (b * c) * d == ((a + b) * c) * d,
{
}

/// A common factor over two squared components.
proof fn lemma_pyth(c: int, a: int, b: int) by (nonlinear_arith)
    ensures
        ((c * a) * a) + ((c * b) * b) == c * (a * a + b * b),
{
}

/// A square of a product regrouped.
proof fn lemma_sqprod(a: int, k: int) by (nonlinear_arith)
    ensures
        (a * k) * (a * k) == ((a * a) * k) * k,
{
}

/// Core ring identity behind outward motion.
proof fn lemma_reflect_outward_core(vx: int, vy: int, nx: int, ny: int) by (nonlinear_arith)
    ensures
        (vx * (nx * nx + ny * ny) - 2 * ((vx * nx + vy * ny) * nx)) * nx + (vy * (nx * nx + ny
            * ny) - 2 * ((vx * nx + vy * ny) * ny)) * ny == -(vx * nx + vy * ny) * (nx * nx + ny
            * ny),
{
}

/// Speed conservation: the exact specular reflection of `v` about any
/// normal direction `n` preserves the squared magnitude of the velocity,
/// before rounding.  The reflected vector over the common denominator
/// `nn = |n|^2` is `r = v * nn - 2 (v . n) n`, and `|r|^2 == |v|^2 * nn^2`
/// exactly.
pub proof fn lemma_reflection_preserves_speed(
    vx: int,
    vy: int,
    nx: int,
    ny: int,
    nn: int,
    dvn: int,
    rx: int,
    ry: int,
)
    requires
        nn == nx * nx + ny * ny,
        dvn == vx * nx + vy * ny,
        rx == vx * nn - 2 * (dvn * nx),
        ry == vy * nn - 2 * (dvn * ny),
    ensures
        rx * rx + ry * ry == ((vx * vx + vy * vy) * nn) * nn,
{
    lemma_sq_diff(vx * nn, dvn * nx);
    lemma_sq_diff(vy * nn, dvn * ny);
    // middle terms: (vx nn)(dvn nx) + (vy nn)(dvn ny) == (dvn^2) nn
    lemma_shuffle(vx, nn, dvn, nx);
    lemma_shuffle(vy, nn, dvn, ny);
    lemma_dist2(vx * nx, vy * ny, dvn, nn);
    // trailing terms: (dvn nx)^2 + (dvn ny)^2 == (dvn^2) nn
    lemma_sqprod(dvn, nx);
    lemma_sqprod(dvn, ny);
    lemma_pyth(dvn * dvn, nx, ny);
    // leading terms: (vx nn)^2 + (vy nn)^2 == ((vx^2 + vy^2) nn) nn
    lemma_sqprod(vx, nn);
    lemma_sqprod(vy, nn);
    lemma_dist2(vx * vx, vy * vy, nn, nn);
}

/// Outward motion: the exact reflection reverses the velocity component
/// along the normal, so after a resolved collision the ball moves away
/// from the surface: `r . n == -(v . n) * nn`, which is positive whenever
/// the incoming velocity pointed into the surface.
pub proof fn lemma_reflection_outward(
    vx: int,
    vy: int,
    nx: int,
    ny: int,
    nn: int,
    dvn: int,
    rx: int,
    ry: int,
)
    requires
        nn == nx * nx + ny * ny,
        dvn == vx * nx + vy * ny,
        rx == vx * nn - 2 * (dvn * nx),
        ry == vy * nn - 2 * (dvn * ny),
    ensures
        rx * nx + ry * ny == -dvn * nn,
{
    lemma_reflect_outward_core(vx, vy, nx, ny);
}

/// The rounded reflection never gains speed: squares bounded through the
/// common denominator.
proof fn lemma_norm_div(ox: int, oy: int, rx: int, ry: int, nn: int, s: int) by (nonlinear_arith)
    requires
        1 <= nn,
        0 <= s,
        (ox * nn) * (ox * nn) <= rx * rx,
        (oy * nn) * (oy * nn) <= ry * ry,
        rx * rx + ry * ry == (s * nn) * nn,
    ensures
        ox * ox + oy * oy <= s,
{
}

/// A truncated quotient's contribution to a dot product, bounded from
/// below through the common denominator.
proof fn lemma_trunc_dot_lower(o: int, r: int, nn: int, n: int, an: int) by (nonlinear_arith)
    requires
        1 <= nn,
        r - nn < o * nn,
        o * nn < r + nn,
        -an <= n <= an,
        0 <= an,
    ensures
        (o * n) * nn >= r * n - nn * an,
{
}

/// Magnitude squared equals the square of the magnitude.
proof fn lemma_abs_sq(a: int)
    ensures
        abs_int(a) * abs_int(a) == a * a,
{
    if a < 0 {
        assert((-a) * (-a) == a * a) by (nonlinear_arith);
    }
}

/// Cross-difference of two grid-ranged rational points, at least one of
/// which is a grid point (or the two are equal), stays within `2^52`.
proof fn lemma_cross_diff_bound(p1: RatPoint, p2: RatPoint)
    requires
        rat_bounded(p1),
        rat_bounded(p2),
        rat_in_grid(p1),
        rat_in_grid(p2),
        p1.den == 1 || p2.den == 1 || p1 == p2,
    ensures
        -4503599627370496 <= p1.xn * p2.den - p2.xn * p1.den <= 4503599627370496,
        -4503599627370496 <= p1.yn * p2.den - p2.yn * p1.den <= 4503599627370496,
{
    if p1.den == 1 {
        lemma_mul_bound(p1.xn as int, p2.den as int, 65536, 34359738368);
        lemma_mul_bound(p1.yn as int, p2.den as int, 65536, 34359738368);
        lemma_mul_bound(p2.xn as int, p1.den as int, 2251799813685248, 1);
        lemma_mul_bound(p2.yn as int, p1.den as int, 2251799813685248, 1);
    } else if p2.den == 1 {
        lemma_mul_bound(p2.xn as int, p1.den as int, 65536, 34359738368);
        lemma_mul_bound(p2.yn as int, p1.den as int, 65536, 34359738368);
        lemma_mul_bound(p1.xn as int, p2.den as int, 2251799813685248, 1);
        lemma_mul_bound(p1.yn as int, p2.den as int, 2251799813685248, 1);
    }
}

/// A component of a vector is bounded by the floor square root of the
/// squared magnitude, rounded up.
proof fn lemma_comp_le_root(u: int, w: int, g: int, ell: int) by (nonlinear_arith)
    requires
        g == u * u + w * w,
        g < (ell + 1) * (ell + 1),
        0 <= ell,
    ensures
        -ell <= u <= ell,
        -ell <= w <= ell,
{
}

/// Multiplication distributes over addition.
proof fn lemma_dist_add(a: int, b: int, c: int) by (nonlinear_arith)
    ensures
        (a + b) * c == a * c + b * c,
{
}

/// Products reassociate around a common factor.
proof fn lemma_assoc3(a: int, b: int, c: int) by (nonlinear_arith)
    ensures
        (a * b) * c == (a * c) * b,
{
}

/// A scaled difference distributes.
proof fn lemma_bridge(o: int, bd: int, l: int, bx: int) by (nonlinear_arith)
    ensures
        (o * bd - bx) * l == o * (bd * l) - bx * l,
{
}

/// The floored push-out keeps at least `rsum - 2` of the exact push along
/// the normal direction.
proof fn lemma_push_out(
    ex: int,
    ey: int,
    nx: int,
    ny: int,
    rs: int,
    bd: int,
    ell: int,
    g: int,
)
    requires
        1 <= bd,
        1 <= ell,
        1 <= rs,
        g == nx * nx + ny * ny,
        ell * ell <= g,
        -ell <= nx <= ell,
        -ell <= ny <= ell,
        -(bd * ell) < ex <= 0,
        -(bd * ell) < ey <= 0,
    ensures
        (ex + (rs * nx) * bd) * nx + (ey + (rs * ny) * bd) * ny >= ((rs - 2) * bd) * g,
{
    lemma_dist_add(ex, (rs * nx) * bd, nx);
    lemma_dist_add(ey, (rs * ny) * bd, ny);
    assert(((rs * nx) * bd) * nx == (rs * bd) * (nx * nx)) by (nonlinear_arith);
    assert(((rs * ny) * bd) * ny == (rs * bd) * (ny * ny)) by (nonlinear_arith);
    lemma_mul_bound(ex, nx, bd * ell, ell);
    lemma_mul_bound(ey, ny, bd * ell, ell);
    assert((bd * ell) * ell <= bd * g) by (nonlinear_arith)
        requires
            ell * ell <= g,
            1 <= bd,
            1 <= ell,
    ;
    assert((rs * bd) * (nx * nx) + (rs * bd) * (ny * ny) == (rs * bd) * g) by (nonlinear_arith)
        requires
            g == nx * nx + ny * ny,
    ;
    assert((rs * bd) * g - (bd * g) - (bd * g) == ((rs - 2) * bd) * g) by (nonlinear_arith);
}

/// The push-out numerator stays within `CENTER_MAX` denominators.
proof fn lemma_push_num_bound(xn: int, den: int, ell: int, rs: int, nx: int) by (nonlinear_arith)
    requires
        1 <= den,
        1 <= ell,
        -(16384 * den) <= xn <= 16384 * den,
        1 <= rs <= 8190,
        -ell <= nx <= ell,
    ensures
        -(24576 * (den * ell)) <= xn * ell + (rs * nx) * den <= 24576 * (den * ell),
        1 <= den * ell,
{
}

// --- the resolver ------------------------------------------------------------

/// Detect and resolve a collision of the moving ball against one capsule.
///
/// `ball.center -> *ball_new_pos` is the travel segment of this tick.  On a
/// hit, `*ball_new_pos` becomes the corrected position (pushed out of the
/// capsule along the contact normal) and the ball's velocity is reflected;
/// otherwise both are left untouched.  Returns whether a hit happened, so
/// the caller can raise the hit signal.
#[verifier::rlimit(100)]
pub fn collide_ball_with_capsule(
    capsule_start: Point2,
    capsule_end: Point2,
    capsule_radius: i64,
    ball_radius: i64,
    ball: &mut Ball,
    ball_new_pos: &mut Point2,
) -> (hit: bool)
    requires
        in_geom(capsule_start),
        in_geom(capsule_end),
        capsule_start != capsule_end,
        1 <= capsule_radius <= RAD_MAX,
        1 <= ball_radius <= RAD_MAX,
        in_pos(old(ball).center),
        in_pos(*old(ball_new_pos)),
        vel_wf(old(ball).velocity),
    ensures
        final(ball).center == old(ball).center,
        hit == hit_spec(
            old(ball).center,
            *old(ball_new_pos),
            capsule_start,
            capsule_end,
            ball_radius + capsule_radius,
            old(ball).velocity,
        ),
        !hit ==> *final(ball) == *old(ball) && *final(ball_new_pos) == *old(ball_new_pos),
        hit ==> final(ball_new_pos).x as int == out_px(
            old(ball).center,
            *old(ball_new_pos),
            capsule_start,
            capsule_end,
            ball_radius + capsule_radius,
        ),
        hit ==> final(ball_new_pos).y as int == out_py(
            old(ball).center,
            *old(ball_new_pos),
            capsule_start,
            capsule_end,
            ball_radius + capsule_radius,
        ),
        hit ==> final(ball).velocity.x as int == out_vx(
            old(ball).center,
            *old(ball_new_pos),
            capsule_start,
            capsule_end,
            old(ball).velocity,
        ),
        hit ==> final(ball).velocity.y as int == out_vy(
            old(ball).center,
            *old(ball_new_pos),
            capsule_start,
            capsule_end,
            old(ball).velocity,
        ),
        hit ==> in_center(*final(ball_new_pos)),
        hit ==> norm2(final(ball).velocity) <= norm2(old(ball).velocity),
        hit ==> vel_wf(final(ball).velocity),
        // outward motion: the reflection reverses the inward component,
        // exactly when the travel touches the spine, and up to one grid
        // unit per normal component after rounding otherwise
        hit ==> res_dvn(
            old(ball).center,
            *old(ball_new_pos),
            capsule_start,
            capsule_end,
            old(ball).velocity,
        ) <= -1,
        hit && res_gap2(old(ball).center, *old(ball_new_pos), capsule_start, capsule_end) == 0
            ==> final(ball).velocity.x * res_nx(
            old(ball).center,
            *old(ball_new_pos),
            capsule_start,
            capsule_end,
        ) + final(ball).velocity.y * res_ny(
            old(ball).center,
            *old(ball_new_pos),
            capsule_start,
            capsule_end,
        ) == -res_dvn(
            old(ball).center,
            *old(ball_new_pos),
            capsule_start,
            capsule_end,
            old(ball).velocity,
        ),
        hit && res_gap2(old(ball).center, *old(ball_new_pos), capsule_start, capsule_end) != 0
            ==> final(ball).velocity.x * res_nx(
            old(ball).center,
            *old(ball_new_pos),
            capsule_start,
            capsule_end,
        ) + final(ball).velocity.y * res_ny(
            old(ball).center,
            *old(ball_new_pos),
            capsule_start,
            capsule_end,
        ) >= -res_dvn(
            old(ball).center,
            *old(ball_new_pos),
            capsule_start,
            capsule_end,
            old(ball).velocity,
        ) - (abs_int(
            res_nx(old(ball).center, *old(ball_new_pos), capsule_start, capsule_end),
        ) + abs_int(res_ny(old(ball).center, *old(ball_new_pos), capsule_start, capsule_end))),
        // non-penetration: away from the touching case, the corrected
        // position sits at least (almost) the sum of the radii from the
        // contact point, measured along the contact normal; the floor to
        // the grid costs at most two grid units
        hit && res_gap2(old(ball).center, *old(ball_new_pos), capsule_start, capsule_end) != 0
            ==> ((final(ball_new_pos).x * cpair_bden(
            old(ball).center,
            *old(ball_new_pos),
            capsule_start,
            capsule_end,
        ) - cpair_bxn(old(ball).center, *old(ball_new_pos), capsule_start, capsule_end)) * res_nx(
            old(ball).center,
            *old(ball_new_pos),
            capsule_start,
            capsule_end,
        ) + (final(ball_new_pos).y * cpair_bden(
            old(ball).center,
            *old(ball_new_pos),
            capsule_start,
            capsule_end,
        ) - cpair_byn(old(ball).center, *old(ball_new_pos), capsule_start, capsule_end)) * res_ny(
            old(ball).center,
            *old(ball_new_pos),
            capsule_start,
            capsule_end,
        )) * res_ell(old(ball).center, *old(ball_new_pos), capsule_start, capsule_end) >= (((
        ball_radius + capsule_radius) - 2) * cpair_bden(
            old(ball).center,
            *old(ball_new_pos),
            capsule_start,
            capsule_end,
        )) * res_gap2(old(ball).center, *old(ball_new_pos), capsule_start, capsule_end),
        // touching a horizontal spine: the ball is pushed to exactly the
        // sum of the radii away from the spine's line
        hit && res_gap2(old(ball).center, *old(ball_new_pos), capsule_start, capsule_end) == 0
            && capsule_start.y == capsule_end.y ==> final(ball_new_pos).y as int == capsule_start.y
            + (if old(ball).center.y > capsule_start.y {
            (ball_radius + capsule_radius) as int
        } else {
            -((ball_radius + capsule_radius) as int)
        }),
{
    let ghost c = ball.center;
    let ghost q = *ball_new_pos;
    let ghost cs = capsule_start;
    let ghost ce = capsule_end;
    let ghost vold = ball.velocity;
    let rsum: i64 = ball_radius + capsule_radius;

    let (p1, p2): (RatPoint, RatPoint) = if ball.center == *ball_new_pos {
        let pr = closest_points_on_segment(ball.center, capsule_start, capsule_end);
        (
            RatPoint { xn: ball.center.x as i128, yn: ball.center.y as i128, den: 1 },
            pr,
        )
    } else {
        closest_points_on_segments(ball.center, *ball_new_pos, capsule_start, capsule_end)
    };
    proof {
        assert(p1.xn as int == cpair_axn(c, q, cs, ce));
        assert(p1.yn as int == cpair_ayn(c, q, cs, ce));
        assert(p1.den as int == cpair_aden(c, q, cs, ce));
        assert(p2.xn as int == cpair_bxn(c, q, cs, ce));
        assert(p2.yn as int == cpair_byn(c, q, cs, ce));
        assert(p2.den as int == cpair_bden(c, q, cs, ce));
        assert(p1.den == 1 || p2.den == 1 || p1 == p2);
        lemma_cross_diff_bound(p1, p2);
        lemma_mul_bound(p1.xn as int, p2.den as int, 9007199254740992, 34359738368);
        lemma_mul_bound(p1.yn as int, p2.den as int, 9007199254740992, 34359738368);
        lemma_mul_bound(p2.xn as int, p1.den as int, 9007199254740992, 34359738368);
        lemma_mul_bound(p2.yn as int, p1.den as int, 9007199254740992, 34359738368);
    }
    let ux: i128 = p1.xn * p2.den - p2.xn * p1.den;
    let uy: i128 = p1.yn * p2.den - p2.yn * p1.den;
    proof {
        lemma_mul_bound(ux as int, ux as int, 4503599627370496, 4503599627370496);
        lemma_mul_bound(uy as int, uy as int, 4503599627370496, 4503599627370496);
        lemma_square_bounds(ux as int);
        lemma_square_bounds(uy as int);
    }
    let gap2: i128 = ux * ux + uy * uy;
    let contact: bool = if gap2 == 0 {
        proof {
            let gd = cpair_aden(c, q, cs, ce) * cpair_bden(c, q, cs, ce);
            assert(1 <= gd && 1 <= (rsum as int) * gd && 1 <= ((rsum as int) * gd) * ((rsum as int)
                * gd)) by (nonlinear_arith)
                requires
                    gd == cpair_aden(c, q, cs, ce) * cpair_bden(c, q, cs, ce),
                    1 <= cpair_aden(c, q, cs, ce),
                    1 <= cpair_bden(c, q, cs, ce),
                    1 <= rsum as int,
            ;
        }
        true
    } else {
        proof {
            if p1.den == 1 {
                lemma_mul_bound(p1.den as int, p2.den as int, 1, 34359738368);
            } else {
                assert(p2.den == 1);
                lemma_mul_bound(p1.den as int, p2.den as int, 34359738368, 1);
            }
        }
        let gden: i128 = p1.den * p2.den;
        proof {
            lemma_mul_bound(rsum as int, gden as int, 8190, 34359738368);
        }
        let rg: i128 = rsum as i128 * gden;
        proof {
            lemma_mul_bound(rg as int, rg as int, 281406257233920, 281406257233920);
        }
        gap2 < rg * rg
    };
    if !contact {
        return false;
    }
    let (nx, ny): (i128, i128) = if gap2 == 0 {
        (0, if ball.center.y > capsule_start.y { 1 } else { -1 })
    } else {
        (ux, uy)
    };
    proof {
        assert(nx as int == res_nx(c, q, cs, ce));
        assert(ny as int == res_ny(c, q, cs, ce));
        // velocity components are bounded by the norm cap
        lemma_square_bounds(vold.x as int);
        lemma_square_bounds(vold.y as int);
        lemma_abs_from_sq(vold.x as int, 65536);
        lemma_abs_from_sq(vold.y as int, 65536);
        lemma_mul_bound(vold.x as int, nx as int, 65536, 4503599627370496);
        lemma_mul_bound(vold.y as int, ny as int, 65536, 4503599627370496);
    }
    let dvn: i128 = ball.velocity.x as i128 * nx + ball.velocity.y as i128 * ny;
    if dvn >= 0 {
        return false;
    }

    // corrected position: push the spine-side closest point out along the
    // normal by the sum of the radii
    proof {
        lemma_scale_le(hi2(cs.x as int, ce.x as int), 16384, p2.den as int);
        lemma_scale_le(-16384, lo2(cs.x as int, ce.x as int), p2.den as int);
        lemma_scale_le(hi2(cs.y as int, ce.y as int), 16384, p2.den as int);
        lemma_scale_le(-16384, lo2(cs.y as int, ce.y as int), p2.den as int);
    }
    let new_pos: Point2 = if gap2 == 0 {
        proof {
            lemma_floor_div_bound(p2.xn as int, p2.den as int, 16384);
            lemma_floor_div_bound(p2.yn as int, p2.den as int, 16384);
            if cs.y == ce.y {
                lemma_fundamental_div_mod_converse(p2.yn as int, p2.den as int, cs.y as int, 0);
            }
        }
        let bx: i128 = div_floor_i128(p2.xn, p2.den);
        let by: i128 = div_floor_i128(p2.yn, p2.den);
        proof {
            assert(ny == 1 || ny == -1);
            if c.y > cs.y {
                assert((ny as int) * (rsum as int) == rsum as int) by (nonlinear_arith)
                    requires
                        ny as int == 1,
                ;
            } else {
                assert((ny as int) * (rsum as int) == -(rsum as int)) by (nonlinear_arith)
                    requires
                        ny as int == -1,
                ;
            }
        }
        let off: i128 = ny * (rsum as i128);
        Point2 { x: bx as i64, y: (by + off) as i64 }
    } else {
        let ell128: u128 = isqrt(gap2 as u128);
        let ell: i128 = ell128 as i128;
        proof {
            assert(1 <= ell as int) by (nonlinear_arith)
                requires
                    (ell as int) * (ell as int) <= gap2 as int,
                    (gap2 as int) < (ell as int + 1) * (ell as int + 1),
                    0 <= ell as int,
                    1 <= gap2 as int,
            ;
            lemma_comp_le_root(nx as int, ny as int, gap2 as int, ell as int);
            lemma_abs_from_sq(ell as int, 9007199254740992);
            lemma_push_num_bound(p2.xn as int, p2.den as int, ell as int, rsum as int, nx as int);
            lemma_push_num_bound(p2.yn as int, p2.den as int, ell as int, rsum as int, ny as int);
            lemma_mul_bound(p2.xn as int, ell as int, 2251799813685248, 9007199254740992);
            lemma_mul_bound(p2.yn as int, ell as int, 2251799813685248, 9007199254740992);
            lemma_mul_bound(rsum as int, nx as int, 8190, 4503599627370496);
            lemma_mul_bound(rsum as int, ny as int, 8190, 4503599627370496);
            lemma_mul_bound(rsum as int * nx as int, p2.den as int, 36893488147419103232, 34359738368);
            lemma_mul_bound(rsum as int * ny as int, p2.den as int, 36893488147419103232, 34359738368);
            lemma_mul_bound(p2.den as int, ell as int, 34359738368, 9007199254740992);
        }
        let dd: i128 = p2.den * ell;
        let numx: i128 = p2.xn * ell + (rsum as i128 * nx) * p2.den;
        let numy: i128 = p2.yn * ell + (rsum as i128 * ny) * p2.den;
        proof {
            lemma_floor_div_bound(numx as int, dd as int, 24576);
            lemma_floor_div_bound(numy as int, dd as int, 24576);
        }
        let ox: i128 = div_floor_i128(numx, dd);
        let oy: i128 = div_floor_i128(numy, dd);
        proof {
            // the floor keeps the push along the normal within two grid
            // units of the exact push of the radius sum
            vstd::arithmetic::div_mod::lemma_fundamental_div_mod(numx as int, dd as int);
            vstd::arithmetic::div_mod::lemma_fundamental_div_mod(numy as int, dd as int);
            assert(ox as int * dd as int == dd as int * (ox as int)) by (nonlinear_arith);
            assert(oy as int * dd as int == dd as int * (oy as int)) by (nonlinear_arith);
            let exv = ox as int * dd as int - numx as int;
            let eyv = oy as int * dd as int - numy as int;
            lemma_push_out(
                exv,
                eyv,
                nx as int,
                ny as int,
                rsum as int,
                p2.den as int,
                ell as int,
                gap2 as int,
            );
            lemma_bridge(ox as int, p2.den as int, ell as int, p2.xn as int);
            lemma_bridge(oy as int, p2.den as int, ell as int, p2.yn as int);
            assert((ox as int * p2.den as int - p2.xn as int) * ell as int == exv + (rsum as int
                * nx as int) * p2.den as int);
            assert((oy as int * p2.den as int - p2.yn as int) * ell as int == eyv + (rsum as int
                * ny as int) * p2.den as int);
            lemma_assoc3(ox as int * p2.den as int - p2.xn as int, nx as int, ell as int);
            lemma_assoc3(oy as int * p2.den as int - p2.yn as int, ny as int, ell as int);
            lemma_dist_add(
                (ox as int * p2.den as int - p2.xn as int) * nx as int,
                (oy as int * p2.den as int - p2.yn as int) * ny as int,
                ell as int,
            );
        }
        Point2 { x: ox as i64, y: oy as i64 }
    };

    // reflected velocity
    let new_vel: Point2 = if gap2 == 0 {
        Point2 { x: ball.velocity.x, y: -ball.velocity.y }
    } else {
        let nn: i128 = gap2;
        proof {
            lemma_mul_bound(vold.x as int, nn as int, 65536, 40564819207303340847894502572032);
            lemma_mul_bound(vold.y as int, nn as int, 65536, 40564819207303340847894502572032);
            lemma_mul_bound(dvn as int, nx as int, 590295810358705651712, 4503599627370496);
            lemma_mul_bound(dvn as int, ny as int, 590295810358705651712, 4503599627370496);
        }
        let rx: i128 = ball.velocity.x as i128 * nn - 2 * (dvn * nx);
        let ry: i128 = ball.velocity.y as i128 * nn - 2 * (dvn * ny);
        let ovx: i128 = div_trunc_i128(rx, nn);
        let ovy: i128 = div_trunc_i128(ry, nn);
        proof {
            lemma_reflection_preserves_speed(
                vold.x as int,
                vold.y as int,
                nx as int,
                ny as int,
                nn as int,
                dvn as int,
                rx as int,
                ry as int,
            );
            lemma_trunc_div_close(rx as int, nn as int);
            lemma_trunc_div_close(ry as int, nn as int);
            lemma_sq_from_abs(ovx as int * nn as int, abs_int(rx as int));
            lemma_sq_from_abs(ovy as int * nn as int, abs_int(ry as int));
            lemma_abs_sq(rx as int);
            lemma_abs_sq(ry as int);
            lemma_norm_div(
                ovx as int,
                ovy as int,
                rx as int,
                ry as int,
                nn as int,
                norm2(vold),
            );
            lemma_square_bounds(ovx as int);
            lemma_square_bounds(ovy as int);
            lemma_abs_from_sq(ovx as int, 65536);
            lemma_abs_from_sq(ovy as int, 65536);
            // outward motion after rounding: the dot with the normal
            // drops below the exact reflection's by at most one grid
            // unit per normal component
            lemma_reflection_outward(
                vold.x as int,
                vold.y as int,
                nx as int,
                ny as int,
                nn as int,
                dvn as int,
                rx as int,
                ry as int,
            );
            lemma_trunc_dot_lower(
                ovx as int,
                rx as int,
                nn as int,
                nx as int,
                abs_int(nx as int),
            );
            lemma_trunc_dot_lower(
                ovy as int,
                ry as int,
                nn as int,
                ny as int,
                abs_int(ny as int),
            );
            assert(ovx as int * nx as int + ovy as int * ny as int >= -(dvn as int) - (abs_int(
                nx as int,
            ) + abs_int(ny as int))) by (nonlinear_arith)
                requires
                    1 <= nn as int,
                    (ovx as int * nx as int) * nn as int >= rx as int * nx as int - nn as int
                        * abs_int(nx as int),
                    (ovy as int * ny as int) * nn as int >= ry as int * ny as int - nn as int
                        * abs_int(ny as int),
                    rx as int * nx as int + ry as int * ny as int == -(dvn as int) * nn as int,
            ;
        }
        Point2 { x: ovx as i64, y: ovy as i64 }
    };
    proof {
        if gap2 == 0 {
            assert((-(vold.y as int)) * (-(vold.y as int)) == vold.y * vold.y)
                by (nonlinear_arith);
            assert((-(vold.y as int)) * ny as int == -(vold.y as int * ny as int))
                by (nonlinear_arith);
        }
    }
    ball.velocity = new_vel;
    *ball_new_pos = new_pos;
    true
}

} // verus!
