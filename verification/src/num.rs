//! Integer helpers the geometry code is built on: bounded multiplication,
//! floor and truncating division, and an integer square root.

use vstd::prelude::*;
use vstd::arithmetic::div_mod::lemma_fundamental_div_mod;
use vstd::arithmetic::div_mod::lemma_fundamental_div_mod_converse;

verus! {

/// Quotient of `a / b` rounded toward zero, over the mathematical integers.
pub open spec fn trunc_div(a: int, b: int) -> int {
    if a >= 0 {
        a / b
    } else {
        -((-a) / b)
    }
}

/// `|a|` over the mathematical integers.
pub open spec fn abs_int(a: int) -> int {
    if a >= 0 {
        a
    } else {
        -a
    }
}

/// Bound on a product from bounds on its factors.
pub proof fn lemma_mul_bound(a: int, b: int, aa: int, bb: int) by (nonlinear_arith)
    requires
        -aa <= a <= aa,
        -bb <= b <= bb,
    ensures
        -(aa * bb) <= a * b <= aa * bb,
{
}

/// The square of a nonzero integer is at least one; squares are never negative.
pub proof fn lemma_square_bounds(a: int) by (nonlinear_arith)
    ensures
        a * a >= 0,
        a != 0 ==> a * a >= 1,
{
}

/// Floor division of an `i128` by a positive `i128`.
pub fn div_floor_i128(a: i128, b: i128) -> (q: i128)
    requires
        1 <= b,
        -0x7fffffffffffffffffffffffffffffff <= a,
    ensures
        q == a as int / b as int,
{
    if a >= 0 {
        let n: u128 = a as u128;
        let d: u128 = b as u128;
        let t: u128 = n / d;
        proof {
            lemma_fundamental_div_mod(a as int, b as int);
        }
        t as i128
    } else {
        let n: u128 = (-a) as u128;
        let d: u128 = b as u128;
        let t: u128 = (n + d - 1) / d;
        proof {
            let bi = b as int;
            let ni = n as int;
            let q1 = (ni + bi - 1) / bi;
            lemma_fundamental_div_mod(ni + bi - 1, bi);
            let r1 = (ni + bi - 1) % bi;
            assert(bi * (-q1) == -(bi * q1)) by (nonlinear_arith);
            assert(q1 <= ni) by (nonlinear_arith)
                requires
                    1 <= bi,
                    1 <= ni,
                    bi * q1 == ni + bi - 1 - r1,
                    0 <= r1 < bi,
            ;
            // a == (-q1) * b + (b - 1 - r1) with the remainder in [0, b)
            lemma_fundamental_div_mod_converse(a as int, bi, -q1, bi - 1 - r1);
        }
        -(t as i128)
    }
}

/// Division of an `i128` by a positive `i128`, rounded toward zero.
pub fn div_trunc_i128(a: i128, b: i128) -> (q: i128)
    requires
        1 <= b,
        -0x7fffffffffffffffffffffffffffffff <= a,
    ensures
        q == trunc_div(a as int, b as int),
{
    if a >= 0 {
        let t: u128 = (a as u128) / (b as u128);
        proof {
            lemma_fundamental_div_mod(a as int, b as int);
        }
        t as i128
    } else {
        let t: u128 = ((-a) as u128) / (b as u128);
        proof {
            lemma_fundamental_div_mod((-a) as int, b as int);
        }
        -(t as i128)
    }
}

/// The quotient rounded toward zero never exceeds a bound that the
/// numerator respects times the denominator.
pub proof fn lemma_trunc_div_bound(a: int, b: int, c: int)
    requires
        1 <= b,
        0 <= c,
        -(c * b) <= a <= c * b,
    ensures
        -c <= trunc_div(a, b) <= c,
{
    if a >= 0 {
        lemma_fundamental_div_mod(a, b);
        assert(a / b <= c) by (nonlinear_arith)
            requires
                1 <= b,
                0 <= c,
                a <= c * b,
                a == b * (a / b) + a % b,
                0 <= a % b < b,
        ;
        assert(a / b >= 0) by (nonlinear_arith)
            requires
                1 <= b,
                0 <= a,
                a == b * (a / b) + a % b,
                0 <= a % b < b,
        ;
    } else {
        lemma_fundamental_div_mod(-a, b);
        assert((-a) / b <= c) by (nonlinear_arith)
            requires
                1 <= b,
                0 <= c,
                -a <= c * b,
                -a == b * ((-a) / b) + (-a) % b,
                0 <= (-a) % b < b,
        ;
        assert((-a) / b >= 0) by (nonlinear_arith)
            requires
                1 <= b,
                0 <= -a,
                -a == b * ((-a) / b) + (-a) % b,
                0 <= (-a) % b < b,
        ;
    }
}

/// The quotient rounded toward zero, scaled back up by the denominator,
/// stays within the numerator and misses it by less than the denominator.
pub proof fn lemma_trunc_div_close(a: int, b: int)
    requires
        1 <= b,
    ensures
        abs_int(trunc_div(a, b) * b) <= abs_int(a),
        abs_int(a - trunc_div(a, b) * b) < b,
{
    let n = abs_int(a);
    lemma_fundamental_div_mod(n, b);
    assert(0 <= n / b) by (nonlinear_arith)
        requires
            1 <= b,
            0 <= n,
            n == b * (n / b) + n % b,
            0 <= n % b < b,
    ;
    assert((n / b) * b <= n && n - (n / b) * b < b) by (nonlinear_arith)
        requires
            1 <= b,
            n == b * (n / b) + n % b,
            0 <= n % b < b,
    ;
    if a < 0 {
        assert((-(n / b)) * b == -((n / b) * b)) by (nonlinear_arith);
    }
}

/// A convex combination `ax * d + t * (bx - ax)` with `0 <= t <= d` stays
/// between `lo * d` and `hi * d` when both endpoints are in `[lo, hi]`.
pub proof fn lemma_convex_combo(ax: int, bx: int, t: int, d: int, lo: int, hi: int) by (nonlinear_arith)
    requires
        0 <= t <= d,
        1 <= d,
        lo <= ax <= hi,
        lo <= bx <= hi,
    ensures
        lo * d <= ax * d + t * (bx - ax) <= hi * d,
{
}

/// Multiplying both sides of an inequality by a nonnegative factor.
pub proof fn lemma_scale_le(a: int, b: int, d: int) by (nonlinear_arith)
    requires
        a <= b,
        0 <= d,
    ensures
        a * d <= b * d,
{
}

/// A square bounded by `m^2` bounds the value by `m`.
pub proof fn lemma_abs_from_sq(a: int, m: int) by (nonlinear_arith)
    requires
        0 <= m,
        a * a <= m * m,
    ensures
        -m <= a <= m,
{
}

/// A value bounded by `m` in magnitude has its square bounded by `m^2`.
pub proof fn lemma_sq_from_abs(a: int, m: int)
    requires
        abs_int(a) <= m,
    ensures
        a * a <= m * m,
{
    if a >= 0 {
        assert(a * a <= m * m) by (nonlinear_arith)
            requires
                0 <= a <= m,
        ;
    } else {
        assert(a * a <= m * m) by (nonlinear_arith)
            requires
                -m <= a <= 0,
        ;
    }
}

/// Floor division respects a symmetric bound on the numerator.
pub proof fn lemma_floor_div_bound(a: int, d: int, m: int)
    requires
        1 <= d,
        0 <= m,
        -(m * d) <= a <= m * d,
    ensures
        -m <= a / d <= m,
{
    lemma_fundamental_div_mod(a, d);
    assert(-m <= a / d <= m) by (nonlinear_arith)
        requires
            1 <= d,
            0 <= m,
            -(m * d) <= a <= m * d,
            a == d * (a / d) + a % d,
            0 <= a % d < d,
    ;
}

/// Integer square root, defined by recursion so that contracts can name it.
pub open spec fn isqrt_spec(n: int) -> int
    decreases n,
{
    if n <= 0 {
        0
    } else {
        let r = isqrt_spec(n - 1);
        if (r + 1) * (r + 1) <= n {
            r + 1
        } else {
            r
        }
    }
}

/// `isqrt_spec(n)` really is the floor of the square root of `n`.
pub proof fn lemma_isqrt_spec(n: int)
    requires
        n >= 0,
    ensures
        isqrt_spec(n) >= 0,
        isqrt_spec(n) * isqrt_spec(n) <= n,
        n < (isqrt_spec(n) + 1) * (isqrt_spec(n) + 1),
    decreases n,
{
    if n == 0 {
    } else {
        lemma_isqrt_spec(n - 1);
        let r = isqrt_spec(n - 1);
        if (r + 1) * (r + 1) <= n {
            assert(n - 1 < (r + 1) * (r + 1));
            assert(n < (r + 2) * (r + 2)) by (nonlinear_arith)
                requires
                    r >= 0,
                    n <= (r + 1) * (r + 1),
            ;
        }
    }
}

/// Two integers that both satisfy the floor-square-root property of `n`
/// are equal.
pub proof fn lemma_isqrt_unique(a: int, b: int, n: int) by (nonlinear_arith)
    requires
        a >= 0,
        b >= 0,
        a * a <= n,
        n < (a + 1) * (a + 1),
        b * b <= n,
        n < (b + 1) * (b + 1),
    ensures
        a == b,
{
}

/// Floor of the square root of a `u128`, by binary search.
pub fn isqrt(x: u128) -> (r: u128)
    ensures
        r as int == isqrt_spec(x as int),
        (r as int) * (r as int) <= x as int,
        (x as int) < (r as int + 1) * (r as int + 1),
        r <= 0xffff_ffff_ffff_ffff,
{
    let mut lo: u128 = 0;
    let mut hi: u128 = 0xffff_ffff_ffff_ffff;
    proof {
        assert((0x10000000000000000 as int) * (0x10000000000000000 as int)
            == 0x100000000000000000000000000000000) by (nonlinear_arith);
    }
    while lo < hi
        invariant
            lo <= hi,
            hi <= 0xffff_ffff_ffff_ffff,
            (lo as int) * (lo as int) <= x as int,
            (x as int) < (hi as int + 1) * (hi as int + 1),
        decreases hi - lo,
    {
        let mid: u128 = lo + (hi - lo + 1) / 2;
        proof {
            lemma_mul_bound(mid as int, mid as int, 0xffff_ffff_ffff_ffff, 0xffff_ffff_ffff_ffff);
        }
        if mid * mid <= x {
            lo = mid;
        } else {
            hi = mid - 1;
        }
    }
    proof {
        lemma_isqrt_spec(x as int);
        lemma_isqrt_unique(lo as int, isqrt_spec(x as int), x as int);
    }
    lo
}

} // verus!
