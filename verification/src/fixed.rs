//! Fixed-point scalar arithmetic.
//!
//! Every scene-space scalar (a coordinate, a color channel, a ray parameter)
//! is an `i64` storing `value * SCALE`. Multiplication and division of two
//! such scalars rescale their result back by `SCALE`, rounding toward zero;
//! `tdiv` is the specification of that rounding and every executable helper
//! here is proved to compute it exactly.

use vstd::prelude::*;
use vstd::arithmetic::div_mod::{
    lemma_div_is_ordered, lemma_div_multiples_vanish, lemma_div_pos_is_pos,
    lemma_div_nonincreasing,
};

verus! {

/// Number of fixed-point steps per world unit: a scene-space value `v` is
/// stored as the `i64` holding `v * SCALE`.
pub const SCALE: i64 = 65536;

/// Truncating (round-toward-zero) integer division: the rounding used by all
/// executable divisions in this crate.
pub open spec fn tdiv(n: int, d: int) -> int {
    if (n < 0) != (d < 0) {
        -(vstd::math::abs(n) as int / vstd::math::abs(d) as int)
    } else {
        vstd::math::abs(n) as int / vstd::math::abs(d) as int
    }
}

/// The magnitude of a truncating quotient never exceeds the magnitude of the
/// numerator (for a nonzero divisor), and is bounded by `|n| / |d|`.
pub proof fn lemma_tdiv_mag(n: int, d: int)
    requires
        d != 0,
    ensures
        vstd::math::abs(tdiv(n, d)) == vstd::math::abs(n) / vstd::math::abs(d),
        vstd::math::abs(tdiv(n, d)) <= vstd::math::abs(n),
        n >= 0 && d > 0 ==> 0 <= tdiv(n, d) <= n,
        n <= 0 && d > 0 ==> n <= tdiv(n, d) <= 0,
{
    let na = vstd::math::abs(n) as int;
    let da = vstd::math::abs(d) as int;
    lemma_div_pos_is_pos(na, da);
    lemma_div_nonincreasing(na, da);
}

/// Truncating division on `i128`, proved equal to `tdiv`.
///
/// The extremes `i128::MIN` are excluded so that taking magnitudes cannot
/// overflow; every caller works with products of `i64` values, which stay
/// far inside that range.
pub fn tdiv_i128(n: i128, d: i128) -> (q: i128)
    requires
        d != 0,
        n > i128::MIN,
        d > i128::MIN,
    ensures
        q == tdiv(n as int, d as int),
{
    let nm: u128 = if n >= 0 { n as u128 } else { (-n) as u128 };
    let dm: u128 = if d >= 0 { d as u128 } else { (-d) as u128 };
    let qm: u128 = nm / dm;
    proof {
        assert(nm as int == vstd::math::abs(n as int));
        assert(dm as int == vstd::math::abs(d as int));
        lemma_div_nonincreasing(nm as int, dm as int);
        lemma_div_pos_is_pos(nm as int, dm as int);
    }
    if (n < 0) != (d < 0) {
        -(qm as i128)
    } else {
        qm as i128
    }
}

/// `sqrt_floor(n)` is the greatest `r >= 0` with `r * r <= n` (and `0` for
/// negative `n`): the mathematical meaning of the executable square root.
pub open spec fn sqrt_floor(n: int) -> int
    decreases n,
{
    if n <= 0 {
        0
    } else {
        let r = sqrt_floor(n - 1);
        if (r + 1) * (r + 1) <= n {
            r + 1
        } else {
            r
        }
    }
}

pub proof fn lemma_sqrt_floor_bounds(n: int)
    requires
        n >= 0,
    ensures
        0 <= sqrt_floor(n),
        sqrt_floor(n) * sqrt_floor(n) <= n,
        n < (sqrt_floor(n) + 1) * (sqrt_floor(n) + 1),
    decreases n,
{
    if n > 0 {
        lemma_sqrt_floor_bounds(n - 1);
        let r = sqrt_floor(n - 1);
        if (r + 1) * (r + 1) <= n {
            assert(n == (r + 1) * (r + 1));
            assert((r + 2) * (r + 2) > n) by (nonlinear_arith)
                requires
                    n == (r + 1) * (r + 1),
                    r >= 0,
            ;
        }
    }
}

pub proof fn lemma_sqrt_floor_unique(n: int, r: int)
    requires
        0 <= r,
        r * r <= n,
        n < (r + 1) * (r + 1),
    ensures
        r == sqrt_floor(n),
{
    lemma_sqrt_floor_bounds(n);
    let s = sqrt_floor(n);
    if r < s {
        assert((r + 1) * (r + 1) <= s * s) by (nonlinear_arith)
            requires
                0 <= r,
                r < s,
        ;
    }
    if s < r {
        assert((s + 1) * (s + 1) <= r * r) by (nonlinear_arith)
            requires
                0 <= s,
                s < r,
        ;
    }
}

/// The floor square root never decreases when its argument grows.
pub proof fn lemma_sqrt_floor_monotone(m: int, n: int)
    requires
        0 <= m <= n,
    ensures
        sqrt_floor(m) <= sqrt_floor(n),
{
    lemma_sqrt_floor_bounds(m);
    lemma_sqrt_floor_bounds(n);
    let a = sqrt_floor(m);
    let b = sqrt_floor(n);
    if b < a {
        assert((b + 1) * (b + 1) <= a * a) by (nonlinear_arith)
            requires
                0 <= b,
                b < a,
        ;
    }
}

/// Binary-search floor square root over the full `u128` range.
pub fn isqrt_u128(n: u128) -> (r: u64)
    ensures
        r as int == sqrt_floor(n as int),
        (r as int) * (r as int) <= n as int,
        (n as int) < (r as int + 1) * (r as int + 1),
{
    let mut lo: u128 = 0;
    let mut hi: u128 = 0x1_0000_0000_0000_0000;
    while lo + 1 < hi
        invariant
            lo < hi,
            hi <= 0x1_0000_0000_0000_0000,
            (lo as int) * (lo as int) <= n as int,
            (n as int) < (hi as int) * (hi as int),
        decreases hi - lo,
    {
        let mid: u128 = lo + (hi - lo) / 2;
        assert(lo < mid < hi);
        assert(mid * mid <= 0xffff_ffff_ffff_ffff * 0xffff_ffff_ffff_ffff) by (nonlinear_arith)
            requires
                0 <= mid <= 0xffff_ffff_ffff_ffff,
        ;
        let sq: u128 = mid * mid;
        if sq <= n {
            lo = mid;
        } else {
            hi = mid;
        }
    }
    proof {
        lemma_sqrt_floor_unique(n as int, lo as int);
        lemma_sqrt_floor_bounds(n as int);
    }
    lo as u64
}

/// Fixed-point square root: `sqrt_floor(x * SCALE)`, so that the result is
/// again a fixed-point scalar (the root of `x / SCALE` rescaled by `SCALE`,
/// rounded down).
pub fn sqrt_fp(x: i64) -> (r: i64)
    requires
        x >= 0,
    ensures
        r == sqrt_floor(x * SCALE),
        0 <= r < 0x100_0000_0000,
{
    let n: u128 = (x as u128) * 65536;
    let r: u64 = isqrt_u128(n);
    proof {
        assert(n < 0x1_0000_0000_0000_0000_0000);
        if r >= 0x100_0000_0000 {
            assert(false) by (nonlinear_arith)
                requires
                    r as int >= 0x100_0000_0000,
                    (r as int) * (r as int) <= n as int,
                    (n as int) < 0x1_0000_0000_0000_0000_0000,
            ;
        }
    }
    r as i64
}

/// Fixed-point product: `a * b` rescaled by `SCALE`, rounded toward zero.
pub fn mul_fp(a: i64, b: i64) -> (r: i64)
    requires
        i64::MIN <= tdiv(a * b, SCALE as int) <= i64::MAX,
    ensures
        r as int == tdiv(a * b, SCALE as int),
{
    proof {
        assert(-(0x8000_0000_0000_0000int * 0x8000_0000_0000_0000int) <= (a as int) * (b as int)
            <= 0x8000_0000_0000_0000int * 0x8000_0000_0000_0000int) by (nonlinear_arith)
            requires
                -0x8000_0000_0000_0000 <= a as int <= 0x7fff_ffff_ffff_ffff,
                -0x8000_0000_0000_0000 <= b as int <= 0x7fff_ffff_ffff_ffff,
        ;
    }
    let p: i128 = (a as i128) * (b as i128);
    let q: i128 = tdiv_i128(p, SCALE as i128);
    q as i64
}

/// Fixed-point quotient: `a / b` rescaled by `SCALE`, rounded toward zero.
pub fn div_fp(a: i64, b: i64) -> (r: i64)
    requires
        b != 0,
        i64::MIN <= tdiv(a * SCALE, b as int) <= i64::MAX,
    ensures
        r as int == tdiv(a * SCALE, b as int),
{
    let p: i128 = (a as i128) * (SCALE as i128);
    let q: i128 = tdiv_i128(p, b as i128);
    q as i64
}

/// Truncating division is odd in its numerator: negating the numerator
/// negates the quotient.
pub proof fn lemma_tdiv_neg(n: int, d: int)
    requires
        d != 0,
    ensures
        tdiv(-n, d) == -tdiv(n, d),
{
    vstd::arithmetic::div_mod::lemma_div_of0(vstd::math::abs(d) as int);
}

/// Truncating division on `i64` by a positive divisor, proved equal to
/// `tdiv`.
pub fn tdiv_i64(n: i64, d: i64) -> (q: i64)
    requires
        d > 0,
    ensures
        q == tdiv(n as int, d as int),
{
    proof {
        lemma_tdiv_mag(n as int, d as int);
    }
    let q: i128 = tdiv_i128(n as i128, d as i128);
    q as i64
}

/// Half of a scalar, rounding toward zero.
pub fn half(a: i64) -> (r: i64)
    ensures
        r == tdiv(a as int, 2),
{
    proof {
        lemma_tdiv_mag(a as int, 2);
    }
    let q: i128 = tdiv_i128(a as i128, 2);
    q as i64
}

/// Magnitude bounds for a rescaled product, in the form callers use to
/// discharge the overflow preconditions of `mul_fp`.
pub proof fn lemma_mul_scale_bound(a: int, b: int, ma: int, mb: int)
    requires
        vstd::math::abs(a) <= ma,
        vstd::math::abs(b) <= mb,
    ensures
        vstd::math::abs(a * b) <= ma * mb,
        vstd::math::abs(tdiv(a * b, SCALE as int)) * (SCALE as int) <= ma * mb,
{
    assert(vstd::math::abs(a * b) <= ma * mb) by (nonlinear_arith)
        requires
            vstd::math::abs(a) <= ma,
            vstd::math::abs(b) <= mb,
    ;
    lemma_tdiv_mag(a * b, SCALE as int);
    let q = vstd::math::abs(tdiv(a * b, SCALE as int)) as int;
    let m = vstd::math::abs(a * b) as int;
    assert(q == m / (SCALE as int));
    vstd::arithmetic::div_mod::lemma_fundamental_div_mod(m, SCALE as int);
    assert(q * (SCALE as int) <= m);
}

/// The magnitude of a product is the product of the magnitudes.
pub proof fn lemma_abs_mul(a: int, b: int)
    ensures
        vstd::math::abs(a * b) == vstd::math::abs(a) * vstd::math::abs(b),
{
    if a >= 0 && b >= 0 {
        assert(a * b >= 0) by (nonlinear_arith)
            requires
                a >= 0,
                b >= 0,
        ;
    } else if a >= 0 && b < 0 {
        assert(a * b <= 0 && -(a * b) == a * -b) by (nonlinear_arith)
            requires
                a >= 0,
                b < 0,
        ;
    } else if a < 0 && b >= 0 {
        assert(a * b <= 0 && -(a * b) == -a * b) by (nonlinear_arith)
            requires
                a < 0,
                b >= 0,
        ;
    } else {
        assert(a * b >= 0 && a * b == -a * -b) by (nonlinear_arith)
            requires
                a < 0,
                b < 0,
        ;
    }
}

/// A truncating quotient satisfies the division identity with a remainder
/// smaller in magnitude than the divisor.
pub proof fn lemma_tdiv_identity(n: int, d: int)
    requires
        d != 0,
    ensures
        vstd::math::abs(n - d * tdiv(n, d)) < vstd::math::abs(d),
{
    let na = vstd::math::abs(n) as int;
    let da = vstd::math::abs(d) as int;
    let q = na / da;
    let rho = na % da;
    vstd::arithmetic::div_mod::lemma_fundamental_div_mod(na, da);
    vstd::arithmetic::div_mod::lemma_mod_division_less_than_divisor(na, da);
    lemma_div_pos_is_pos(na, da);
    if n >= 0 && d > 0 {
        assert(n - d * tdiv(n, d) == rho);
    } else if n >= 0 && d < 0 {
        assert(d * -q == da * q) by (nonlinear_arith)
            requires
                d == -da,
        ;
        assert(n - d * tdiv(n, d) == rho);
    } else if n < 0 && d > 0 {
        assert(d * -q == -(da * q)) by (nonlinear_arith)
            requires
                d == da,
        ;
        assert(n - d * tdiv(n, d) == -rho);
    } else {
        assert(d * q == -(da * q)) by (nonlinear_arith)
            requires
                d == -da,
        ;
        assert(n - d * tdiv(n, d) == -rho);
    }
}

/// A rescaled product of a scalar in `[0, m]` with one in `[0, SCALE]`
/// stays in `[0, m]`: multiplying by at most one cannot grow a value.
pub proof fn lemma_unit_product_range(a: int, t: int, m: int)
    requires
        0 <= a <= m,
        0 <= t <= SCALE,
    ensures
        0 <= tdiv(a * t, SCALE as int) <= m,
{
    assert(0 <= a * t <= m * 65536) by (nonlinear_arith)
        requires
            0 <= a <= m,
            0 <= t <= 65536,
    ;
    lemma_tdiv_mag(a * t, SCALE as int);
    lemma_div_is_ordered(a * t, m * 65536, 65536);
    lemma_div_multiples_vanish(m, 65536);
}

/// Interpolating between two channels in `[0, m]` by a parameter in
/// `[0, 1]` stays in `[0, m]`.
pub proof fn lemma_lerp_channel_range(a: int, b: int, t: int, m: int)
    requires
        0 <= a <= m,
        0 <= b <= m,
        0 <= t <= SCALE,
    ensures
        0 <= a + tdiv((b - a) * t, SCALE as int) <= m,
{
    if b >= a {
        lemma_unit_product_range(b - a, t, b - a);
    } else {
        assert((b - a) * t == -((a - b) * t)) by (nonlinear_arith);
        lemma_tdiv_neg((a - b) * t, SCALE as int);
        lemma_unit_product_range(a - b, t, a - b);
    }
}

/// What `fit_range` computes: the affine remap of `x` from `imin..imax`
/// into `omin..omax`, with the final division rounded toward zero.
pub open spec fn fit_range_s(x: int, imin: int, imax: int, omin: int, omax: int) -> int {
    tdiv((omax - omin) * (x - imin), imax - imin) + omin
}

/// Linear remap of a value from one range into another (no clamping).
pub fn fit_range(x: i64, imin: i64, imax: i64, omin: i64, omax: i64) -> (r: i64)
    requires
        imax != imin,
        vstd::math::abs(omax - omin) <= 0x4000_0000_0000_0000,
        vstd::math::abs(x - imin) <= 0x4000_0000_0000_0000,
        i64::MIN <= fit_range_s(x as int, imin as int, imax as int, omin as int, omax as int)
            <= i64::MAX,
    ensures
        r as int == fit_range_s(x as int, imin as int, imax as int, omin as int, omax as int),
{
    let span: i128 = omax as i128 - omin as i128;
    let off: i128 = x as i128 - imin as i128;
    assert(span * off <= 0x4000_0000_0000_0000i128 * 0x4000_0000_0000_0000i128
        && span * off >= -(0x4000_0000_0000_0000i128 * 0x4000_0000_0000_0000i128))
        by (nonlinear_arith)
        requires
            vstd::math::abs(span as int) <= 0x4000_0000_0000_0000,
            vstd::math::abs(off as int) <= 0x4000_0000_0000_0000,
    ;
    let num: i128 = span * off;
    let q: i128 = tdiv_i128(num, imax as i128 - imin as i128);
    proof {
        lemma_tdiv_mag(num as int, imax - imin);
    }
    (q + omin as i128) as i64
}

/// `fit_range` is affine up to rounding: its result `y` satisfies the exact
/// affine relation `(omax - omin) * (x - imin) == (imax - imin) * (y - omin)`
/// except for a remainder smaller in magnitude than `imax - imin`.
pub proof fn lemma_fit_range_affine(x: int, imin: int, imax: int, omin: int, omax: int)
    requires
        imax != imin,
    ensures
        vstd::math::abs(
            (omax - omin) * (x - imin) - (imax - imin) * (fit_range_s(
                x,
                imin,
                imax,
                omin,
                omax,
            ) - omin),
        ) < vstd::math::abs(imax - imin),
{
    lemma_tdiv_identity((omax - omin) * (x - imin), imax - imin);
}

/// Mapping `x` through `fit_range` and back through the inverse remap
/// round-trips `x` to within one input-range unit per output-range unit:
/// the error times `|omax - omin|` stays below `|imax - imin| + |omax - omin|`.
/// In particular, when the output range is at least as wide as the input
/// range, the round trip recovers `x` to within one fixed-point step.
pub proof fn lemma_fit_range_round_trip(x: int, imin: int, imax: int, omin: int, omax: int)
    requires
        imax != imin,
        omax != omin,
    ensures
        vstd::math::abs(
            fit_range_s(fit_range_s(x, imin, imax, omin, omax), omin, omax, imin, imax) - x,
        ) * vstd::math::abs(omax - omin) < vstd::math::abs(imax - imin) + vstd::math::abs(
            omax - omin,
        ),
{
    let dd = imax - imin;
    let ee = omax - omin;
    let n = ee * (x - imin);
    let q1 = tdiv(n, dd);
    let y = q1 + omin;
    assert(fit_range_s(x, imin, imax, omin, omax) == y);
    let m = dd * (y - omin);
    let q2 = tdiv(m, ee);
    let x2 = q2 + imin;
    assert(fit_range_s(y, omin, omax, imin, imax) == x2);
    lemma_tdiv_identity(n, dd);
    let s = n - dd * q1;
    lemma_tdiv_identity(m, ee);
    let t = m - ee * q2;
    let w = x - imin - q2;
    assert(ee * w == s + t) by (nonlinear_arith)
        requires
            s == ee * (x - imin) - dd * q1,
            t == dd * q1 - ee * q2,
            w == x - imin - q2,
    ;
    lemma_abs_mul(ee, w);
    assert(vstd::math::abs(s + t) < vstd::math::abs(dd) + vstd::math::abs(ee));
    assert(vstd::math::abs(ee) * vstd::math::abs(w) < vstd::math::abs(dd) + vstd::math::abs(ee));
    assert(vstd::math::abs(w) * vstd::math::abs(ee) < vstd::math::abs(dd) + vstd::math::abs(ee))
        by (nonlinear_arith)
        requires
            vstd::math::abs(ee) * vstd::math::abs(w) < vstd::math::abs(dd) + vstd::math::abs(ee),
    ;
    assert(vstd::math::abs(x2 - x) == vstd::math::abs(w));
}

} // verus!
