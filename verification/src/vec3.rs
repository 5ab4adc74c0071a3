//! Three-component vectors over fixed-point scalars.
//!
//! A `Vec3` is a point, direction or color in scene space; each component is
//! an `i64` scaled by `fixed::SCALE`. Its mathematical model is `Vec3i`, the
//! same three components as unbounded integers; every contract in the crate
//! speaks over that view. `in_range` bounds the components so that the
//! intermediate products of every vector operation fit in `i128` and every
//! rescaled result fits in `i64`.

use vstd::prelude::*;
use crate::fixed::{
    mul_fp, div_fp, sqrt_fp, tdiv, tdiv_i128, sqrt_floor, SCALE, lemma_tdiv_mag,
    lemma_mul_scale_bound, lemma_sqrt_floor_unique, lemma_sqrt_floor_monotone,
    lemma_sqrt_floor_bounds,
};

verus! {

/// Largest component magnitude the vector operations accept.
pub const VEC_LIMIT: i64 = 0x40_0000_0000;

/// Component magnitude bound for normalized vectors and oriented normals:
/// one unit plus rounding slop, and always at most two units.
pub const UNIT_LIMIT: i64 = 2 * 65536;

/// Component magnitude bound for ray directions: camera rays span the
/// viewport and scattered rays combine unit-ish vectors.
pub const DIR_LIMIT: i64 = 0x4000_0000;

/// Component magnitude bound for points of the scene (origins, centers,
/// hit points): the representable scene volume.
pub const POS_LIMIT: i64 = 0x100_0000;

pub open spec fn in_range(c: int) -> bool {
    -VEC_LIMIT <= c <= VEC_LIMIT
}

/// The mathematical model of a `Vec3`: the same components as unbounded
/// integers.
pub ghost struct Vec3i {
    pub x: int,
    pub y: int,
    pub z: int,
}

#[derive(Clone, Copy, Debug, PartialEq, Eq, Structural)]
pub struct Vec3 {
    pub x: i64,
    pub y: i64,
    pub z: i64,
}

impl View for Vec3 {
    type V = Vec3i;

    open spec fn view(&self) -> Vec3i {
        Vec3i { x: self.x as int, y: self.y as int, z: self.z as int }
    }
}

pub open spec fn vadd(a: Vec3i, b: Vec3i) -> Vec3i {
    Vec3i { x: a.x + b.x, y: a.y + b.y, z: a.z + b.z }
}

pub open spec fn vsub(a: Vec3i, b: Vec3i) -> Vec3i {
    Vec3i { x: a.x - b.x, y: a.y - b.y, z: a.z - b.z }
}

pub open spec fn vneg(a: Vec3i) -> Vec3i {
    Vec3i { x: -a.x, y: -a.y, z: -a.z }
}

/// The fixed-point dot product: raw component products summed, then rescaled
/// by `SCALE` rounding toward zero.
pub open spec fn vdot(a: Vec3i, b: Vec3i) -> int {
    tdiv(a.x * b.x + a.y * b.y + a.z * b.z, SCALE as int)
}

/// Component-wise rescaled product with the scalar `k`.
pub open spec fn vscale(a: Vec3i, k: int) -> Vec3i {
    Vec3i {
        x: tdiv(a.x * k, SCALE as int),
        y: tdiv(a.y * k, SCALE as int),
        z: tdiv(a.z * k, SCALE as int),
    }
}

/// The fixed-point length `sqrt(|v|^2)`, again a fixed-point scalar.
pub open spec fn vlen(a: Vec3i) -> int {
    sqrt_floor(vdot(a, a) * SCALE)
}

/// Normalization: each component divided by the vector's length; a vector
/// whose length rounds to zero is returned unchanged.
pub open spec fn vnormalize(a: Vec3i) -> Vec3i {
    let l = vlen(a);
    if l == 0 {
        a
    } else {
        Vec3i {
            x: tdiv(a.x * SCALE, l),
            y: tdiv(a.y * SCALE, l),
            z: tdiv(a.z * SCALE, l),
        }
    }
}

/// Linear interpolation `a + (b - a) * t` with `t` a fixed-point scalar.
pub open spec fn vlerp(a: Vec3i, b: Vec3i, t: int) -> Vec3i {
    vadd(a, vscale(vsub(b, a), t))
}

/// The component-wise (Hadamard) product, each product rescaled by `SCALE`.
pub open spec fn vmul(a: Vec3i, b: Vec3i) -> Vec3i {
    Vec3i {
        x: tdiv(a.x * b.x, SCALE as int),
        y: tdiv(a.y * b.y, SCALE as int),
        z: tdiv(a.z * b.z, SCALE as int),
    }
}

/// Reflection of `v` against the plane with normal `n`:
/// `v - 2 * dot(v, n) * n`.
pub open spec fn vreflect(v: Vec3i, n: Vec3i) -> Vec3i {
    vsub(v, vscale(n, 2 * vdot(v, n)))
}

pub open spec fn vwf(a: Vec3i) -> bool {
    in_range(a.x) && in_range(a.y) && in_range(a.z)
}

/// All components bounded by `m` in magnitude.
pub open spec fn vbounded(a: Vec3i, m: int) -> bool {
    -m <= a.x <= m && -m <= a.y <= m && -m <= a.z <= m
}

impl Vec3 {
    pub open spec fn wf(self) -> bool {
        vwf(self@)
    }

    pub fn new(x: i64, y: i64, z: i64) -> (r: Vec3)
        ensures
            r == (Vec3 { x, y, z }),
    {
        Vec3 { x, y, z }
    }

    pub fn add(self, o: Vec3) -> (r: Vec3)
        requires
            self.wf(),
            o.wf(),
        ensures
            r@ == vadd(self@, o@),
    {
        Vec3 { x: self.x + o.x, y: self.y + o.y, z: self.z + o.z }
    }

    pub fn sub(self, o: Vec3) -> (r: Vec3)
        requires
            self.wf(),
            o.wf(),
        ensures
            r@ == vsub(self@, o@),
    {
        Vec3 { x: self.x - o.x, y: self.y - o.y, z: self.z - o.z }
    }

    pub fn scale(self, k: i64) -> (r: Vec3)
        requires
            self.wf(),
            in_range(k as int),
        ensures
            r@ == vscale(self@, k as int),
            vbounded(r@, 0x1000_0000_0000_0000),
    {
        proof {
            lemma_mul_scale_bound(self.x as int, k as int, VEC_LIMIT as int, VEC_LIMIT as int);
            lemma_mul_scale_bound(self.y as int, k as int, VEC_LIMIT as int, VEC_LIMIT as int);
            lemma_mul_scale_bound(self.z as int, k as int, VEC_LIMIT as int, VEC_LIMIT as int);
        }
        Vec3 { x: mul_fp(self.x, k), y: mul_fp(self.y, k), z: mul_fp(self.z, k) }
    }

    pub fn dot(self, o: Vec3) -> (r: i64)
        requires
            self.wf(),
            o.wf(),
        ensures
            r == vdot(self@, o@),
            -0x3000_0000_0000_0000 <= r <= 0x3000_0000_0000_0000,
    {
        proof {
            lemma_vec_products_bounded(self@, o@);
            lemma_tdiv_mag(
                self.x * o.x + self.y * o.y + self.z * o.z,
                SCALE as int,
            );
        }
        let p: i128 = (self.x as i128) * (o.x as i128) + (self.y as i128) * (o.y as i128)
            + (self.z as i128) * (o.z as i128);
        let q: i128 = tdiv_i128(p, SCALE as i128);
        q as i64
    }

    /// The squared length `|v|^2`, a nonnegative fixed-point scalar.
    pub fn length_squared(self) -> (r: i64)
        requires
            self.wf(),
        ensures
            r == vdot(self@, self@),
            0 <= r <= 0x3000_0000_0000_0000,
    {
        proof {
            lemma_dot_self_nonneg(self@);
        }
        self.dot(self)
    }

    pub fn length(self) -> (r: i64)
        requires
            self.wf(),
        ensures
            r == vlen(self@),
            0 <= r < 0x100_0000_0000,
    {
        let ls: i64 = self.length_squared();
        sqrt_fp(ls)
    }

    /// Normalization toward unit length. A vector too short for its length
    /// to round above zero is returned unchanged; otherwise every component
    /// of the result is bounded by `UNIT_LIMIT`.
    pub fn normalize(self) -> (r: Vec3)
        requires
            self.wf(),
        ensures
            r@ == vnormalize(self@),
            vbounded(r@, UNIT_LIMIT as int),
            vlen(self@) == 0 ==> r == self && vbounded(r@, 255),
    {
        let l: i64 = self.length();
        if l == 0 {
            proof {
                lemma_short_vector(self@);
            }
            self
        } else {
            proof {
                lemma_normalize_bounds(self@);
                lemma_tdiv_mag(self.x * SCALE, l as int);
                lemma_tdiv_mag(self.y * SCALE, l as int);
                lemma_tdiv_mag(self.z * SCALE, l as int);
            }
            Vec3 { x: div_fp(self.x, l), y: div_fp(self.y, l), z: div_fp(self.z, l) }
        }
    }

    /// Component-wise interpolation from `self` toward `o` by the
    /// fixed-point parameter `t`.
    pub fn lerp(self, o: Vec3, t: i64) -> (r: Vec3)
        requires
            self.wf(),
            o.wf(),
            in_range(t as int),
        ensures
            r@ == vlerp(self@, o@, t as int),
    {
        let d: Vec3 = o.sub(self);
        proof {
            lemma_mul_scale_bound(d.x as int, t as int, 2 * VEC_LIMIT as int, VEC_LIMIT as int);
            lemma_mul_scale_bound(d.y as int, t as int, 2 * VEC_LIMIT as int, VEC_LIMIT as int);
            lemma_mul_scale_bound(d.z as int, t as int, 2 * VEC_LIMIT as int, VEC_LIMIT as int);
            lemma_tdiv_mag(d.x * t, SCALE as int);
            lemma_tdiv_mag(d.y * t, SCALE as int);
            lemma_tdiv_mag(d.z * t, SCALE as int);
        }
        let s: Vec3 = Vec3 { x: mul_fp(d.x, t), y: mul_fp(d.y, t), z: mul_fp(d.z, t) };
        Vec3 { x: self.x + s.x, y: self.y + s.y, z: self.z + s.z }
    }

    /// The component-wise product; attenuating one color by another.
    pub fn mul_elem(self, o: Vec3) -> (r: Vec3)
        requires
            self.wf(),
            o.wf(),
        ensures
            r@ == vmul(self@, o@),
    {
        proof {
            lemma_mul_scale_bound(self@.x, o@.x, VEC_LIMIT as int, VEC_LIMIT as int);
            lemma_mul_scale_bound(self@.y, o@.y, VEC_LIMIT as int, VEC_LIMIT as int);
            lemma_mul_scale_bound(self@.z, o@.z, VEC_LIMIT as int, VEC_LIMIT as int);
        }
        Vec3 { x: mul_fp(self.x, o.x), y: mul_fp(self.y, o.y), z: mul_fp(self.z, o.z) }
    }

    /// Component-wise negation.
    pub fn neg(self) -> (r: Vec3)
        requires
            self.wf(),
        ensures
            r@ == vneg(self@),
    {
        Vec3 { x: -self.x, y: -self.y, z: -self.z }
    }

    /// Whether the vector is too small to represent a usable direction:
    /// the fixed-point grid holds no nonzero value within floating epsilon
    /// of zero, so the test is that every component is exactly zero.
    /// (The test is applied uniformly to all three axes.)
    pub fn near_zero(self) -> (r: bool)
        ensures
            r <==> (self@.x == 0 && self@.y == 0 && self@.z == 0),
    {
        self.x == 0 && self.y == 0 && self.z == 0
    }

    /// `self` reflected against the (unit-ish) normal `n`.
    pub fn reflect(self, n: Vec3) -> (r: Vec3)
        requires
            vbounded(self@, DIR_LIMIT as int),
            vbounded(n@, UNIT_LIMIT as int),
        ensures
            r@ == vreflect(self@, n@),
            vbounded(r@, 0x10_0000_0000),
    {
        proof {
            lemma_dot_bound(self@, n@, DIR_LIMIT as int, UNIT_LIMIT as int);
        }
        let d: i64 = self.dot(n);
        proof {
            lemma_mul_scale_bound(n@.x, 2 * d, UNIT_LIMIT as int, 12884901888int);
            lemma_mul_scale_bound(n@.y, 2 * d, UNIT_LIMIT as int, 12884901888int);
            lemma_mul_scale_bound(n@.z, 2 * d, UNIT_LIMIT as int, 12884901888int);
        }
        let s: Vec3 = n.scale(2 * d);
        self.sub(s)
    }
}

/// The raw product sum of two component-bounded vectors, and its rescaling,
/// are bounded by the product of the component bounds.
pub proof fn lemma_dot_bound(v: Vec3i, w: Vec3i, mv: int, mw: int)
    requires
        vbounded(v, mv),
        vbounded(w, mw),
        0 <= mv,
        0 <= mw,
    ensures
        vstd::math::abs(v.x * w.x + v.y * w.y + v.z * w.z) <= 3 * (mv * mw),
        vstd::math::abs(vdot(v, w)) <= 3 * (mv * mw) / (SCALE as int),
{
    assert(vstd::math::abs(v.x * w.x) <= mv * mw && vstd::math::abs(v.y * w.y) <= mv * mw
        && vstd::math::abs(v.z * w.z) <= mv * mw) by (nonlinear_arith)
        requires
            vbounded(v, mv),
            vbounded(w, mw),
            0 <= mv,
            0 <= mw,
    ;
    lemma_tdiv_mag(v.x * w.x + v.y * w.y + v.z * w.z, SCALE as int);
    let m = vstd::math::abs(v.x * w.x + v.y * w.y + v.z * w.z) as int;
    vstd::arithmetic::div_mod::lemma_div_is_ordered(m, 3 * (mv * mw), SCALE as int);
}

/// The raw component-product sum of two `in_range` vectors stays well inside
/// `i128`, and its rescaling fits `i64`.
proof fn lemma_vec_products_bounded(v: Vec3i, w: Vec3i)
    requires
        vwf(v),
        vwf(w),
    ensures
        vstd::math::abs(v.x * w.x) <= 0x1000_0000_0000_0000_0000,
        vstd::math::abs(v.y * w.y) <= 0x1000_0000_0000_0000_0000,
        vstd::math::abs(v.z * w.z) <= 0x1000_0000_0000_0000_0000,
        vstd::math::abs(vdot(v, w)) <= 0x3000_0000_0000_0000,
{
    assert(vstd::math::abs(v.x * w.x) <= 0x1000_0000_0000_0000_0000
        && vstd::math::abs(v.y * w.y) <= 0x1000_0000_0000_0000_0000
        && vstd::math::abs(v.z * w.z) <= 0x1000_0000_0000_0000_0000) by (nonlinear_arith)
        requires
            vwf(v),
            vwf(w),
    ;
    lemma_tdiv_mag(v.x * w.x + v.y * w.y + v.z * w.z, SCALE as int);
    let m = vstd::math::abs(v.x * w.x + v.y * w.y + v.z * w.z) as int;
    assert(m <= 0x3000_0000_0000_0000_0000);
    vstd::arithmetic::div_mod::lemma_div_is_ordered(m, 0x3000_0000_0000_0000_0000, SCALE as int);
    assert(0x3000_0000_0000_0000_0000int / (SCALE as int) == 0x3000_0000_0000_0000);
}

/// A vector's dot product with itself is nonnegative.
pub proof fn lemma_dot_self_nonneg(v: Vec3i)
    ensures
        vdot(v, v) >= 0,
{
    assert(v.x * v.x >= 0 && v.y * v.y >= 0 && v.z * v.z >= 0) by (nonlinear_arith);
    vstd::arithmetic::div_mod::lemma_div_pos_is_pos(
        v.x * v.x + v.y * v.y + v.z * v.z,
        SCALE as int,
    );
}

/// Negating one argument of the dot product negates the result.
pub proof fn lemma_vdot_neg(v: Vec3i, n: Vec3i)
    ensures
        vdot(vneg(v), n) == -vdot(v, n),
{
    assert((-v.x) * n.x == -(v.x * n.x) && (-v.y) * n.y == -(v.y * n.y) && (-v.z) * n.z == -(
    v.z * n.z)) by (nonlinear_arith);
    crate::fixed::lemma_tdiv_neg(v.x * n.x + v.y * n.y + v.z * n.z, SCALE as int);
}

/// Negating a vector preserves its squared length.
pub proof fn lemma_vdot_neg_self(v: Vec3i)
    ensures
        vdot(vneg(v), vneg(v)) == vdot(v, v),
{
    assert((-v.x) * (-v.x) == v.x * v.x && (-v.y) * (-v.y) == v.y * v.y && (-v.z) * (-v.z) == v.z
        * v.z) by (nonlinear_arith);
}

/// A vector whose fixed-point length rounds to zero has every component
/// smaller than one 256th of a unit.
proof fn lemma_short_vector(v: Vec3i)
    requires
        vlen(v) == 0,
    ensures
        vbounded(v, 255),
{
    let dd = v.x * v.x + v.y * v.y + v.z * v.z;
    let ls = vdot(v, v);
    lemma_dot_self_nonneg(v);
    assert(v.x * v.x >= 0 && v.y * v.y >= 0 && v.z * v.z >= 0) by (nonlinear_arith);
    lemma_sqrt_floor_bounds(ls * SCALE);
    // a zero length forces the rescaled square sum to round to zero
    assert(ls * SCALE < 1);
    assert(ls == 0);
    lemma_tdiv_mag(dd, SCALE as int);
    vstd::arithmetic::div_mod::lemma_fundamental_div_mod(dd, SCALE as int);
    vstd::arithmetic::div_mod::lemma_mod_division_less_than_divisor(dd, SCALE as int);
    assert(dd < SCALE);
    assert(vbounded(v, 255)) by (nonlinear_arith)
        requires
            v.x * v.x <= dd,
            v.y * v.y <= dd,
            v.z * v.z <= dd,
            dd < 65536,
    ;
}

/// After normalization by a nonzero fixed-point length, every component is
/// bounded by `UNIT_LIMIT` (one unit plus rounding slop).
proof fn lemma_normalize_bounds(v: Vec3i)
    requires
        vwf(v),
        vlen(v) >= 1,
    ensures
        vstd::math::abs(tdiv(v.x * SCALE, vlen(v))) <= UNIT_LIMIT,
        vstd::math::abs(tdiv(v.y * SCALE, vlen(v))) <= UNIT_LIMIT,
        vstd::math::abs(tdiv(v.z * SCALE, vlen(v))) <= UNIT_LIMIT,
{
    let l = vlen(v);
    let dd = v.x * v.x + v.y * v.y + v.z * v.z;
    let ls = vdot(v, v);
    lemma_dot_self_nonneg(v);
    assert(v.x * v.x >= 0 && v.y * v.y >= 0 && v.z * v.z >= 0) by (nonlinear_arith);
    lemma_tdiv_mag(dd, SCALE as int);
    assert(ls == dd / (SCALE as int));
    vstd::arithmetic::div_mod::lemma_fundamental_div_mod(dd, SCALE as int);
    vstd::arithmetic::div_mod::lemma_mod_division_less_than_divisor(dd, SCALE as int);
    // dd < (ls + 1) * SCALE
    assert(dd < ls * SCALE + SCALE);
    lemma_sqrt_floor_bounds(ls * SCALE);
    // l * l <= ls * SCALE < (l + 1) * (l + 1)
    // the length is at least sqrt(SCALE) because ls >= 1
    if ls * SCALE >= SCALE {
        lemma_sqrt_floor_monotone(SCALE as int, ls * SCALE);
        lemma_sqrt_floor_unique(SCALE as int, 256);
    }
    assert(ls >= 1);
    assert(l >= 256);
    lemma_normalize_component(v.x, dd, ls, l);
    lemma_normalize_component(v.y, dd, ls, l);
    lemma_normalize_component(v.z, dd, ls, l);
}

/// One component of the normalization bound: a component whose square is
/// below the squared length divides by the length into at most two units.
proof fn lemma_normalize_component(c: int, dd: int, ls: int, l: int)
    requires
        c * c <= dd,
        dd < ls * SCALE + SCALE,
        ls * SCALE < (l + 1) * (l + 1),
        l >= 256,
    ensures
        vstd::math::abs(tdiv(c * SCALE, l)) <= UNIT_LIMIT,
{
    assert(c * c <= (2 * l) * (2 * l)) by (nonlinear_arith)
        requires
            c * c <= dd,
            dd < ls * SCALE + SCALE,
            ls * SCALE < (l + 1) * (l + 1),
            l >= 256,
            SCALE == 65536,
    ;
    assert(-(2 * l) <= c <= 2 * l) by (nonlinear_arith)
        requires
            c * c <= (2 * l) * (2 * l),
            l >= 1,
    ;
    lemma_tdiv_mag(c * SCALE, l);
    assert(-(2 * l) * 65536 <= c * 65536 <= (2 * l) * 65536) by (nonlinear_arith)
        requires
            -(2 * l) <= c <= 2 * l,
            l >= 1,
    ;
    let m = vstd::math::abs(c * SCALE) as int;
    assert(m <= l * 131072);
    vstd::arithmetic::div_mod::lemma_div_is_ordered(m, l * 131072, l);
    vstd::arithmetic::div_mod::lemma_div_multiples_vanish(131072, l);
}

} // verus!
