//! Geometry: the sphere primitive, the scene aggregate, and hit records.
//!
//! `sphere_hit_s` is the mathematical meaning of the executable intersection:
//! the quadratic `a t^2 + 2 half_b t + c = 0` solved in fixed-point
//! arithmetic, the nearer admissible root preferred, the normal oriented
//! against the incoming ray. A hit whose point or normal falls outside the
//! representable scene volume is not reported.

use vstd::prelude::*;
use crate::fixed::{
    tdiv, tdiv_i128, sqrt_floor, isqrt_u128, mul_fp, div_fp, SCALE, lemma_tdiv_mag,
    lemma_mul_scale_bound, lemma_tdiv_neg, lemma_sqrt_floor_bounds,
};
use vstd::arithmetic::div_mod::lemma_div_is_ordered;
use crate::vec3::{
    Vec3, Vec3i, vadd, vsub, vneg, vdot, vscale, vbounded, POS_LIMIT, UNIT_LIMIT, lemma_dot_bound,
};
use crate::ray::Ray;
use crate::materials::Material;

verus! {

/// Holds information on a raycast hit event.
pub struct HitData {
    pub hit_point: Vec3,
    pub normal: Vec3,
    pub material: Material,
    pub t: i64,
}

/// The mathematical model of a hit record.
pub ghost struct HitRec {
    pub t: int,
    pub hit_point: Vec3i,
    pub normal: Vec3i,
    pub material: Material,
}

impl View for HitData {
    type V = HitRec;

    open spec fn view(&self) -> HitRec {
        HitRec {
            t: self.t as int,
            hit_point: self.hit_point@,
            normal: self.normal@,
            material: self.material,
        }
    }
}

impl HitData {
    /// The hit point sits in the representable scene volume, the normal is
    /// unit-ish, and the struck material is well formed.
    pub open spec fn wf(self) -> bool {
        &&& vbounded(self.hit_point@, POS_LIMIT as int)
        &&& vbounded(self.normal@, UNIT_LIMIT as int)
        &&& self.material.wf()
    }
}

/// The outward normal re-oriented to oppose the incoming ray direction
/// (front-face convention).
pub open spec fn face_normal_s(dir: Vec3i, outward: Vec3i) -> Vec3i {
    if vdot(dir, outward) < 0 {
        outward
    } else {
        vneg(outward)
    }
}

/// Orient `outward_normal` against the ray; the flag reports whether the
/// ray struck the front face (it is not stored in the hit record).
pub fn get_face_normal(ray: &Ray, outward_normal: Vec3) -> (r: (Vec3, bool))
    requires
        ray.wf(),
        vbounded(outward_normal@, UNIT_LIMIT as int),
    ensures
        r.0@ == face_normal_s(ray.direction@, outward_normal@),
        r.1 == (vdot(ray.direction@, outward_normal@) < 0),
        vbounded(r.0@, UNIT_LIMIT as int),
{
    let d: i64 = ray.direction.dot(outward_normal);
    let is_front_face: bool = d < 0;
    if is_front_face {
        (outward_normal, true)
    } else {
        (outward_normal.neg(), false)
    }
}

pub struct Sphere {
    pub radius: i64,
    pub center: Vec3,
    pub material: Material,
}

impl Sphere {
    /// The radius is positive (at least one fixed-point step) and the
    /// sphere sits in the representable scene volume.
    pub open spec fn wf(self) -> bool {
        &&& 1 <= self.radius <= POS_LIMIT
        &&& vbounded(self.center@, POS_LIMIT as int)
        &&& self.material.wf()
    }

    pub fn new(radius: i64, center: Vec3, material: Material) -> (r: Sphere)
        requires
            1 <= radius <= POS_LIMIT,
            vbounded(center@, POS_LIMIT as int),
            material.wf(),
        ensures
            r == (Sphere { radius, center, material }),
            r.wf(),
    {
        Sphere { radius, center, material }
    }
}

/// The sphere's outward normal at point `p`: `(p - center) / radius`.
pub open spec fn outward_normal_s(center: Vec3i, radius: int, p: Vec3i) -> Vec3i {
    Vec3i {
        x: tdiv((p.x - center.x) * SCALE, radius),
        y: tdiv((p.y - center.y) * SCALE, radius),
        z: tdiv((p.z - center.z) * SCALE, radius),
    }
}

/// The discriminant `half_b^2 - a c` of the intersection quadratic, as the
/// fixed-point code computes it.
pub open spec fn sphere_discriminant(s: Sphere, ro: Vec3i, rd: Vec3i) -> int {
    let oc = vsub(ro, s.center@);
    let a = vdot(rd, rd);
    let half_b = vdot(oc, rd);
    let c = vdot(oc, oc) - tdiv(s.radius * s.radius, SCALE as int);
    tdiv(half_b * half_b, SCALE as int) - tdiv(a * c, SCALE as int)
}

/// The record a sphere reports for a hit at parameter `t`: the hit point
/// along the ray and the re-oriented normal, or nothing if either falls
/// outside the representable range.
pub open spec fn sphere_hit_at(s: Sphere, ro: Vec3i, rd: Vec3i, t: int) -> Option<HitRec> {
    let hp = vadd(ro, vscale(rd, t));
    let outward = outward_normal_s(s.center@, s.radius as int, hp);
    if vbounded(hp, POS_LIMIT as int) && vbounded(outward, UNIT_LIMIT as int) {
        Some(
            HitRec {
                t,
                hit_point: hp,
                normal: face_normal_s(rd, outward),
                material: s.material,
            },
        )
    } else {
        None
    }
}

/// The full intersection contract: no hit when the discriminant is negative
/// (or the direction is degenerate); otherwise the smaller quadratic root
/// within the half-open window `[t_min, t_max)` is preferred, then the
/// larger, then no hit. The strict upper comparison is what lets a scene
/// walk that narrows `t_max` to the best hit so far resolve equal-distance
/// ties to the first primitive found.
pub open spec fn sphere_hit_s(s: Sphere, ro: Vec3i, rd: Vec3i, t_min: int, t_max: int) -> Option<
    HitRec,
> {
    let oc = vsub(ro, s.center@);
    let a = vdot(rd, rd);
    let half_b = vdot(oc, rd);
    let disc = sphere_discriminant(s, ro, rd);
    if a == 0 || disc < 0 {
        None
    } else {
        let sq = sqrt_floor(disc * SCALE);
        let t1 = tdiv((-half_b - sq) * SCALE, a);
        let t2 = tdiv((-half_b + sq) * SCALE, a);
        if t_min <= t1 < t_max {
            sphere_hit_at(s, ro, rd, t1)
        } else if t_min <= t2 < t_max {
            sphere_hit_at(s, ro, rd, t2)
        } else {
            None
        }
    }
}

impl Sphere {
    /// Intersect the ray against the sphere over the half-open window
    /// `[t_min, t_max)`, exactly as `sphere_hit_s` states.
    pub fn hit(&self, ray: &Ray, t_min: i64, t_max: i64) -> (r: Option<HitData>)
        requires
            self.wf(),
            ray.wf(),
        ensures
            match r {
                Some(h) => {
                    &&& Some(h@) == sphere_hit_s(
                        *self,
                        ray.origin@,
                        ray.direction@,
                        t_min as int,
                        t_max as int,
                    )
                    &&& h.wf()
                    &&& t_min <= h.t < t_max
                    &&& h.material == self.material
                },
                None => sphere_hit_s(
                    *self,
                    ray.origin@,
                    ray.direction@,
                    t_min as int,
                    t_max as int,
                ) is None,
            },
    {
        let ghost ro = ray.origin@;
        let ghost rd = ray.direction@;
        let oc: Vec3 = ray.origin.sub(self.center);

        let a: i64 = ray.direction.dot(ray.direction);
        let half_b: i64 = oc.dot(ray.direction);
        proof {
            lemma_mul_scale_bound(
                self.radius as int,
                self.radius as int,
                POS_LIMIT as int,
                POS_LIMIT as int,
            );
            assert(self.radius * self.radius >= 0) by (nonlinear_arith)
                requires
                    self.radius >= 1,
            ;
            lemma_tdiv_mag(self.radius * self.radius, SCALE as int);
        }
        let rr: i64 = mul_fp(self.radius, self.radius);
        let c_val: i64 = oc.dot(oc) - rr;

        // the discriminant, in 128-bit intermediates
        proof {
            assert(0 <= (half_b as int) * (half_b as int)
                <= 0x900_0000_0000_0000_0000_0000_0000_0000) by (nonlinear_arith)
                requires
                    -0x3000_0000_0000_0000 <= half_b as int <= 0x3000_0000_0000_0000,
            ;
            assert(-0x1000_0000_0000_0000_0000_0000_0000_0000 <= (a as int) * (c_val as int)
                <= 0x1000_0000_0000_0000_0000_0000_0000_0000) by (nonlinear_arith)
                requires
                    -0x3000_0001_0000_0000 <= a as int <= 0x3000_0001_0000_0000,
                    -0x3000_0001_0000_0000 <= c_val as int <= 0x3000_0001_0000_0000,
            ;
            lemma_tdiv_mag((half_b as int) * (half_b as int), SCALE as int);
            lemma_tdiv_mag((a as int) * (c_val as int), SCALE as int);
            lemma_div_is_ordered(
                vstd::math::abs((half_b as int) * (half_b as int)) as int,
                0x900_0000_0000_0000_0000_0000_0000_0000,
                SCALE as int,
            );
            lemma_div_is_ordered(
                vstd::math::abs((a as int) * (c_val as int)) as int,
                0x1000_0000_0000_0000_0000_0000_0000_0000,
                SCALE as int,
            );
        }
        let hb2: i128 = tdiv_i128((half_b as i128) * (half_b as i128), 65536);
        let ac: i128 = tdiv_i128((a as i128) * (c_val as i128), 65536);
        let disc: i128 = hb2 - ac;
        assert(disc == sphere_discriminant(*self, ro, rd));

        if a == 0 || disc < 0 {
            return None;
        }
        // sqrt of the discriminant, rescaled so the root is fixed-point
        let discs: u128 = (disc as u128) * 65536;
        let sq64: u64 = isqrt_u128(discs);
        let sq: i128 = sq64 as i128;
        proof {
            assert(discs as int == disc * SCALE);
            assert(sq as int <= 0x8000_0000_0000_0000) by (nonlinear_arith)
                requires
                    (sq as int) * (sq as int) <= discs as int,
                    (discs as int) <= 0x2000_0000_0000_0000_0000_0000_0000_0000,
                    sq as int >= 0,
            ;
        }

        let neg_hb: i128 = -(half_b as i128);
        let num1: i128 = (neg_hb - sq) * 65536;
        let t1: i128 = tdiv_i128(num1, a as i128);
        let picked: Option<i64> = if t_min as i128 <= t1 && t1 < t_max as i128 {
            Some(t1 as i64)
        } else {
            let num2: i128 = (neg_hb + sq) * 65536;
            let t2: i128 = tdiv_i128(num2, a as i128);
            if t_min as i128 <= t2 && t2 < t_max as i128 {
                Some(t2 as i64)
            } else {
                None
            }
        };
        let t: i64 = match picked {
            Some(t) => t,
            None => {
                return None;
            },
        };

        // the hit point, with representability checks
        proof {
            lemma_hit_point_products(t as int, rd);
            lemma_tdiv_mag(rd.x * (t as int), SCALE as int);
            lemma_tdiv_mag(rd.y * (t as int), SCALE as int);
            lemma_tdiv_mag(rd.z * (t as int), SCALE as int);
        }
        let hx: i128 = ray.origin.x as i128 + tdiv_i128((ray.direction.x as i128) * (t as i128), 65536);
        let hy: i128 = ray.origin.y as i128 + tdiv_i128((ray.direction.y as i128) * (t as i128), 65536);
        let hz: i128 = ray.origin.z as i128 + tdiv_i128((ray.direction.z as i128) * (t as i128), 65536);
        if hx < -(POS_LIMIT as i128) || hx > POS_LIMIT as i128 || hy < -(POS_LIMIT as i128) || hy
            > POS_LIMIT as i128 || hz < -(POS_LIMIT as i128) || hz > POS_LIMIT as i128 {
            return None;
        }
        let hit_point: Vec3 = Vec3::new(hx as i64, hy as i64, hz as i64);
        assert(hit_point@ == vadd(ro, vscale(rd, t as int)));

        // the outward normal, with representability checks
        proof {
            lemma_tdiv_mag((hit_point@.x - self.center@.x) * SCALE, self.radius as int);
            lemma_tdiv_mag((hit_point@.y - self.center@.y) * SCALE, self.radius as int);
            lemma_tdiv_mag((hit_point@.z - self.center@.z) * SCALE, self.radius as int);
        }
        let ox: i64 = div_fp(hit_point.x - self.center.x, self.radius);
        let oy: i64 = div_fp(hit_point.y - self.center.y, self.radius);
        let oz: i64 = div_fp(hit_point.z - self.center.z, self.radius);
        if ox < -UNIT_LIMIT || ox > UNIT_LIMIT || oy < -UNIT_LIMIT || oy > UNIT_LIMIT || oz
            < -UNIT_LIMIT || oz > UNIT_LIMIT {
            return None;
        }
        let outward_normal: Vec3 = Vec3::new(ox, oy, oz);
        assert(outward_normal@ == outward_normal_s(self.center@, self.radius as int, hit_point@));

        let (normal, _is_front_face) = get_face_normal(ray, outward_normal);

        Some(HitData { t, hit_point, normal, material: self.material })
    }
}

/// The quadratic residual of the intersection at parameter `t`:
/// `a t^2 + 2 half_b SCALE t + c SCALE^2`, over the computed fixed-point
/// coefficients. An exact root makes it zero; the reported roots make it
/// small (see `lemma_hit_root_residual`).
pub open spec fn quad_residual(s: Sphere, ro: Vec3i, rd: Vec3i, t: int) -> int {
    let oc = vsub(ro, s.center@);
    let a = vdot(rd, rd);
    let half_b = vdot(oc, rd);
    let c = vdot(oc, oc) - tdiv(s.radius * s.radius, SCALE as int);
    a * (t * t) + 2 * SCALE * (half_b * t) + SCALE * SCALE * c
}

/// The arithmetic core of the root-residual bound: a parameter obtained by
/// the truncated quadratic formula satisfies the quadratic up to rounding
/// from the discriminant's two divisions, the square root's floor, and the
/// final division.
#[verifier::rlimit(100)]
proof fn lemma_root_residual_core(a: int, hb: int, c: int, disc: int, sq: int, sigma: int, t: int)
    requires
        a > 0,
        disc == tdiv(hb * hb, SCALE as int) - tdiv(a * c, SCALE as int),
        disc >= 0,
        sq == sqrt_floor(disc * SCALE),
        sigma == 1 || sigma == -1,
        t == tdiv((-hb + sigma * sq) * SCALE, a),
    ensures
        vstd::math::abs(a * (a * (t * t) + 2 * SCALE * (hb * t) + SCALE * SCALE * c)) <= SCALE
            * SCALE * (2 * SCALE + 2 * sq) + a * (2 * (a * vstd::math::abs(t)) + a) + 2 * SCALE * (
        vstd::math::abs(hb) * a),
{
    let ss: int = SCALE as int;
    lemma_sqrt_floor_bounds(disc * ss);
    let e2 = disc * ss - sq * sq;
    assert(e2 <= 2 * sq) by (nonlinear_arith)
        requires
            e2 == disc * ss - sq * sq,
            disc * ss < (sq + 1) * (sq + 1),
            0 <= sq,
    ;
    assert(0 <= e2);
    let qh = tdiv(hb * hb, ss);
    let qc = tdiv(a * c, ss);
    crate::fixed::lemma_tdiv_identity(hb * hb, ss);
    let u = hb * hb - ss * qh;
    crate::fixed::lemma_tdiv_identity(a * c, ss);
    let v = a * c - ss * qc;
    let nn = (-hb + sigma * sq) * ss;
    crate::fixed::lemma_tdiv_identity(nn, a);
    let rho = nn - a * t;
    assert(vstd::math::abs(rho) < a);

    // the exact algebraic identity behind the truncated formula, in steps:
    // expand by the leading coefficient, substitute the truncated root,
    // collapse the square of the formula's numerator, then substitute the
    // three division identities
    let res = a * (a * (t * t) + 2 * ss * (hb * t) + ss * ss * c);
    let m = a * t;
    let x1 = a * (t * t);
    let x2 = 2 * ss * (hb * t);
    let x3 = ss * ss * c;
    assert(a * (x1 + x2 + x3) == a * x1 + a * x2 + a * x3) by (nonlinear_arith);
    assert(a * x1 == m * m) by (nonlinear_arith)
        requires
            x1 == a * (t * t),
            m == a * t,
    ;
    assert(a * x2 == 2 * ss * (hb * m)) by (nonlinear_arith)
        requires
            x2 == 2 * ss * (hb * t),
            m == a * t,
    ;
    assert(a * x3 == (a * c) * (ss * ss)) by (nonlinear_arith)
        requires
            x3 == ss * ss * c,
    ;
    assert(res == m * m + 2 * ss * (hb * m) + (a * c) * (ss * ss));
    assert(m * m + 2 * ss * (hb * m) == nn * nn + 2 * ss * (hb * nn) - rho * (2 * m + rho) - 2
        * ss * (hb * rho)) by (nonlinear_arith)
        requires
            m == nn - rho,
    ;
    assert(sigma * sigma == 1);
    let w = -hb + sigma * sq;
    assert(nn * nn == (w * w) * (ss * ss)) by (nonlinear_arith)
        requires
            nn == w * ss,
    ;
    assert(2 * ss * (hb * nn) == (2 * (hb * w)) * (ss * ss)) by (nonlinear_arith)
        requires
            nn == w * ss,
    ;
    assert(w * w + 2 * (hb * w) == sq * sq - hb * hb) by (nonlinear_arith)
        requires
            w == -hb + sigma * sq,
            sigma * sigma == 1,
    ;
    assert((w * w) * (ss * ss) + (2 * (hb * w)) * (ss * ss) == (w * w + 2 * (hb * w)) * (ss * ss))
        by (nonlinear_arith);
    assert(nn * nn + 2 * ss * (hb * nn) == (sq * sq - hb * hb) * (ss * ss));
    assert((sq * sq - hb * hb) * (ss * ss) + (a * c) * (ss * ss) == ss * ss * (v - u - e2))
        by (nonlinear_arith)
        requires
            sq * sq == ss * (qh - qc) - e2,
            hb * hb == ss * qh + u,
            a * c == ss * qc + v,
    ;
    assert(res == ss * ss * (v - u - e2) - rho * (2 * m + rho) - 2 * ss * (hb * rho));

    // each rounding term is bounded by what produced it
    let tt = vstd::math::abs(t) as int;
    let hh = vstd::math::abs(hb) as int;
    assert(-(ss * ss * (2 * ss + 2 * sq)) <= ss * ss * (v - u - e2) <= ss * ss * (2 * ss + 2 * sq))
        by (nonlinear_arith)
        requires
            ss == 65536,
            -ss < v < ss,
            -ss < u < ss,
            0 <= e2 <= 2 * sq,
    ;
    assert(-(a * (2 * (a * tt) + a)) <= rho * (2 * (a * t) + rho) <= a * (2 * (a * tt) + a))
        by (nonlinear_arith)
        requires
            -a < rho < a,
            -tt <= t <= tt,
            0 <= tt,
            a > 0,
    ;
    assert(rho * (2 * m + rho) == rho * (2 * (a * t) + rho));
    assert(-(2 * ss * (hh * a)) <= 2 * ss * (hb * rho) <= 2 * ss * (hh * a)) by (nonlinear_arith)
        requires
            ss == 65536,
            -a < rho < a,
            -hh <= hb <= hh,
            0 <= hh,
            a > 0,
    ;
}

/// The reported parameter matches a root of the intersection quadratic
/// within quantified fixed-point tolerance: for any hit, `h.t` is one of
/// the two truncated quadratic-formula roots, and the quadratic's residual
/// at `h.t` (times the leading coefficient) is bounded by the rounding the
/// computation can introduce -- terms of one `SCALE` step each from the
/// discriminant's divisions, the floored square root, and the final
/// division.
pub proof fn lemma_hit_root_residual(
    s: Sphere,
    ro: Vec3i,
    rd: Vec3i,
    t_min: int,
    t_max: int,
    h: HitRec,
)
    requires
        sphere_hit_s(s, ro, rd, t_min, t_max) == Some(h),
    ensures
        ({
            let oc = vsub(ro, s.center@);
            let a = vdot(rd, rd);
            let half_b = vdot(oc, rd);
            let sq = sqrt_floor(sphere_discriminant(s, ro, rd) * SCALE);
            &&& a > 0
            &&& (h.t == tdiv((-half_b - sq) * SCALE, a) || h.t == tdiv(
                (-half_b + sq) * SCALE,
                a,
            ))
            &&& vstd::math::abs(a * quad_residual(s, ro, rd, h.t)) <= SCALE * SCALE * (2 * SCALE
                + 2 * sq) + a * (2 * (a * vstd::math::abs(h.t)) + a) + 2 * SCALE * (
            vstd::math::abs(half_b) * a)
        }),
{
    let oc = vsub(ro, s.center@);
    let a = vdot(rd, rd);
    let half_b = vdot(oc, rd);
    let c = vdot(oc, oc) - tdiv(s.radius * s.radius, SCALE as int);
    let disc = sphere_discriminant(s, ro, rd);
    let sq = sqrt_floor(disc * SCALE);
    crate::vec3::lemma_dot_self_nonneg(rd);
    let t1 = tdiv((-half_b - sq) * SCALE, a);
    if h.t == t1 {
        lemma_root_residual_core(a, half_b, c, disc, sq, -1, h.t);
        assert((-half_b + -1 * sq) * SCALE == (-half_b - sq) * SCALE);
    } else {
        lemma_root_residual_core(a, half_b, c, disc, sq, 1, h.t);
        assert((-half_b + 1 * sq) * SCALE == (-half_b + sq) * SCALE);
    }
}

/// The arithmetic core of the on-surface bound, over the scalar
/// ingredients alone: expanding the scaled squared distance around the
/// exact ray point and substituting the division identities leaves the
/// quadratic residual plus one rounding term per truncation.
proof fn lemma_surface_core(
    a: int,
    hb: int,
    cw: int,
    rr2: int,
    rr: int,
    t: int,
    qq: int,
    b1: int,
    ocx: int,
    ocy: int,
    ocz: int,
    dx: int,
    dy: int,
    dz: int,
    gx: int,
    gy: int,
    gz: int,
)
    requires
        a > 0,
        a == tdiv(dx * dx + dy * dy + dz * dz, 65536),
        hb == tdiv(ocx * dx + ocy * dy + ocz * dz, 65536),
        cw == tdiv(ocx * ocx + ocy * ocy + ocz * ocz, 65536),
        rr2 == tdiv(rr * rr, 65536),
        qq == a * (t * t) + 2 * 65536 * (hb * t) + 65536 * 65536 * (cw - rr2),
        vstd::math::abs(a * qq) <= b1,
        0 <= b1,
        gx == ocx + tdiv(dx * t, 65536),
        gy == ocy + tdiv(dy * t, 65536),
        gz == ocz + tdiv(dz * t, 65536),
    ensures
        ({
            let tt = vstd::math::abs(t) as int;
            let lsum = vstd::math::abs(65536 * ocx + dx * t) + vstd::math::abs(
                65536 * ocy + dy * t,
            ) + vstd::math::abs(65536 * ocz + dz * t);
            vstd::math::abs(a * (65536 * 65536 * (gx * gx + gy * gy + gz * gz - rr * rr))) <= 65536
                * b1 + a * (2 * (65536 * 65536 * 65536) + 2 * (65536 * 65536 * tt) + 65536 * (tt
                * tt) + 2 * (65536 * lsum) + 3 * (65536 * 65536))
        }),
{
    // each scaled component of g misses the exact ray point by < one step
    let mx = dx * t;
    let my = dy * t;
    let mz = dz * t;
    crate::fixed::lemma_tdiv_identity(mx, 65536);
    crate::fixed::lemma_tdiv_identity(my, 65536);
    crate::fixed::lemma_tdiv_identity(mz, 65536);
    let lx = 65536 * ocx + mx;
    let ly = 65536 * ocy + my;
    let lz = 65536 * ocz + mz;
    let sx = mx - 65536 * tdiv(mx, 65536);
    let sy = my - 65536 * tdiv(my, 65536);
    let sz = mz - 65536 * tdiv(mz, 65536);
    assert(65536 * gx == lx - sx);
    assert(65536 * gy == ly - sy);
    assert(65536 * gz == lz - sz);

    // expand the scaled squared distance around the exact ray point
    assert((65536 * gx) * (65536 * gx) == lx * lx - (2 * (lx * sx) - sx * sx)) by (nonlinear_arith)
        requires
            65536 * gx == lx - sx,
    ;
    assert((65536 * gy) * (65536 * gy) == ly * ly - (2 * (ly * sy) - sy * sy)) by (nonlinear_arith)
        requires
            65536 * gy == ly - sy,
    ;
    assert((65536 * gz) * (65536 * gz) == lz * lz - (2 * (lz * sz) - sz * sz)) by (nonlinear_arith)
        requires
            65536 * gz == lz - sz,
    ;
    assert((65536 * gx) * (65536 * gx) == 65536 * 65536 * (gx * gx)) by (nonlinear_arith);
    assert((65536 * gy) * (65536 * gy) == 65536 * 65536 * (gy * gy)) by (nonlinear_arith);
    assert((65536 * gz) * (65536 * gz) == 65536 * 65536 * (gz * gz)) by (nonlinear_arith);

    // expand each exact component square into the quadratic ingredients
    assert(lx * lx == 65536 * 65536 * (ocx * ocx) + 2 * 65536 * (ocx * mx) + mx * mx)
        by (nonlinear_arith)
        requires
            lx == 65536 * ocx + mx,
    ;
    assert(ly * ly == 65536 * 65536 * (ocy * ocy) + 2 * 65536 * (ocy * my) + my * my)
        by (nonlinear_arith)
        requires
            ly == 65536 * ocy + my,
    ;
    assert(lz * lz == 65536 * 65536 * (ocz * ocz) + 2 * 65536 * (ocz * mz) + mz * mz)
        by (nonlinear_arith)
        requires
            lz == 65536 * ocz + mz,
    ;
    assert(ocx * mx == (ocx * dx) * t && mx * mx == (dx * dx) * (t * t)) by (nonlinear_arith)
        requires
            mx == dx * t,
    ;
    assert(ocy * my == (ocy * dy) * t && my * my == (dy * dy) * (t * t)) by (nonlinear_arith)
        requires
            my == dy * t,
    ;
    assert(ocz * mz == (ocz * dz) * t && mz * mz == (dz * dz) * (t * t)) by (nonlinear_arith)
        requires
            mz == dz * t,
    ;
    let hsum = ocx * dx + ocy * dy + ocz * dz;
    let dd = dx * dx + dy * dy + dz * dz;
    assert((ocx * dx) * t + (ocy * dy) * t + (ocz * dz) * t == hsum * t) by (nonlinear_arith)
        requires
            hsum == ocx * dx + ocy * dy + ocz * dz,
    ;
    assert((dx * dx) * (t * t) + (dy * dy) * (t * t) + (dz * dz) * (t * t) == dd * (t * t))
        by (nonlinear_arith)
        requires
            dd == dx * dx + dy * dy + dz * dz,
    ;
    let pp = ocx * ocx + ocy * ocy + ocz * ocz;
    assert(lx * lx + ly * ly + lz * lz == 65536 * 65536 * pp + 2 * 65536 * (hsum * t) + dd * (t
        * t));

    // the division identities tying the raw sums to the coefficients
    crate::fixed::lemma_tdiv_identity(dd, 65536);
    let dprime = dd - 65536 * a;
    crate::fixed::lemma_tdiv_identity(hsum, 65536);
    let hprime = hsum - 65536 * hb;
    crate::fixed::lemma_tdiv_identity(pp, 65536);
    let pprime = pp - 65536 * cw;
    crate::fixed::lemma_tdiv_identity(rr * rr, 65536);
    let qprime = rr * rr - 65536 * rr2;

    // substitute: what is left beside the residual is pure rounding
    assert(hsum * t == 65536 * (hb * t) + hprime * t) by (nonlinear_arith)
        requires
            hsum == 65536 * hb + hprime,
    ;
    assert(dd * (t * t) == 65536 * (a * (t * t)) + dprime * (t * t)) by (nonlinear_arith)
        requires
            dd == 65536 * a + dprime,
    ;
    let gg = gx * gx + gy * gy + gz * gz;
    let scross = (2 * (lx * sx) - sx * sx) + (2 * (ly * sy) - sy * sy) + (2 * (lz * sz) - sz * sz);
    let err = 65536 * 65536 * pprime - 65536 * 65536 * qprime + 2 * 65536 * (hprime * t) + dprime
        * (t * t) - scross;
    assert(65536 * 65536 * gg == lx * lx + ly * ly + lz * lz - scross);
    assert(lx * lx + ly * ly + lz * lz == 65536 * 65536 * 65536 * cw + 65536 * 65536 * pprime + 2
        * 65536 * 65536 * (hb * t) + 2 * 65536 * (hprime * t) + 65536 * (a * (t * t)) + dprime * (
    t * t)) by (nonlinear_arith)
        requires
            lx * lx + ly * ly + lz * lz == 65536 * 65536 * pp + 2 * 65536 * (hsum * t) + dd * (t
                * t),
            pp == 65536 * cw + pprime,
            hsum * t == 65536 * (hb * t) + hprime * t,
            dd * (t * t) == 65536 * (a * (t * t)) + dprime * (t * t),
    ;
    assert(65536 * qq == 65536 * (a * (t * t)) + 2 * 65536 * 65536 * (hb * t) + 65536 * 65536
        * 65536 * cw - 65536 * 65536 * 65536 * rr2) by (nonlinear_arith)
        requires
            qq == a * (t * t) + 2 * 65536 * (hb * t) + 65536 * 65536 * (cw - rr2),
    ;
    assert(65536 * 65536 * 65536 * rr2 == 65536 * 65536 * (rr * rr) - 65536 * 65536 * qprime)
        by (nonlinear_arith)
        requires
            rr * rr == 65536 * rr2 + qprime,
    ;
    assert(65536 * 65536 * gg == 65536 * qq + 65536 * 65536 * (rr * rr) + err);

    // bound every rounding term
    let tt = vstd::math::abs(t) as int;
    let alx = vstd::math::abs(lx) as int;
    let aly = vstd::math::abs(ly) as int;
    let alz = vstd::math::abs(lz) as int;
    assert(-(2 * (65536 * alx) + 65536 * 65536) <= 2 * (lx * sx) - sx * sx <= 2 * (65536 * alx)
        + 65536 * 65536) by (nonlinear_arith)
        requires
            -65536 < sx < 65536,
            -alx <= lx <= alx,
            0 <= alx,
    ;
    assert(-(2 * (65536 * aly) + 65536 * 65536) <= 2 * (ly * sy) - sy * sy <= 2 * (65536 * aly)
        + 65536 * 65536) by (nonlinear_arith)
        requires
            -65536 < sy < 65536,
            -aly <= ly <= aly,
            0 <= aly,
    ;
    assert(-(2 * (65536 * alz) + 65536 * 65536) <= 2 * (lz * sz) - sz * sz <= 2 * (65536 * alz)
        + 65536 * 65536) by (nonlinear_arith)
        requires
            -65536 < sz < 65536,
            -alz <= lz <= alz,
            0 <= alz,
    ;
    assert(-(65536 * tt) <= hprime * t <= 65536 * tt) by (nonlinear_arith)
        requires
            -65536 < hprime < 65536,
            -tt <= t <= tt,
            0 <= tt,
    ;
    assert(-(65536 * (tt * tt)) <= dprime * (t * t) <= 65536 * (tt * tt)) by (nonlinear_arith)
        requires
            -65536 < dprime < 65536,
            -tt <= t <= tt,
            0 <= tt,
    ;
    let ebound = 2 * (65536 * 65536 * 65536) + 2 * (65536 * 65536 * tt) + 65536 * (tt * tt) + 2 * (
    65536 * (alx + aly + alz)) + 3 * (65536 * 65536);
    assert(vstd::math::abs(err) <= ebound);

    // multiply through by the leading coefficient and apply the root bound
    let surf = 65536 * 65536 * (gg - rr * rr);
    assert(a * surf == 65536 * (a * qq) + a * err) by (nonlinear_arith)
        requires
            surf == 65536 * qq + err,
    ;
    assert(-(65536 * b1) <= 65536 * (a * qq) <= 65536 * b1);
    assert(-(a * ebound) <= a * err <= a * ebound) by (nonlinear_arith)
        requires
            -ebound <= err <= ebound,
            0 <= ebound,
            a > 0,
    ;
    assert(vstd::math::abs(a * surf) <= 65536 * b1 + a * ebound);
}

/// The reported hit point lies on the sphere's surface up to quantified
/// rounding: the squared distance from the hit point to the center differs
/// from the squared radius by at most the rounding the intersection can
/// introduce. The inequality is stated multiplied through by the leading
/// coefficient `a` and by one `SCALE` per squaring (the scale of raw
/// squared distances): the right-hand side collects one `SCALE`-step error
/// from each division and the floored square root, so for unit-scale
/// directions the hit point is on the surface up to a few rounding steps
/// times the scene scale.
pub proof fn lemma_hit_on_surface(
    s: Sphere,
    ro: Vec3i,
    rd: Vec3i,
    t_min: int,
    t_max: int,
    h: HitRec,
)
    requires
        sphere_hit_s(s, ro, rd, t_min, t_max) == Some(h),
    ensures
        ({
            let oc = vsub(ro, s.center@);
            let a = vdot(rd, rd);
            let half_b = vdot(oc, rd);
            let sq = sqrt_floor(sphere_discriminant(s, ro, rd) * SCALE);
            let g = vsub(h.hit_point, s.center@);
            let tt = vstd::math::abs(h.t) as int;
            let hh = vstd::math::abs(half_b) as int;
            let lsum = vstd::math::abs(65536 * oc.x + rd.x * h.t) + vstd::math::abs(
                65536 * oc.y + rd.y * h.t,
            ) + vstd::math::abs(65536 * oc.z + rd.z * h.t);
            vstd::math::abs(
                a * (65536 * 65536 * (g.x * g.x + g.y * g.y + g.z * g.z - s.radius * s.radius)),
            ) <= 65536 * (65536 * 65536 * (2 * 65536 + 2 * sq) + a * (2 * (a * tt) + a) + 2 * 65536
                * (hh * a)) + a * (2 * (65536 * 65536 * 65536) + 2 * (65536 * 65536 * tt) + 65536
                * (tt * tt) + 2 * (65536 * lsum) + 3 * (65536 * 65536))
        }),
{
    let oc = vsub(ro, s.center@);
    let a = vdot(rd, rd);
    let hb = vdot(oc, rd);
    let sq = sqrt_floor(sphere_discriminant(s, ro, rd) * SCALE);
    let g = vsub(h.hit_point, s.center@);
    let t = h.t;
    lemma_hit_root_residual(s, ro, rd, t_min, t_max, h);
    let tt = vstd::math::abs(t) as int;
    let hh = vstd::math::abs(hb) as int;
    let b1 = 65536 * 65536 * (2 * 65536 + 2 * sq) + a * (2 * (a * tt) + a) + 2 * 65536 * (hh * a);
    assert(h.hit_point == vadd(ro, vscale(rd, t)));
    assert(g.x == oc.x + tdiv(rd.x * t, 65536));
    assert(g.y == oc.y + tdiv(rd.y * t, 65536));
    assert(g.z == oc.z + tdiv(rd.z * t, 65536));
    lemma_surface_core(
        a,
        hb,
        vdot(oc, oc),
        tdiv(s.radius * s.radius, SCALE as int),
        s.radius as int,
        t,
        quad_residual(s, ro, rd, t),
        b1,
        oc.x,
        oc.y,
        oc.z,
        rd.x,
        rd.y,
        rd.z,
        g.x,
        g.y,
        g.z,
    );
}

/// A ray known analytically to pass through a sphere's center reports the
/// closed-form root. For a unit direction along negative `z` and an origin
/// `k` fixed-point steps beyond the center, every fixed-point step of the
/// computation is exact (the radius is a multiple of 256 steps, so its
/// square and square root carry no rounding), and the reported parameter
/// is exactly `k - radius`: the distance to the center minus the radius.
/// The hit point sits on the surface directly under the origin and the
/// normal is the positive `z` unit vector, oriented against the ray.
pub proof fn lemma_hit_through_center(s: Sphere, ray: Ray, m: int, k: int, t_min: int, t_max: int)
    requires
        s.wf(),
        ray.wf(),
        s.radius == 256 * m,
        1 <= m,
        ray.direction@ == (Vec3i { x: 0, y: 0, z: -(SCALE as int) }),
        ray.origin@ == vadd(s.center@, Vec3i { x: 0, y: 0, z: k }),
        s.radius < k,
        t_min <= k - s.radius < t_max,
    ensures
        sphere_hit_s(s, ray.origin@, ray.direction@, t_min, t_max) == Some(
            HitRec {
                t: k - s.radius,
                hit_point: vadd(s.center@, Vec3i { x: 0, y: 0, z: s.radius as int }),
                normal: Vec3i { x: 0, y: 0, z: SCALE as int },
                material: s.material,
            },
        ),
{
    let ro = ray.origin@;
    let rd = ray.direction@;
    let rr = s.radius as int;
    let oc = vsub(ro, s.center@);
    assert(oc == (Vec3i { x: 0, y: 0, z: k }));

    // a = |direction|^2 = 1
    assert(rd.x * rd.x == 0 && rd.y * rd.y == 0) by (nonlinear_arith)
        requires
            rd.x == 0,
            rd.y == 0,
    ;
    assert(rd.z * rd.z == 65536 * 65536) by (nonlinear_arith)
        requires
            rd.z == -65536,
    ;
    vstd::arithmetic::div_mod::lemma_div_multiples_vanish(65536, 65536);
    assert(vdot(rd, rd) == 65536);

    // half_b = oc . direction = -k
    assert(oc.x * rd.x == 0 && oc.y * rd.y == 0) by (nonlinear_arith)
        requires
            oc.x == 0,
            oc.y == 0,
    ;
    assert(oc.z * rd.z == -(65536 * k)) by (nonlinear_arith)
        requires
            oc.z == k,
            rd.z == -65536,
    ;
    lemma_tdiv_neg(65536 * k, 65536);
    vstd::arithmetic::div_mod::lemma_div_multiples_vanish(k, 65536);
    assert(tdiv(65536 * k, 65536) == k);
    assert(vdot(oc, rd) == -k);
    let half_b = vdot(oc, rd);

    // c = |oc|^2 - radius^2 (both rescaled)
    assert(oc.x * oc.x == 0 && oc.y * oc.y == 0 && oc.z * oc.z == k * k) by (nonlinear_arith)
        requires
            oc.x == 0,
            oc.y == 0,
            oc.z == k,
    ;
    assert(vdot(oc, oc) == tdiv(k * k, 65536));
    let c_val = vdot(oc, oc) - tdiv(rr * rr, SCALE as int);

    // the radius is 256 m steps, so its square rescales exactly to m^2
    assert(rr * rr == 65536 * (m * m)) by (nonlinear_arith)
        requires
            rr == 256 * m,
    ;
    vstd::arithmetic::div_mod::lemma_div_multiples_vanish(m * m, 65536);
    assert(m * m >= 0) by (nonlinear_arith);
    assert(tdiv(rr * rr, SCALE as int) == m * m);

    // the discriminant collapses to radius^2: tdiv(hb^2) - c = m^2
    assert(half_b * half_b == k * k) by (nonlinear_arith)
        requires
            half_b == -k,
    ;
    lemma_tdiv_mag(k * k, 65536);
    assert(k * k >= 0) by (nonlinear_arith);
    vstd::arithmetic::div_mod::lemma_div_multiples_vanish(c_val, 65536);
    lemma_tdiv_neg(65536 * -c_val, 65536);
    assert(65536 * c_val == -(65536 * -c_val));
    assert(tdiv(65536 * c_val, 65536) == c_val);
    let disc = sphere_discriminant(s, ro, rd);
    assert(disc == tdiv(k * k, 65536) - c_val);
    assert(disc == m * m);

    // the square root of the rescaled discriminant is exact: 256 m
    assert(disc * SCALE == 65536 * (m * m));
    assert((256 * m) * (256 * m) == 65536 * (m * m)) by (nonlinear_arith);
    assert(65536 * (m * m) < (256 * m + 1) * (256 * m + 1)) by (nonlinear_arith)
        requires
            m >= 1,
    ;
    crate::fixed::lemma_sqrt_floor_unique(disc * SCALE, 256 * m);
    let sq = sqrt_floor(disc * SCALE);
    assert(sq == rr);

    // the nearer root is exactly k - radius, inside the window
    assert((-half_b - sq) * SCALE == 65536 * (k - rr)) by (nonlinear_arith)
        requires
            half_b == -k,
            sq == rr,
            SCALE == 65536,
    ;
    vstd::arithmetic::div_mod::lemma_div_multiples_vanish(k - rr, 65536);
    assert(k - rr >= 0);
    let t1 = tdiv((-half_b - sq) * SCALE, vdot(rd, rd));
    assert(t1 == k - rr);

    // the hit point is on the surface directly below the origin
    let t = k - rr;
    assert(rd.x * t == 0 && rd.y * t == 0 && rd.z * t == -(65536 * t)) by (nonlinear_arith)
        requires
            rd.x == 0,
            rd.y == 0,
            rd.z == -65536,
    ;
    vstd::arithmetic::div_mod::lemma_div_of0(65536);
    lemma_tdiv_neg(65536 * t, 65536);
    vstd::arithmetic::div_mod::lemma_div_multiples_vanish(t, 65536);
    let hp = vadd(ro, vscale(rd, t));
    assert(hp == vadd(s.center@, Vec3i { x: 0, y: 0, z: rr }));

    // the outward normal is the z unit vector, already opposing the ray
    let outward = outward_normal_s(s.center@, rr, hp);
    assert((hp.x - s.center@.x) * SCALE == 0 && (hp.y - s.center@.y) * SCALE == 0);
    vstd::arithmetic::div_mod::lemma_div_of0(rr);
    assert(tdiv(0, rr) == 0);
    assert((hp.z - s.center@.z) * SCALE == rr * 65536);
    vstd::arithmetic::div_mod::lemma_div_multiples_vanish(65536, rr);
    assert(tdiv(rr * 65536, rr) == 65536);
    assert(outward == (Vec3i { x: 0, y: 0, z: 65536 }));

    assert(rd.x * outward.x == 0 && rd.y * outward.y == 0) by (nonlinear_arith)
        requires
            rd.x == 0,
            rd.y == 0,
    ;
    assert(rd.z * outward.z == -(65536 * 65536)) by (nonlinear_arith)
        requires
            rd.z == -65536,
            outward.z == 65536,
    ;
    lemma_tdiv_neg(65536int * 65536, 65536);
    assert(vdot(rd, outward) == -65536);

    // both representability checks pass: the hit point inherits the
    // origin's bound and the normal is exactly one unit long
    assert(vbounded(hp, POS_LIMIT as int));
    assert(vbounded(outward, UNIT_LIMIT as int));
}

/// The view of an optional hit record.
pub open spec fn view_opt(o: Option<HitData>) -> Option<HitRec> {
    match o {
        Some(h) => Some(h@),
        None => None,
    }
}

/// The scene walk: each primitive is intersected over a window whose upper
/// end shrinks to the best `t` seen so far, so a strictly closer hit is the
/// only thing that can displace the current one.
pub open spec fn scene_fold(
    elems: Seq<Sphere>,
    ro: Vec3i,
    rd: Vec3i,
    t_min: int,
    acc: Option<HitRec>,
    cur_max: int,
) -> Option<HitRec>
    decreases elems.len(),
{
    if elems.len() == 0 {
        acc
    } else {
        match sphere_hit_s(elems[0], ro, rd, t_min, cur_max) {
            Some(h) => scene_fold(elems.drop_first(), ro, rd, t_min, Some(h), h.t),
            None => scene_fold(elems.drop_first(), ro, rd, t_min, acc, cur_max),
        }
    }
}

/// What the scene reports: the closest hit among its primitives within
/// `[t_min, t_max]`, or nothing.
pub open spec fn scene_hit_s(
    elems: Seq<Sphere>,
    ro: Vec3i,
    rd: Vec3i,
    t_min: int,
    t_max: int,
) -> Option<HitRec> {
    scene_fold(elems, ro, rd, t_min, None, t_max)
}

/// The scene aggregate: an ordered collection of primitives, immutable
/// during a render pass.
pub struct Scene {
    pub elements: Vec<Sphere>,
}

impl Scene {
    pub open spec fn wf(self) -> bool {
        forall|i: int| 0 <= i < self.elements@.len() ==> (#[trigger] self.elements@[i]).wf()
    }

    pub fn new() -> (r: Scene)
        ensures
            r.elements@.len() == 0,
            r.wf(),
    {
        Scene { elements: Vec::new() }
    }

    pub fn add_hittable(&mut self, sphere: Sphere)
        requires
            old(self).wf(),
            sphere.wf(),
        ensures
            final(self).elements@ == old(self).elements@.push(sphere),
            final(self).wf(),
    {
        self.elements.push(sphere);
    }

    /// The closest hit over all primitives, exactly as `scene_hit_s`
    /// states: the window's upper end narrows to each hit found and each
    /// primitive's window is half-open at the top, so later equal-or-farther
    /// hits are structurally excluded and ties go to the first found.
    pub fn hit(&self, ray: &Ray, t_min: i64, t_max: i64) -> (r: Option<HitData>)
        requires
            self.wf(),
            ray.wf(),
        ensures
            view_opt(r) == scene_hit_s(
                self.elements@,
                ray.origin@,
                ray.direction@,
                t_min as int,
                t_max as int,
            ),
            r matches Some(h) ==> h.wf() && t_min <= h.t < t_max,
    {
        let ghost ro = ray.origin@;
        let ghost rd = ray.direction@;
        let mut closest_hit: Option<HitData> = None;
        let mut closest_so_far: i64 = t_max;
        let n: usize = self.elements.len();
        let mut i: usize = 0;
        proof {
            assert(self.elements@.skip(0) =~= self.elements@);
        }
        while i < n
            invariant
                n == self.elements.len(),
                i <= n,
                self.wf(),
                ray.wf(),
                ro == ray.origin@,
                rd == ray.direction@,
                match closest_hit {
                    Some(h) => h.wf() && t_min <= h.t < t_max && closest_so_far == h.t,
                    None => closest_so_far == t_max,
                },
                scene_hit_s(self.elements@, ro, rd, t_min as int, t_max as int) == scene_fold(
                    self.elements@.skip(i as int),
                    ro,
                    rd,
                    t_min as int,
                    view_opt(closest_hit),
                    closest_so_far as int,
                ),
            decreases n - i,
        {
            let ghost rest = self.elements@.skip(i as int);
            proof {
                assert(rest[0] == self.elements@[i as int]);
                assert(rest.drop_first() =~= self.elements@.skip(i as int + 1));
            }
            let element = &self.elements[i];
            match element.hit(ray, t_min, closest_so_far) {
                Some(hit_data) => {
                    closest_so_far = hit_data.t;
                    closest_hit = Some(hit_data);
                },
                None => {},
            }
            i = i + 1;
        }
        proof {
            assert(self.elements@.skip(n as int) =~= Seq::<Sphere>::empty());
        }
        closest_hit
    }
}

/// The products feeding the hit-point computation fit in 128 bits.
proof fn lemma_hit_point_products(t: int, rd: Vec3i)
    requires
        -0x8000_0000_0000_0000 <= t <= 0x8000_0000_0000_0000,
        vbounded(rd, 0x8000_0000_0000_0000),
    ensures
        vstd::math::abs(rd.x * t) <= 0x4000_0000_0000_0000_0000_0000_0000_0000,
        vstd::math::abs(rd.y * t) <= 0x4000_0000_0000_0000_0000_0000_0000_0000,
        vstd::math::abs(rd.z * t) <= 0x4000_0000_0000_0000_0000_0000_0000_0000,
{
    assert(vstd::math::abs(rd.x * t) <= 0x4000_0000_0000_0000_0000_0000_0000_0000
        && vstd::math::abs(rd.y * t) <= 0x4000_0000_0000_0000_0000_0000_0000_0000
        && vstd::math::abs(rd.z * t) <= 0x4000_0000_0000_0000_0000_0000_0000_0000)
        by (nonlinear_arith)
        requires
            -0x8000_0000_0000_0000 <= t <= 0x8000_0000_0000_0000,
            vbounded(rd, 0x8000_0000_0000_0000),
    ;
}

} // verus!
