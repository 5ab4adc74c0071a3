//! Materials: polymorphic surface response as a closed tagged union.
//!
//! Each material answers the scatter contract: given an incoming ray and a
//! hit record, it produces an attenuation color and an outgoing ray, or
//! signals absorption with `None`. The stochastic part of each scatter is a
//! single draw from the unit sphere; the deterministic rest is factored into
//! a `..._sampled` function with an exact contract over that draw.

use vstd::prelude::*;
use crate::fixed::{SCALE, lemma_mul_scale_bound};
use crate::vec3::{
    Vec3, Vec3i, vadd, vscale, vdot, vnormalize, vreflect, vbounded, UNIT_LIMIT,
    lemma_dot_self_nonneg,
};
use crate::ray::Ray;
use crate::geometry::HitData;
use crate::sampler::{Sampler, random_in_unit_sphere, random_in_hemisphere};

verus! {

/// A color: every channel in `[0, 1]` as a fixed-point scalar.
pub open spec fn color_wf(c: Vec3i) -> bool {
    0 <= c.x <= SCALE && 0 <= c.y <= SCALE && 0 <= c.z <= SCALE
}

/// A diffuse surface that scatters into the hemisphere of the normal.
#[derive(Clone, Copy, Debug)]
pub struct Lambertian {
    pub albedo: Vec3,
}

/// A reflective surface; `roughness` perturbs the mirror direction.
#[derive(Clone, Copy, Debug)]
pub struct Metallic {
    pub albedo: Vec3,
    pub roughness: i64,
}

/// Surface response: the closed union of the material kinds, dispatched by
/// pattern matching.
#[derive(Clone, Copy, Debug)]
pub enum Material {
    Lambertian(Lambertian),
    Metallic(Metallic),
}

impl Lambertian {
    pub open spec fn wf(self) -> bool {
        color_wf(self.albedo@)
    }

    pub fn new(albedo: Vec3) -> (r: Lambertian)
        requires
            color_wf(albedo@),
        ensures
            r.albedo == albedo,
            r.wf(),
    {
        Lambertian { albedo }
    }

    /// Scatter into the hemisphere of the hit normal. A Lambertian surface
    /// always scatters: the result is never `None`. A degenerate (all-zero)
    /// random offset is replaced by the normal itself.
    pub fn scatter(&self, _ray_in: &Ray, data: &HitData, sampler: &mut Sampler) -> (r: Option<
        (Vec3, Ray),
    >)
        requires
            self.wf(),
            data.wf(),
        ensures
            r is Some,
            r matches Some(p) ==> {
                &&& p.0 == self.albedo
                &&& p.1.origin == data.hit_point
                &&& vbounded(p.1.direction@, UNIT_LIMIT as int)
                &&& vdot(p.1.direction@, data.normal@) >= 0
                &&& (p.1.direction@ == data.normal@ || (vdot(p.1.direction@, p.1.direction@)
                    < SCALE && p.1.direction@ != (Vec3i { x: 0, y: 0, z: 0 })))
                &&& p.1.wf()
            },
    {
        // The scattered ray aims at `hit_point + offset`; subtracting the
        // shared `hit_point` cancels exactly in integer arithmetic, so the
        // offset itself is the direction.
        let offset: Vec3 = random_in_hemisphere(data.normal, sampler);
        let scatter_direction: Vec3 = if offset.near_zero() {
            proof {
                lemma_dot_self_nonneg(data.normal@);
            }
            data.normal
        } else {
            offset
        };
        let new_ray: Ray = Ray::new(data.hit_point, scatter_direction);
        Some((self.albedo, new_ray))
    }
}

/// The perturbed mirror direction of a metallic scatter: the normalized
/// reflection plus `roughness` times the unit-sphere draw.
pub open spec fn metallic_dir(roughness: int, in_dir: Vec3i, normal: Vec3i, sample: Vec3i) -> Vec3i {
    vadd(vnormalize(vreflect(in_dir, normal)), vscale(sample, roughness))
}

/// With zero roughness the perturbation vanishes: the metallic scatter
/// direction is exactly the normalized reflection, whatever was drawn.
pub proof fn lemma_metallic_dir_smooth(in_dir: Vec3i, normal: Vec3i, sample: Vec3i)
    ensures
        metallic_dir(0, in_dir, normal, sample) == vnormalize(vreflect(in_dir, normal)),
{
    assert(sample.x * 0 == 0 && sample.y * 0 == 0 && sample.z * 0 == 0) by (nonlinear_arith);
    vstd::arithmetic::div_mod::lemma_div_of0(SCALE as int);
    assert(vscale(sample, 0) == (Vec3i { x: 0, y: 0, z: 0 }));
}

impl Metallic {
    pub open spec fn wf(self) -> bool {
        color_wf(self.albedo@) && 0 <= self.roughness <= SCALE
    }

    pub fn new(albedo: Vec3, roughness: i64) -> (r: Metallic)
        requires
            color_wf(albedo@),
            0 <= roughness <= SCALE,
        ensures
            r.albedo == albedo,
            r.roughness == roughness,
            r.wf(),
    {
        Metallic { albedo, roughness }
    }

    /// The deterministic part of the metallic scatter, applied to one draw
    /// `sample` from the unit sphere: the ray reflects about the normal,
    /// the reflection is perturbed by `roughness * sample`, and the result
    /// is absorbed exactly when the perturbed direction does not point away
    /// from the surface.
    pub fn scatter_sampled(&self, ray_in: &Ray, data: &HitData, sample: Vec3) -> (r: Option<
        (Vec3, Ray),
    >)
        requires
            self.wf(),
            data.wf(),
            ray_in.wf(),
            vbounded(sample@, SCALE as int),
        ensures
            ({
                let dir = metallic_dir(
                    self.roughness as int,
                    ray_in.direction@,
                    data.normal@,
                    sample@,
                );
                &&& (r is Some <==> vdot(dir, data.normal@) > 0)
                &&& (r matches Some(p) ==> {
                    &&& p.0 == self.albedo
                    &&& p.1.origin == data.hit_point
                    &&& p.1.direction@ == dir
                    &&& p.1.wf()
                })
            }),
    {
        let reflected_direction: Vec3 = ray_in.direction.reflect(data.normal).normalize();

        // Mimic the metallic imperfections by perturbing the reflected ray.
        proof {
            lemma_mul_scale_bound(sample@.x, self.roughness as int, SCALE as int, SCALE as int);
            lemma_mul_scale_bound(sample@.y, self.roughness as int, SCALE as int, SCALE as int);
            lemma_mul_scale_bound(sample@.z, self.roughness as int, SCALE as int, SCALE as int);
        }
        let roughness_perturbation: Vec3 = sample.scale(self.roughness);

        let direction: Vec3 = reflected_direction.add(roughness_perturbation);
        let new_ray: Ray = Ray::new(data.hit_point, direction);

        // Absorb the ray unless it points outside the object.
        let d: i64 = direction.dot(data.normal);
        if d > 0 {
            Some((self.albedo, new_ray))
        } else {
            None
        }
    }

    /// Scatter by reflection with a random roughness perturbation; `None`
    /// means the perturbed ray pointed into the surface and was absorbed.
    pub fn scatter(&self, ray_in: &Ray, data: &HitData, sampler: &mut Sampler) -> (r: Option<
        (Vec3, Ray),
    >)
        requires
            self.wf(),
            data.wf(),
            ray_in.wf(),
        ensures
            r matches Some(p) ==> {
                &&& p.0 == self.albedo
                &&& p.1.origin == data.hit_point
                &&& vdot(p.1.direction@, data.normal@) > 0
                &&& p.1.wf()
            },
            self.roughness == 0 ==> {
                let refl = vnormalize(vreflect(ray_in.direction@, data.normal@));
                &&& (r is Some <==> vdot(refl, data.normal@) > 0)
                &&& (r matches Some(p) ==> p.1.direction@ == refl)
            },
    {
        let sample: Vec3 = random_in_unit_sphere(sampler);
        let r = self.scatter_sampled(ray_in, data, sample);
        proof {
            if self.roughness == 0 {
                lemma_metallic_dir_smooth(ray_in.direction@, data.normal@, sample@);
            }
        }
        r
    }
}

impl Material {
    pub open spec fn wf(self) -> bool {
        match self {
            Material::Lambertian(m) => m.wf(),
            Material::Metallic(m) => m.wf(),
        }
    }

    /// The albedo of the material, the attenuation a scatter applies.
    pub open spec fn albedo_s(self) -> Vec3i {
        match self {
            Material::Lambertian(m) => m.albedo@,
            Material::Metallic(m) => m.albedo@,
        }
    }

    /// The scatter contract: an attenuation color in
    /// `[0, 1]` per channel and an outgoing ray from the hit point, or
    /// `None` for absorption. A Lambertian material always scatters.
    pub fn scatter(&self, ray_in: &Ray, data: &HitData, sampler: &mut Sampler) -> (r: Option<
        (Vec3, Ray),
    >)
        requires
            self.wf(),
            data.wf(),
            ray_in.wf(),
        ensures
            r matches Some(p) ==> {
                &&& p.0@ == self.albedo_s()
                &&& color_wf(p.0@)
                &&& p.1.origin == data.hit_point
                &&& p.1.wf()
            },
            self is Lambertian ==> r is Some,
            self matches Material::Metallic(m) && m.roughness == 0 ==> (r is Some <==> vdot(
                vnormalize(vreflect(ray_in.direction@, data.normal@)),
                data.normal@,
            ) > 0),
    {
        match self {
            Material::Lambertian(m) => m.scatter(ray_in, data, sampler),
            Material::Metallic(m) => m.scatter(ray_in, data, sampler),
        }
    }
}

} // verus!
