//! A ray: an origin plus an (unnormalized) direction.

use vstd::prelude::*;
use crate::fixed::{lemma_mul_scale_bound};
use crate::vec3::{Vec3, vadd, vscale, vbounded, in_range, VEC_LIMIT, DIR_LIMIT, POS_LIMIT};

verus! {

#[derive(Clone, Copy, Debug)]
pub struct Ray {
    pub origin: Vec3,
    pub direction: Vec3,
}

impl Ray {
    /// Origins stay inside the representable scene volume; directions span
    /// at most the direction limit.
    pub open spec fn wf(self) -> bool {
        vbounded(self.origin@, POS_LIMIT as int) && vbounded(self.direction@, DIR_LIMIT as int)
    }

    pub fn new(origin: Vec3, direction: Vec3) -> (r: Ray)
        ensures
            r == (Ray { origin, direction }),
    {
        Ray { origin, direction }
    }

    /// The point `origin + t * direction` along the ray.
    pub fn point_at_parameter(&self, t: i64) -> (r: Vec3)
        requires
            self.wf(),
            in_range(t as int),
        ensures
            r@ == vadd(self.origin@, vscale(self.direction@, t as int)),
    {
        proof {
            lemma_mul_scale_bound(
                self.direction@.x,
                t as int,
                DIR_LIMIT as int,
                VEC_LIMIT as int,
            );
            lemma_mul_scale_bound(
                self.direction@.y,
                t as int,
                DIR_LIMIT as int,
                VEC_LIMIT as int,
            );
            lemma_mul_scale_bound(
                self.direction@.z,
                t as int,
                DIR_LIMIT as int,
                VEC_LIMIT as int,
            );
        }
        let s: Vec3 = self.direction.scale(t);
        Vec3 {
            x: self.origin.x + s.x,
            y: self.origin.y + s.y,
            z: self.origin.z + s.z,
        }
    }
}

} // verus!
