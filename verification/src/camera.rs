//! The camera: maps normalized image-plane coordinates to primary rays.

use vstd::prelude::*;
use crate::fixed::{tdiv, half, SCALE, lemma_mul_scale_bound};
use crate::vec3::{Vec3, Vec3i, vadd, vsub, vscale, POS_LIMIT};
use crate::ray::Ray;

verus! {

/// The primary-ray direction for image-plane coordinates `(u, v)`:
/// `lower_left_corner + u * right + v * up - position`.
pub open spec fn camera_dir(cam: Camera, u: int, v: int) -> Vec3i {
    vsub(
        vadd(vadd(cam.lower_left_corner@, vscale(cam.right@, u)), vscale(cam.up@, v)),
        cam.position@,
    )
}

pub struct Camera {
    pub position: Vec3,
    pub right: Vec3,
    pub up: Vec3,
    pub back: Vec3,
    pub focal_length: i64,
    pub lower_left_corner: Vec3,
}

impl Camera {
    /// The camera sits at the origin; its basis vectors are axis-aligned
    /// and sized by the viewport, and the lower-left corner is derived
    /// from them.
    pub open spec fn wf(self) -> bool {
        &&& self.position@ == (Vec3i { x: 0, y: 0, z: 0 })
        &&& self.right@.y == 0 && self.right@.z == 0
        &&& 0 <= self.right@.x <= POS_LIMIT
        &&& self.up@.x == 0 && self.up@.z == 0
        &&& 0 <= self.up@.y <= POS_LIMIT
        &&& self.back@.x == 0 && self.back@.y == 0
        &&& self.back@.z == self.focal_length
        &&& 0 <= self.focal_length <= POS_LIMIT
        &&& self.lower_left_corner@ == (Vec3i {
            x: -tdiv(self.right@.x, 2),
            y: -tdiv(self.up@.y, 2),
            z: -self.focal_length as int,
        })
    }

    pub fn new(focal_length: i64, viewport_width: i64, viewport_height: i64) -> (r: Camera)
        requires
            0 <= focal_length <= POS_LIMIT,
            0 <= viewport_width <= POS_LIMIT,
            0 <= viewport_height <= POS_LIMIT,
        ensures
            r.wf(),
            r.right@ == (Vec3i { x: viewport_width as int, y: 0, z: 0 }),
            r.up@ == (Vec3i { x: 0, y: viewport_height as int, z: 0 }),
            r.back@ == (Vec3i { x: 0, y: 0, z: focal_length as int }),
            r.focal_length == focal_length,
    {
        let origin: Vec3 = Vec3::new(0, 0, 0);
        let right: Vec3 = Vec3::new(viewport_width, 0, 0);
        let up: Vec3 = Vec3::new(0, viewport_height, 0);
        let back: Vec3 = Vec3::new(0, 0, focal_length);
        proof {
            crate::fixed::lemma_tdiv_mag(viewport_width as int, 2);
            crate::fixed::lemma_tdiv_mag(viewport_height as int, 2);
        }
        let half_right: i64 = half(viewport_width);
        let half_up: i64 = half(viewport_height);
        let lower_left_corner: Vec3 = Vec3::new(-half_right, -half_up, -focal_length);
        Camera { position: origin, right, up, back, focal_length, lower_left_corner }
    }

    /// The primary ray through image-plane coordinates `(u, v)`, both in
    /// `[0, 1]` as fixed-point scalars: left-to-right and bottom-to-top.
    pub fn get_ray_at_coords(&self, u: i64, v: i64) -> (r: Ray)
        requires
            self.wf(),
            0 <= u <= SCALE,
            0 <= v <= SCALE,
        ensures
            r.origin == self.position,
            r.direction@ == camera_dir(*self, u as int, v as int),
            r.wf(),
    {
        proof {
            lemma_mul_scale_bound(self.right@.x, u as int, POS_LIMIT as int, SCALE as int);
            lemma_mul_scale_bound(self.right@.y, u as int, POS_LIMIT as int, SCALE as int);
            lemma_mul_scale_bound(self.right@.z, u as int, POS_LIMIT as int, SCALE as int);
            lemma_mul_scale_bound(self.up@.x, v as int, POS_LIMIT as int, SCALE as int);
            lemma_mul_scale_bound(self.up@.y, v as int, POS_LIMIT as int, SCALE as int);
            lemma_mul_scale_bound(self.up@.z, v as int, POS_LIMIT as int, SCALE as int);
        }
        let su: Vec3 = self.right.scale(u);
        let sv: Vec3 = self.up.scale(v);
        let camera_direction: Vec3 = self.lower_left_corner.add(su).add(sv).sub(self.position);
        Ray::new(self.position, camera_direction)
    }
}

} // verus!
