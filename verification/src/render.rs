//! The render driver: per-pixel multi-sample, depth-limited recursive
//! radiance estimation over a scene and camera.

use vstd::prelude::*;
use crate::fixed::{
    tdiv, tdiv_i64, half, fit_range, fit_range_s, SCALE, lemma_tdiv_mag, lemma_unit_product_range,
    lemma_lerp_channel_range,
};
use vstd::arithmetic::div_mod::{lemma_div_is_ordered, lemma_div_multiples_vanish};
use crate::vec3::{Vec3, Vec3i, vlerp, vmul, vnormalize};
use crate::ray::Ray;
use crate::camera::Camera;
use crate::geometry::{Scene, Sphere, scene_hit_s};
use crate::materials::{Material, Lambertian, Metallic, color_wf};
use crate::sampler::Sampler;

verus! {

/// Lower end of the intersection window: offset from zero (one
/// thousandth of a unit) to avoid self-intersections caused by rounding.
pub const T_MIN: i64 = 66;

/// Upper end of the intersection window: the largest representable
/// parameter, standing in for infinity.
pub const T_MAX: i64 = 0x7fff_ffff_ffff_ffff;

/// Application-level failures: a render task that failed outright, or
/// render parameters rejected before any work started.
#[derive(Debug, Clone)]
pub enum AppError {
    RenderError,
    InvalidConfiguration,
}

pub open spec fn black() -> Vec3i {
    Vec3i { x: 0, y: 0, z: 0 }
}

pub open spec fn background_white() -> Vec3i {
    Vec3i { x: SCALE as int, y: SCALE as int, z: SCALE as int }
}

/// Sky blue, `(0.5, 0.7, 1.0)` in the closest fixed-point values.
pub open spec fn background_blue() -> Vec3i {
    Vec3i { x: 32768, y: 45875, z: SCALE as int }
}

/// The background gradient: a vertical lerp from white to sky blue by
/// `t = (unit_direction.y + 1) / 2`. The parameter is clamped into `[0, 1]`
/// against the one step of rounding slop normalization can leave.
pub open spec fn background_color_s(rd: Vec3i) -> Vec3i {
    let unit = vnormalize(rd);
    let t0 = tdiv(unit.y + SCALE, 2);
    let t = if t0 < 0 {
        0
    } else if t0 > SCALE {
        SCALE as int
    } else {
        t0
    };
    vlerp(background_white(), background_blue(), t)
}

/// The color of a ray that hit nothing: the background gradient for its
/// direction.
pub fn get_background_color(ray: &Ray) -> (r: Vec3)
    requires
        ray.wf(),
    ensures
        r@ == background_color_s(ray.direction@),
        color_wf(r@),
{
    let unit_direction: Vec3 = ray.direction.normalize();

    // Two colors of the background.
    let white: Vec3 = Vec3::new(65536, 65536, 65536);
    let blue: Vec3 = Vec3::new(32768, 45875, 65536);

    // Perform the lerp.
    let t0: i64 = half(unit_direction.y + 65536);
    let t: i64 = if t0 < 0 {
        0
    } else if t0 > 65536 {
        65536
    } else {
        t0
    };
    proof {
        lemma_lerp_channel_range(65536, 32768, t as int, 65536);
        lemma_lerp_channel_range(65536, 45875, t as int, 65536);
        lemma_lerp_channel_range(65536, 65536, t as int, 65536);
    }
    white.lerp(blue, t)
}

/// Given a ray and a scene of objects, the radiance the ray gathers.
///
/// Black when the bounce budget is exhausted (a terminal, not an error); on
/// a miss, exactly the background gradient; on a hit, the scattered
/// radiance attenuated component-wise by the material's albedo, or black
/// when the material absorbed the ray. Every channel of the result stays
/// in `[0, 1]`.
pub fn ray_color(ray: &Ray, scene: &Scene, max_depth: i32, sampler: &mut Sampler) -> (r: Vec3)
    requires
        ray.wf(),
        scene.wf(),
    ensures
        color_wf(r@),
        max_depth <= 0 ==> r@ == black(),
        max_depth > 0 && scene_hit_s(
            scene.elements@,
            ray.origin@,
            ray.direction@,
            T_MIN as int,
            T_MAX as int,
        ) is None ==> r@ == background_color_s(ray.direction@),
        max_depth > 0 && scene.elements@.len() == 0 ==> r@ == background_color_s(ray.direction@),
        max_depth > 0 ==> (scene_hit_s(
            scene.elements@,
            ray.origin@,
            ray.direction@,
            T_MIN as int,
            T_MAX as int,
        ) matches Some(h) ==> (r@ == black() || (exists|c: Vec3i|
            color_wf(c) && r@ == #[trigger] vmul(h.material.albedo_s(), c)))),
    decreases max_depth,
{
    let t_min: i64 = T_MIN;
    let t_max: i64 = T_MAX;

    // The bounce budget for the current ray is exhausted: a black shadow.
    if max_depth <= 0 {
        return Vec3::new(0, 0, 0);
    }
    // The guard above makes the decrement safe: a depth-counter underflow
    // is structurally unreachable.
    let new_max_depth: i32 = max_depth - 1;

    match scene.hit(ray, t_min, t_max) {
        Some(object) => {
            // Scatter the ray in the material of the object hit.
            let scatter_result = object.material.scatter(ray, &object, sampler);
            match scatter_result {
                Some((color, new_ray)) => {
                    // Shoot more rays to simulate bounces after scattering.
                    let bounced: Vec3 = ray_color(&new_ray, scene, new_max_depth, sampler);
                    proof {
                        lemma_unit_product_range(color@.x, bounced@.x, SCALE as int);
                        lemma_unit_product_range(color@.y, bounced@.y, SCALE as int);
                        lemma_unit_product_range(color@.z, bounced@.z, SCALE as int);
                    }
                    let attenuated: Vec3 = color.mul_elem(bounced);
                    proof {
                        assert(color_wf(bounced@) && attenuated@ == vmul(
                            object.material.albedo_s(),
                            bounced@,
                        ));
                    }
                    attenuated
                },
                None => {
                    // No more scattering: the ray was absorbed.
                    Vec3::new(0, 0, 0)
                },
            }
        },
        None => {
            // The ray hit nothing: draw the background.
            get_background_color(ray)
        },
    }
}

/// An empty scene reports no hit for any ray and any window, so `ray_color`
/// returns exactly the background gradient there and no material's scatter
/// is ever consulted.
pub proof fn lemma_empty_scene_hits_nothing(ro: Vec3i, rd: Vec3i, t_min: int, t_max: int)
    ensures
        scene_hit_s(Seq::<Sphere>::empty(), ro, rd, t_min, t_max) is None,
{
}

/// The normalized sample coordinate: remapping a jittered pixel coordinate
/// from `[0, extent)` into `[0, 1]` stays in `[0, 1]`.
proof fn lemma_sample_coord_range(x: int, w: int, j: int)
    requires
        0 <= x < w,
        0 <= j < 65536,
    ensures
        0 <= fit_range_s(x * 65536 + j, 0, w * 65536, 0, 65536) <= 65536,
{
    let num = 65536 * (x * 65536 + j);
    let den = w * 65536;
    assert(0 <= num);
    assert(x * 65536 + j <= den);
    assert(num <= 65536 * den);
    lemma_tdiv_mag(num, den);
    lemma_div_is_ordered(num, 65536 * den, den);
    lemma_div_multiples_vanish(65536, den);
}

/// Averaging a sum of `k` channel values each in `[0, 1]` lands in `[0, 1]`.
proof fn lemma_average_range(sum: int, k: int)
    requires
        1 <= k,
        0 <= sum <= k * 65536,
    ensures
        0 <= tdiv(sum, k) <= 65536,
{
    lemma_tdiv_mag(sum, k);
    lemma_div_is_ordered(sum, k * 65536, k);
    lemma_div_multiples_vanish(65536, k);
}

/// What a linear render buffer promises: four scalars per pixel, every
/// color channel in `[0, 1]`, alpha exactly one.
pub open spec fn linear_buffer_wf(buf: Seq<i64>) -> bool {
    forall|i: int|
        0 <= i < buf.len() ==> {
            &&& (i % 4 == 3 ==> #[trigger] buf[i] == SCALE)
            &&& (i % 4 != 3 ==> 0 <= buf[i] <= SCALE)
        }
}

/// Render entry point: estimates per-pixel radiance with
/// `samples_per_pixel` jittered camera rays, depth-limited to `max_depth`
/// bounces, and returns the scene-referred linear buffer (flat RGBA,
/// row-major, top row first, length `width * height * 4`). Zero width,
/// height or samples is an invalid configuration and fails fast, before
/// any work starts.
pub fn render(
    width: usize,
    height: usize,
    samples_per_pixel: usize,
    max_depth: i32,
    scene: &Scene,
    camera: &Camera,
    sampler: &mut Sampler,
) -> (r: Result<Vec<i64>, AppError>)
    requires
        scene.wf(),
        camera.wf(),
        width <= 16384,
        height <= 16384,
        samples_per_pixel <= 65536,
    ensures
        r is Err <==> (width == 0 || height == 0 || samples_per_pixel == 0),
        r matches Err(e) ==> e is InvalidConfiguration,
        r matches Ok(buf) ==> buf@.len() == width * height * 4 && linear_buffer_wf(buf@),
{
    if width == 0 || height == 0 || samples_per_pixel == 0 {
        return Err(AppError::InvalidConfiguration);
    }
    let mut render_buffer: Vec<i64> = Vec::new();
    let mut yi: usize = 0;
    while yi < height
        invariant
            scene.wf(),
            camera.wf(),
            1 <= width <= 16384,
            1 <= height <= 16384,
            1 <= samples_per_pixel <= 65536,
            yi <= height,
            render_buffer@.len() == 4 * (width * yi),
            linear_buffer_wf(render_buffer@),
        decreases height - yi,
    {
        let y: usize = height - 1 - yi;
        let mut x: usize = 0;
        proof {
            assert(width * yi + width <= width * height) by (nonlinear_arith)
                requires
                    yi < height,
                    1 <= width,
            ;
        }
        while x < width
            invariant
                scene.wf(),
                camera.wf(),
                1 <= width <= 16384,
                1 <= height <= 16384,
                1 <= samples_per_pixel <= 65536,
                yi < height,
                y == height - 1 - yi,
                x <= width,
                render_buffer@.len() == 4 * (width * yi + x),
                width * yi + width <= width * height,
                linear_buffer_wf(render_buffer@),
            decreases width - x,
        {
            let mut sum_r: i64 = 0;
            let mut sum_g: i64 = 0;
            let mut sum_b: i64 = 0;

            // Antialiasing: multiple jittered samples per pixel.
            let mut s: usize = 0;
            while s < samples_per_pixel
                invariant
                    scene.wf(),
                    camera.wf(),
                    1 <= width <= 16384,
                    1 <= height <= 16384,
                    1 <= samples_per_pixel <= 65536,
                    x < width,
                    y < height,
                    s <= samples_per_pixel,
                    0 <= sum_r <= s * 65536,
                    0 <= sum_g <= s * 65536,
                    0 <= sum_b <= s * 65536,
                decreases samples_per_pixel - s,
            {
                let jx: i64 = sampler.gen_in(0, 65536);
                let jy: i64 = sampler.gen_in(0, 65536);
                proof {
                    lemma_sample_coord_range(x as int, width as int, jx as int);
                    lemma_sample_coord_range(y as int, height as int, jy as int);
                }
                // Normalized (u, v) coordinates within the image plane.
                let u: i64 = fit_range((x as i64) * 65536 + jx, 0, (width as i64) * 65536, 0, 65536);
                let v: i64 = fit_range((y as i64) * 65536 + jy, 0, (height as i64) * 65536, 0, 65536);

                let ray: Ray = camera.get_ray_at_coords(u, v);
                let color: Vec3 = ray_color(&ray, scene, max_depth, sampler);
                sum_r = sum_r + color.x;
                sum_g = sum_g + color.y;
                sum_b = sum_b + color.z;
                s = s + 1;
            }
            // Divide by the number of samples to get the average.
            let spp: i64 = samples_per_pixel as i64;
            proof {
                lemma_average_range(sum_r as int, spp as int);
                lemma_average_range(sum_g as int, spp as int);
                lemma_average_range(sum_b as int, spp as int);
            }
            let avg_r: i64 = tdiv_i64(sum_r, spp);
            let avg_g: i64 = tdiv_i64(sum_g, spp);
            let avg_b: i64 = tdiv_i64(sum_b, spp);

            let ghost buf0 = render_buffer@;
            let ghost len0: int = render_buffer@.len() as int;
            render_buffer.push(avg_r);
            render_buffer.push(avg_g);
            render_buffer.push(avg_b);
            render_buffer.push(65536);
            proof {
                assert(render_buffer@.take(len0) =~= buf0);
                assert(len0 % 4 == 0) by {
                    vstd::arithmetic::div_mod::lemma_mod_multiples_basic(
                        (width * yi + x) as int,
                        4,
                    );
                }
                lemma_pixel_appended(render_buffer@, len0, avg_r as int, avg_g as int, avg_b as int);
            }
            x = x + 1;
        }
        yi = yi + 1;
        proof {
            assert((width as int) * (yi as int - 1) + width as int == (width as int) * (
            yi as int)) by (nonlinear_arith);
        }
    }
    proof {
        assert(4 * (width * height) == width * height * 4) by (nonlinear_arith);
    }
    Ok(render_buffer)
}

/// A handle grouping the ready-made render entry points.
#[derive(Debug, Clone)]
pub struct RenderTask {}

impl RenderTask {
    /// Renders the demonstration scene -- a Lambertian ground sphere and
    /// center sphere and two metallic spheres -- through a camera with
    /// focal length one and a viewport two units tall, widened by the
    /// image's aspect ratio. The sampler is seeded from `seed`, so equal
    /// seeds render equal images.
    pub fn render_scene(width: usize, height: usize, samples_per_pixel: usize, seed: u64) -> (r:
        Result<Vec<i64>, AppError>)
        requires
            width <= 16384,
            height <= 16384,
            samples_per_pixel <= 65536,
            width <= 128 * height,
        ensures
            r is Err <==> (width == 0 || height == 0 || samples_per_pixel == 0),
            r matches Err(e) ==> e is InvalidConfiguration,
            r matches Ok(buf) ==> buf@.len() == width * height * 4 && linear_buffer_wf(buf@),
    {
        if width == 0 || height == 0 || samples_per_pixel == 0 {
            return Err(AppError::InvalidConfiguration);
        }
        // Camera: a viewport two units tall, widened by the aspect ratio.
        proof {
            assert((width as int) * 131072 <= (height as int) * 16777216);
            lemma_tdiv_mag((width as int) * 131072, height as int);
            lemma_div_is_ordered((width as int) * 131072, (height as int) * 16777216, height as int);
            lemma_div_multiples_vanish(16777216, height as int);
        }
        let viewport_width: i64 = tdiv_i64((width as i64) * 131072, height as i64);
        let camera: Camera = Camera::new(65536, viewport_width, 131072);

        // Materials (channel values are the closest fixed-point colors).
        let col_ground: Vec3 = Vec3::new(52429, 52429, 6554);
        let col_center: Vec3 = Vec3::new(45875, 19661, 19661);
        let col_left: Vec3 = Vec3::new(52429, 52429, 52429);
        let col_right: Vec3 = Vec3::new(52429, 39322, 13107);

        let mat_ground: Material = Material::Lambertian(Lambertian::new(col_ground));
        let mat_center: Material = Material::Lambertian(Lambertian::new(col_center));
        let mat_left: Material = Material::Metallic(Metallic::new(col_left, 19661));
        let mat_right: Material = Material::Metallic(Metallic::new(col_right, 65536));

        // The spheres the rays may intersect, all at z = -1.
        let sphere_1: Sphere = Sphere::new(6553600, Vec3::new(0, -6586368, -65536), mat_ground);
        let sphere_2: Sphere = Sphere::new(32768, Vec3::new(0, 0, -65536), mat_center);
        let sphere_3: Sphere = Sphere::new(32768, Vec3::new(-65536, 0, -65536), mat_left);
        let sphere_4: Sphere = Sphere::new(32768, Vec3::new(65536, 0, -65536), mat_right);

        let mut scene: Scene = Scene::new();
        scene.add_hittable(sphere_1);
        scene.add_hittable(sphere_2);
        scene.add_hittable(sphere_3);
        scene.add_hittable(sphere_4);

        let mut sampler: Sampler = Sampler::from_seed(seed);

        // Ray bounces.
        render(width, height, samples_per_pixel, 5, &scene, &camera, &mut sampler)
    }
}

pub open spec fn bg_red() -> Vec3i {
    Vec3i { x: SCALE as int, y: 0, z: 0 }
}

pub open spec fn bg_green() -> Vec3i {
    Vec3i { x: 0, y: SCALE as int, z: 0 }
}

pub open spec fn bg_blue() -> Vec3i {
    Vec3i { x: 0, y: 0, z: SCALE as int }
}

/// The demonstration gradient at image coordinates `(x, y)`: a blend of a
/// horizontal red-to-green lerp with a vertical red-to-blue lerp.
pub open spec fn bg_gradient_s(x: int, y: int, w: int, h: int) -> Vec3i {
    let u = fit_range_s(x * 65536, 0, w * 65536, 0, 65536);
    let v = fit_range_s(y * 65536, 0, h * 65536, 0, 65536);
    vlerp(vlerp(bg_red(), bg_green(), u), vlerp(bg_red(), bg_blue(), v), 32768)
}

/// The whole demonstration gradient image as a flat RGBA sequence,
/// row-major, top row (largest `y`) first, alpha one.
pub open spec fn bg_buffer_s(w: int, h: int) -> Seq<i64> {
    Seq::new(
        (w * h * 4) as nat,
        |i: int|
            {
                let p = i / 4;
                let c = i % 4;
                let px = bg_gradient_s(p % w, h - 1 - p / w, w, h);
                (if c == 0 {
                    px.x
                } else if c == 1 {
                    px.y
                } else if c == 2 {
                    px.z
                } else {
                    SCALE as int
                }) as i64
            },
    )
}

/// Renders the demonstration gradient image, exactly as `bg_buffer_s`
/// states for every index.
pub fn render_bg_image(width: usize, height: usize) -> (r: Vec<i64>)
    requires
        1 <= width <= 16384,
        1 <= height <= 16384,
    ensures
        r@ == bg_buffer_s(width as int, height as int),
        r@.len() == width * height * 4,
{
    let ghost target = bg_buffer_s(width as int, height as int);
    let mut render_buffer: Vec<i64> = Vec::new();
    let mut yi: usize = 0;
    proof {
        assert(render_buffer@ =~= target.take(0));
    }
    while yi < height
        invariant
            1 <= width <= 16384,
            1 <= height <= 16384,
            yi <= height,
            target == bg_buffer_s(width as int, height as int),
            render_buffer@.len() == 4 * (width * yi),
            render_buffer@ == target.take(4 * (width * yi)),
        decreases height - yi,
    {
        let y: usize = height - 1 - yi;
        let mut x: usize = 0;
        proof {
            assert(width * yi + width <= width * height) by (nonlinear_arith)
                requires
                    yi < height,
                    1 <= width,
            ;
        }
        while x < width
            invariant
                1 <= width <= 16384,
                1 <= height <= 16384,
                yi < height,
                y == height - 1 - yi,
                x <= width,
                target == bg_buffer_s(width as int, height as int),
                width * yi + width <= width * height,
                render_buffer@.len() == 4 * (width * yi + x),
                render_buffer@ == target.take(4 * (width * yi + x)),
            decreases width - x,
        {
            proof {
                lemma_sample_coord_range(x as int, width as int, 0);
                lemma_sample_coord_range(y as int, height as int, 0);
            }
            // Normalized (u, v) coordinates within the image.
            let u: i64 = fit_range((x as i64) * 65536, 0, (width as i64) * 65536, 0, 65536);
            let v: i64 = fit_range((y as i64) * 65536, 0, (height as i64) * 65536, 0, 65536);

            // A gradient between two color blends.
            let red: Vec3 = Vec3::new(65536, 0, 0);
            let green: Vec3 = Vec3::new(0, 65536, 0);
            let blue: Vec3 = Vec3::new(0, 0, 65536);
            proof {
                lemma_lerp_channel_range(65536, 0, u as int, 65536);
                lemma_lerp_channel_range(0, 65536, u as int, 65536);
                lemma_lerp_channel_range(0, 0, u as int, 65536);
                lemma_lerp_channel_range(65536, 0, v as int, 65536);
                lemma_lerp_channel_range(0, 65536, v as int, 65536);
                lemma_lerp_channel_range(0, 0, v as int, 65536);
            }
            let h_blended: Vec3 = red.lerp(green, u);
            let v_blended: Vec3 = red.lerp(blue, v);
            let final_color: Vec3 = h_blended.lerp(v_blended, 32768);

            let ghost len0: int = render_buffer@.len() as int;
            let ghost p: int = (width * yi + x) as int;
            proof {
                vstd::arithmetic::div_mod::lemma_mod_multiples_basic(p, 4);
                lemma_chunk_indices(len0, p);
                vstd::arithmetic::div_mod::lemma_mod_multiples_vanish(
                    yi as int,
                    x as int,
                    width as int,
                );
                vstd::arithmetic::div_mod::lemma_small_mod(x as nat, width as nat);
                vstd::arithmetic::div_mod::lemma_div_multiples_vanish_fancy(
                    yi as int,
                    x as int,
                    width as int,
                );
            }
            render_buffer.push(final_color.x);
            render_buffer.push(final_color.y);
            render_buffer.push(final_color.z);
            render_buffer.push(65536);
            proof {
                assert(render_buffer@ =~= target.take(len0 + 4));
            }
            x = x + 1;
        }
        yi = yi + 1;
        proof {
            assert((width as int) * (yi as int - 1) + width as int == (width as int) * (
            yi as int)) by (nonlinear_arith);
        }
    }
    proof {
        assert(4 * (width * height) == width * height * 4) by (nonlinear_arith);
        assert(render_buffer@ =~= target);
    }
    render_buffer
}

/// Index arithmetic for one RGBA chunk: the four indices after `len0 = 4p`
/// belong to pixel `p` with channels zero to three.
proof fn lemma_chunk_indices(len0: int, p: int)
    requires
        len0 == 4 * p,
        0 <= p,
    ensures
        forall|k: int|
            0 <= k < 4 ==> (len0 + k) / 4 == p && #[trigger] ((len0 + k) % 4) == k,
{
    assert forall|k: int| 0 <= k < 4 implies (len0 + k) / 4 == p && #[trigger] ((len0 + k) % 4)
        == k by {
        vstd::arithmetic::div_mod::lemma_div_multiples_vanish_fancy(p, k, 4);
        vstd::arithmetic::div_mod::lemma_mod_multiples_vanish(p, k, 4);
        vstd::arithmetic::div_mod::lemma_small_mod(k as nat, 4);
    }
}

/// Appending one well-formed RGBA pixel to a well-formed linear buffer
/// keeps the buffer well formed.
proof fn lemma_pixel_appended(buf: Seq<i64>, len0: int, r: int, g: int, b: int)
    requires
        len0 % 4 == 0,
        buf.len() == len0 + 4,
        linear_buffer_wf(buf.take(len0)),
        0 <= r <= SCALE,
        0 <= g <= SCALE,
        0 <= b <= SCALE,
        buf[len0] == r,
        buf[len0 + 1] == g,
        buf[len0 + 2] == b,
        buf[len0 + 3] == SCALE,
    ensures
        linear_buffer_wf(buf),
{
    assert forall|i: int| 0 <= i < buf.len() implies {
        &&& (i % 4 == 3 ==> #[trigger] buf[i] == SCALE)
        &&& (i % 4 != 3 ==> 0 <= buf[i] <= SCALE)
    } by {
        if i < len0 {
            assert(buf.take(len0)[i] == buf[i]);
        } else {
            let k = i - len0;
            vstd::arithmetic::div_mod::lemma_fundamental_div_mod(len0, 4);
            assert(len0 == 4 * (len0 / 4));
            vstd::arithmetic::div_mod::lemma_mod_multiples_vanish(len0 / 4, k, 4);
            vstd::arithmetic::div_mod::lemma_small_mod(k as nat, 4);
            assert(i % 4 == k);
        }
    }
}

} // verus!
