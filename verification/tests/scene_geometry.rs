use ltsr::vec3::Vec3;
use ltsr::ray::Ray;
use ltsr::geometry::{HitData, Scene, Sphere, get_face_normal};
use ltsr::materials::{Lambertian, Material, Metallic};
use ltsr::sampler::Sampler;

fn gray() -> Material {
    Material::Lambertian(Lambertian::new(Vec3::new(32768, 32768, 32768)))
}

#[test]
fn vector_operations_are_exact() {
    let a = Vec3::new(65536, 131072, -65536);
    let b = Vec3::new(65536, -65536, 32768);
    assert_eq!(a.add(b), Vec3::new(131072, 65536, -32768));
    assert_eq!(a.sub(b), Vec3::new(0, 196608, -98304));
    // (1, 2, -1) . (1, -1, 0.5) == 1 - 2 - 0.5 == -1.5
    assert_eq!(a.dot(b), -98304);
    assert_eq!(a.length_squared(), 6 * 65536);
    assert_eq!(Vec3::new(0, 196608, 0).length(), 196608);
}

#[test]
fn normalize_produces_unit_vectors() {
    let v = Vec3::new(0, 196608, 0);
    assert_eq!(v.normalize(), Vec3::new(0, 65536, 0));
    // a vector far shorter than one step of length is left unchanged
    let tiny = Vec3::new(3, 0, 0);
    assert_eq!(tiny.normalize(), tiny);
}

#[test]
fn near_zero_is_uniform_over_all_axes() {
    assert!(Vec3::new(0, 0, 0).near_zero());
    assert!(!Vec3::new(1, 0, 0).near_zero());
    assert!(!Vec3::new(0, 1, 0).near_zero());
    assert!(!Vec3::new(0, 0, 1).near_zero());
}

#[test]
fn reflection_against_a_plane() {
    // (1, -1, 0) reflected on the y-normal plane is (1, 1, 0)
    let v = Vec3::new(65536, -65536, 0);
    let n = Vec3::new(0, 65536, 0);
    assert_eq!(v.reflect(n), Vec3::new(65536, 65536, 0));
}

#[test]
fn points_along_a_ray() {
    let ray = Ray::new(Vec3::new(65536, 0, 0), Vec3::new(0, 0, -131072));
    assert_eq!(ray.point_at_parameter(32768), Vec3::new(65536, 0, -65536));
    assert_eq!(ray.point_at_parameter(0), ray.origin);
}

#[test]
fn face_normal_opposes_the_ray() {
    let ray = Ray::new(Vec3::new(0, 0, 0), Vec3::new(0, 0, -65536));
    let outward = Vec3::new(0, 0, 65536);
    let (normal, front) = get_face_normal(&ray, outward);
    assert!(front);
    assert_eq!(normal, outward);
    let inward = Vec3::new(0, 0, -65536);
    let (normal, front) = get_face_normal(&ray, inward);
    assert!(!front);
    assert_eq!(normal, Vec3::new(0, 0, 65536));
}

#[test]
fn sphere_hit_through_center_matches_closed_form() {
    // radius 0.5 at (0, 0, -1); ray from the origin straight at the center:
    // the closed-form root is distance-to-center minus radius, 0.5 exactly
    let sphere = Sphere::new(32768, Vec3::new(0, 0, -65536), gray());
    let ray = Ray::new(Vec3::new(0, 0, 0), Vec3::new(0, 0, -65536));
    let hit = sphere.hit(&ray, 66, i64::MAX).expect("the ray aims at the center");
    assert_eq!(hit.t, 32768);
    assert_eq!(hit.hit_point, Vec3::new(0, 0, -32768));
    assert_eq!(hit.normal, Vec3::new(0, 0, 65536));
}

#[test]
fn sphere_miss_reports_nothing() {
    let sphere = Sphere::new(32768, Vec3::new(0, 0, -65536), gray());
    // aimed the other way
    let ray = Ray::new(Vec3::new(0, 0, 0), Vec3::new(0, 0, 65536));
    assert!(sphere.hit(&ray, 66, i64::MAX).is_none());
}

#[test]
fn sphere_hit_respects_the_window() {
    let sphere = Sphere::new(32768, Vec3::new(0, 0, -65536), gray());
    let ray = Ray::new(Vec3::new(0, 0, 0), Vec3::new(0, 0, -65536));
    // both roots (0.5 and 1.5) lie beyond a window ending at 0.25
    assert!(sphere.hit(&ray, 66, 16384).is_none());
    // a window starting past 0.5 picks the far root at 1.5
    let hit = sphere.hit(&ray, 49152, i64::MAX).expect("the far root is in range");
    assert_eq!(hit.t, 98304);
}

#[test]
fn scene_returns_the_closest_hit() {
    let near = Sphere::new(32768, Vec3::new(0, 0, -131072), gray());
    let far = Sphere::new(32768, Vec3::new(0, 0, -262144), gray());
    let mut scene = Scene::new();
    scene.add_hittable(far);
    scene.add_hittable(near);
    let ray = Ray::new(Vec3::new(0, 0, 0), Vec3::new(0, 0, -65536));
    let hit = scene.hit(&ray, 66, i64::MAX).expect("both spheres are ahead");
    // the near sphere's surface at z = -1.5
    assert_eq!(hit.t, 98304);
}

#[test]
fn equal_distance_ties_go_to_the_first_primitive() {
    // two identical spheres, distinguishable only by their albedo: the
    // second one's hit is at exactly the same distance, so the narrowed
    // half-open window excludes it and the first primitive found wins
    let first = Sphere::new(
        32768,
        Vec3::new(0, 0, -131072),
        Material::Lambertian(Lambertian::new(Vec3::new(65536, 0, 0))),
    );
    let second = Sphere::new(
        32768,
        Vec3::new(0, 0, -131072),
        Material::Lambertian(Lambertian::new(Vec3::new(0, 65536, 0))),
    );
    let mut scene = Scene::new();
    scene.add_hittable(first);
    scene.add_hittable(second);
    let ray = Ray::new(Vec3::new(0, 0, 0), Vec3::new(0, 0, -65536));
    let hit = scene.hit(&ray, 66, i64::MAX).expect("both spheres are ahead");
    assert_eq!(hit.t, 98304);
    match hit.material {
        Material::Lambertian(m) => assert_eq!(m.albedo, Vec3::new(65536, 0, 0)),
        Material::Metallic(_) => panic!("wrong material kind"),
    }
}

#[test]
fn empty_scene_reports_nothing() {
    let scene = Scene::new();
    let ray = Ray::new(Vec3::new(0, 0, 0), Vec3::new(0, 0, -65536));
    assert!(scene.hit(&ray, 66, i64::MAX).is_none());
}

#[test]
fn lambertian_always_scatters() {
    let material = Lambertian::new(Vec3::new(45875, 19661, 19661));
    let data = HitData {
        hit_point: Vec3::new(0, 0, -32768),
        normal: Vec3::new(0, 0, 65536),
        material: gray(),
        t: 32768,
    };
    let ray = Ray::new(Vec3::new(0, 0, 0), Vec3::new(0, 0, -65536));
    let mut sampler = Sampler::from_seed(11);
    for _ in 0..32 {
        let (attenuation, scattered) =
            material.scatter(&ray, &data, &mut sampler).expect("lambertian never absorbs");
        assert_eq!(attenuation, Vec3::new(45875, 19661, 19661));
        assert_eq!(scattered.origin, data.hit_point);
        // the scatter direction never points into the surface, and is the
        // normal itself or a nonzero point of the open unit ball
        assert!(scattered.direction.dot(data.normal) >= 0);
        assert!(
            scattered.direction == data.normal
                || (scattered.direction.length_squared() < 65536
                    && !scattered.direction.near_zero())
        );
    }
}

#[test]
fn smooth_metal_scatters_deterministically() {
    // with zero roughness the perturbation vanishes: whatever the sampler
    // draws, the scattered direction is exactly the mirror reflection
    let material = Metallic::new(Vec3::new(52429, 52429, 52429), 0);
    let ray = Ray::new(Vec3::new(0, 0, 0), Vec3::new(0, 0, -65536));
    let data = HitData {
        hit_point: Vec3::new(0, 0, -32768),
        normal: Vec3::new(0, 0, 65536),
        material: gray(),
        t: 32768,
    };
    let mut sampler = Sampler::from_seed(23);
    for _ in 0..16 {
        let (_, scattered) =
            material.scatter(&ray, &data, &mut sampler).expect("the mirror points outward");
        assert_eq!(scattered.direction, Vec3::new(0, 0, 65536));
    }
}

#[test]
fn metallic_scatter_follows_the_perturbed_reflection() {
    let material = Metallic::new(Vec3::new(52429, 52429, 52429), 0);
    let ray = Ray::new(Vec3::new(0, 0, 0), Vec3::new(0, 0, -65536));
    // a proper hit: the normal opposes the ray, so the mirror direction
    // points away from the surface and the ray scatters
    let data = HitData {
        hit_point: Vec3::new(0, 0, -32768),
        normal: Vec3::new(0, 0, 65536),
        material: gray(),
        t: 32768,
    };
    let (attenuation, scattered) =
        material.scatter_sampled(&ray, &data, Vec3::new(0, 0, 0)).expect("points outward");
    assert_eq!(attenuation, Vec3::new(52429, 52429, 52429));
    assert_eq!(scattered.origin, data.hit_point);
    assert_eq!(scattered.direction, Vec3::new(0, 0, 65536));
}

#[test]
fn metallic_absorbs_rays_reflected_inward() {
    let material = Metallic::new(Vec3::new(52429, 52429, 52429), 0);
    let ray = Ray::new(Vec3::new(0, 0, 0), Vec3::new(0, 0, -65536));
    // a normal aligned with the ray sends the reflection into the surface:
    // the dot product is not positive and the ray is absorbed
    let data = HitData {
        hit_point: Vec3::new(0, 0, -32768),
        normal: Vec3::new(0, 0, -65536),
        material: gray(),
        t: 32768,
    };
    assert!(material.scatter_sampled(&ray, &data, Vec3::new(0, 0, 0)).is_none());
}

#[test]
fn unit_sphere_samples_stay_inside_the_sphere() {
    let mut sampler = Sampler::from_seed(3);
    for _ in 0..64 {
        let p = ltsr::sampler::random_in_unit_sphere(&mut sampler);
        assert!(p.length_squared() < 65536);
        assert!(p.x.abs() <= 65536 && p.y.abs() <= 65536 && p.z.abs() <= 65536);
    }
}

#[test]
fn hemisphere_samples_side_with_the_normal() {
    let normal = Vec3::new(0, 65536, 0);
    let mut sampler = Sampler::from_seed(5);
    for _ in 0..64 {
        let p = ltsr::sampler::random_in_hemisphere(normal, &mut sampler);
        assert!(p.dot(normal) >= 0);
        assert!(p.length_squared() < 65536);
    }
}
