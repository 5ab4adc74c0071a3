use ltsr::vec3::Vec3;
use ltsr::ray::Ray;
use ltsr::geometry::{Scene, Sphere};
use ltsr::materials::{Lambertian, Material};
use ltsr::render::{
    get_background_color, ray_color, render, render_bg_image, AppError, RenderTask,
};
use ltsr::camera::Camera;
use ltsr::sampler::Sampler;
use ltsr::color::{data_channel, display_channel, split_channels};

fn demo_scene() -> Scene {
    // one sphere of radius 0.5 at (0, 0, -1) and a ground sphere of
    // radius 100 at (0, -100.5, -1)
    let center = Sphere::new(
        32768,
        Vec3::new(0, 0, -65536),
        Material::Lambertian(Lambertian::new(Vec3::new(45875, 19661, 19661))),
    );
    let ground = Sphere::new(
        6553600,
        Vec3::new(0, -6586368, -65536),
        Material::Lambertian(Lambertian::new(Vec3::new(52429, 52429, 6554))),
    );
    let mut scene = Scene::new();
    scene.add_hittable(center);
    scene.add_hittable(ground);
    scene
}

#[test]
fn camera_aims_through_the_viewport() {
    // focal length 1, viewport 4 x 2: the center of the image looks
    // straight down the negative z axis
    let camera = Camera::new(65536, 262144, 131072);
    let ray = camera.get_ray_at_coords(32768, 32768);
    assert_eq!(ray.origin, Vec3::new(0, 0, 0));
    assert_eq!(ray.direction, Vec3::new(0, 0, -65536));
    // the lower-left corner of the image
    let corner = camera.get_ray_at_coords(0, 0);
    assert_eq!(corner.direction, Vec3::new(-131072, -65536, -65536));
}

#[test]
fn background_is_white_at_the_bottom_and_blue_at_the_top() {
    let down = Ray::new(Vec3::new(0, 0, 0), Vec3::new(0, -65536, 0));
    assert_eq!(get_background_color(&down), Vec3::new(65536, 65536, 65536));
    let up = Ray::new(Vec3::new(0, 0, 0), Vec3::new(0, 65536, 0));
    assert_eq!(get_background_color(&up), Vec3::new(32768, 45875, 65536));
}

#[test]
fn ray_color_with_exhausted_depth_is_black() {
    // a ray that squarely hits the sphere still returns black at depth 0
    let scene = demo_scene();
    let ray = Ray::new(Vec3::new(0, 0, 0), Vec3::new(0, 0, -65536));
    let mut sampler = Sampler::from_seed(1);
    let color = ray_color(&ray, &scene, 0, &mut sampler);
    assert_eq!(color, Vec3::new(0, 0, 0));
    let color = ray_color(&ray, &scene, -3, &mut sampler);
    assert_eq!(color, Vec3::new(0, 0, 0));
}

#[test]
fn ray_color_in_an_empty_scene_is_the_background() {
    let scene = Scene::new();
    let ray = Ray::new(Vec3::new(0, 0, 0), Vec3::new(0, 65536, 0));
    let mut sampler = Sampler::from_seed(1);
    let color = ray_color(&ray, &scene, 5, &mut sampler);
    assert_eq!(color, get_background_color(&ray));
    assert_eq!(color, Vec3::new(32768, 45875, 65536));
}

#[test]
fn render_rejects_an_empty_configuration() {
    let scene = demo_scene();
    let camera = Camera::new(65536, 262144, 131072);
    let mut sampler = Sampler::from_seed(1);
    assert!(matches!(
        render(0, 2, 1, 1, &scene, &camera, &mut sampler),
        Err(AppError::InvalidConfiguration)
    ));
    assert!(matches!(
        render(2, 0, 1, 1, &scene, &camera, &mut sampler),
        Err(AppError::InvalidConfiguration)
    ));
    assert!(matches!(
        render(2, 2, 0, 1, &scene, &camera, &mut sampler),
        Err(AppError::InvalidConfiguration)
    ));
}

#[test]
fn two_by_two_render_produces_bounded_pixels() {
    // the end-to-end scenario: 2 x 2 pixels, 1 sample, depth 1
    let scene = demo_scene();
    let camera = Camera::new(65536, 262144, 131072);
    let mut sampler = Sampler::from_seed(42);
    let buffer = render(2, 2, 1, 1, &scene, &camera, &mut sampler).expect("valid parameters");
    assert_eq!(buffer.len(), 2 * 2 * 4);
    for pixel in buffer.chunks(4) {
        // each channel is finite by construction and within [0, 1];
        // alpha is exactly 1
        assert!(0 <= pixel[0] && pixel[0] <= 65536);
        assert!(0 <= pixel[1] && pixel[1] <= 65536);
        assert!(0 <= pixel[2] && pixel[2] <= 65536);
        assert_eq!(pixel[3], 65536);
    }
}

#[test]
fn renders_are_reproducible_under_a_fixed_seed() {
    let first = RenderTask::render_scene(4, 4, 2, 7).expect("valid parameters");
    let second = RenderTask::render_scene(4, 4, 2, 7).expect("valid parameters");
    assert_eq!(first, second);
    let other_seed = RenderTask::render_scene(4, 4, 2, 8).expect("valid parameters");
    assert_eq!(other_seed.len(), first.len());
}

#[test]
fn demo_render_rejects_an_empty_configuration() {
    assert!(matches!(
        RenderTask::render_scene(0, 4, 2, 7),
        Err(AppError::InvalidConfiguration)
    ));
}

#[test]
fn gradient_image_has_exact_corner_colors() {
    let buffer = render_bg_image(2, 2);
    assert_eq!(buffer.len(), 16);
    // every pixel blends the horizontal and vertical lerps equally;
    // x = 0, y = 1 (stored first): u = 0, v = 0.5
    // h = red, v = lerp(red, blue, 0.5) = (0.5, 0, 0.5)
    // blend at 0.5: (0.75, 0, 0.25)
    assert_eq!(&buffer[0..4], &[49152, 0, 16384, 65536]);
    // x = 1, y = 1: u = 0.5, v = 0.5
    // h = (0.5, 0.5, 0), v = (0.5, 0, 0.5), blend: (0.5, 0.25, 0.25)
    assert_eq!(&buffer[4..8], &[32768, 16384, 16384, 65536]);
    // x = 0, y = 0: u = 0, v = 0: h = red, v = red: red
    assert_eq!(&buffer[8..12], &[65536, 0, 0, 65536]);
}

#[test]
fn display_transform_has_exact_reference_values() {
    // black stays black
    assert_eq!(display_channel(0), 0);
    // 1.0 tonemaps to 0.5, encodes to sqrt(0.5), quantizes to 180
    assert_eq!(display_channel(65536), 180);
    // the direct data scale
    assert_eq!(data_channel(0), 0);
    assert_eq!(data_channel(32768), 127);
    assert_eq!(data_channel(65536), 255);
    // saturation at both ends
    assert_eq!(data_channel(-5), 0);
    assert_eq!(data_channel(70000), 255);
}

#[test]
fn display_transform_is_monotone_on_samples() {
    let mut previous = 0u8;
    let mut value: i64 = 0;
    while value < 400000 {
        let encoded = display_channel(value);
        assert!(previous <= encoded);
        previous = encoded;
        value += 377;
    }
}

#[test]
fn converting_a_black_buffer_yields_a_black_display() {
    // two black pixels with alpha 1.0
    let linear = vec![0i64, 0, 0, 65536, 0, 0, 0, 65536];
    let display =
        RenderTask::convert_to_display_buffer(linear.clone(), false).expect("conversion is total");
    assert_eq!(display, vec![0u8, 0, 0, 255, 0, 0, 0, 255]);
    let data = RenderTask::convert_to_display_buffer(linear, true).expect("conversion is total");
    assert_eq!(data, vec![0u8, 0, 0, 255, 0, 0, 0, 255]);
}

#[test]
fn display_conversion_tonemaps_color_channels_only() {
    // one pixel of full white with alpha 1.0
    let linear = vec![65536i64, 65536, 65536, 65536];
    let display =
        RenderTask::convert_to_display_buffer(linear.clone(), false).expect("conversion is total");
    assert_eq!(display, vec![180u8, 180, 180, 255]);
    // the data pass scales every channel directly
    let data = RenderTask::convert_to_display_buffer(linear, true).expect("conversion is total");
    assert_eq!(data, vec![255u8, 255, 255, 255]);
}

#[test]
fn display_conversion_zeroes_a_trailing_partial_chunk() {
    let linear = vec![65536i64, 65536, 65536, 65536, 65536, 65536];
    let display =
        RenderTask::convert_to_display_buffer(linear, true).expect("conversion is total");
    assert_eq!(display, vec![255u8, 255, 255, 255, 0, 0]);
}

#[test]
fn channel_planes_split_out_of_the_buffer() {
    let linear = vec![1i64, 2, 3, 65536, 4, 5, 6, 65536];
    let (r, g, b) = split_channels(&linear);
    assert_eq!(r, vec![1, 4]);
    assert_eq!(g, vec![2, 5]);
    assert_eq!(b, vec![3, 6]);
}
