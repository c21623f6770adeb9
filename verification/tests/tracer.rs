//! Geometry, scene traversal, color evaluation and the render loop.

use rs_tracer::camera::Camera;
use rs_tracer::color::ray_color;
use rs_tracer::hittable::HitRecord;
use rs_tracer::hittable_list::HittableList;
use rs_tracer::material::{Lambertian, MatType};
use rs_tracer::ray::Ray;
use rs_tracer::rng::new_rng;
use rs_tracer::sphere::Sphere;
use rs_tracer::vec3::Vec3;
use rs_tracer::{quantize_channel, render, ImageConfig};

const S: i64 = 65536;
const T_MAX: i64 = 1099511627776;

fn gray() -> MatType {
    MatType::Lambertian(Lambertian { albedo: Vec3::new(S / 2, S / 2, S / 2) })
}

#[test]
fn sphere_hit_head_on_round_trip() {
    // A ray aimed at the center from three units away hits a half-unit
    // sphere at exactly t = 2.5, and the hit point sits one radius from
    // the center.
    let sphere = Sphere::new(Vec3::new(0, 0, -3 * S), S / 2, gray());
    let ray = Ray { orig: Vec3::new(0, 0, 0), dir: Vec3::new(0, 0, -S), time: 0 };
    let rec = sphere.hit(&ray, 66, T_MAX).expect("head-on ray must hit");
    assert_eq!(rec.t, 163840);
    assert_eq!((rec.p.x, rec.p.y, rec.p.z), (0, 0, -163840));
    assert!(rec.front);
    assert_eq!((rec.norm.x, rec.norm.y, rec.norm.z), (0, 0, S));
    let delta = rec.p.sub(Vec3::new(0, 0, -3 * S));
    assert_eq!(delta.len_2(), (S / 2) * (S / 2) / S);
}

#[test]
fn sphere_missed_by_offset_parallel_ray() {
    // Offset a full unit from a half-unit sphere's axis: no hit.
    let sphere = Sphere::new(Vec3::new(0, 0, -S), S / 2, gray());
    let ray = Ray { orig: Vec3::new(S, 0, 0), dir: Vec3::new(0, 0, -S), time: 0 };
    assert!(sphere.hit(&ray, 66, T_MAX).is_none());
}

#[test]
fn sphere_hit_respects_interval() {
    let sphere = Sphere::new(Vec3::new(0, 0, -3 * S), S / 2, gray());
    let ray = Ray { orig: Vec3::new(0, 0, 0), dir: Vec3::new(0, 0, -S), time: 0 };
    // The near root is at 2.5; an interval ending before it picks nothing
    // (the far root at 3.5 is outside too).
    assert!(sphere.hit(&ray, 66, 2 * S).is_none());
    // An interval that starts past the near root takes the far one.
    let rec = sphere.hit(&ray, 3 * S, T_MAX).expect("far root in range");
    assert_eq!(rec.t, 229376);
    assert!(!rec.front);
}

#[test]
fn moving_sphere_interpolates_center() {
    // Moving from z = -3 to z = -2 over the frame; at time one half the
    // effective center is z = -2.5, so the head-on hit lands at t = 2.
    let sphere =
        Sphere::new_moving(Vec3::new(0, 0, -3 * S), Vec3::new(0, 0, -2 * S), S / 2, gray());
    let ray = Ray { orig: Vec3::new(0, 0, 0), dir: Vec3::new(0, 0, -S), time: S / 2 };
    let rec = sphere.hit(&ray, 66, T_MAX).expect("must hit the moved sphere");
    assert_eq!(rec.t, 2 * S);
}

#[test]
fn scene_returns_nearest_hit() {
    let mut world = HittableList::new();
    let far = MatType::Lambertian(Lambertian { albedo: Vec3::new(S, 0, 0) });
    let near = MatType::Lambertian(Lambertian { albedo: Vec3::new(0, S, 0) });
    world.add(Sphere::new(Vec3::new(0, 0, -3 * S), S / 2, far));
    world.add(Sphere::new(Vec3::new(0, 0, -2 * S), S / 2, near));
    let ray = Ray { orig: Vec3::new(0, 0, 0), dir: Vec3::new(0, 0, -S), time: 0 };
    let rec = world.hit(&ray, 66, T_MAX).expect("both spheres on the axis");
    assert_eq!(rec.t, 98304);
    match rec.material {
        MatType::Lambertian(l) => assert_eq!((l.albedo.x, l.albedo.y, l.albedo.z), (0, S, 0)),
        _ => panic!("wrong material carried"),
    }
}

#[test]
fn first_sphere_wins_exact_ties() {
    // Two geometrically identical spheres: the ray hits both at exactly the
    // same parameter, and the record must carry the first one's material.
    let first = MatType::Lambertian(Lambertian { albedo: Vec3::new(S, 0, 0) });
    let second = MatType::Lambertian(Lambertian { albedo: Vec3::new(0, S, 0) });
    let mut world = HittableList::new();
    world.add(Sphere::new(Vec3::new(0, 0, -3 * S), S / 2, first));
    world.add(Sphere::new(Vec3::new(0, 0, -3 * S), S / 2, second));
    let ray = Ray { orig: Vec3::new(0, 0, 0), dir: Vec3::new(0, 0, -S), time: 0 };
    let rec = world.hit(&ray, 66, T_MAX).expect("both spheres on the axis");
    assert_eq!(rec.t, 163840);
    match rec.material {
        MatType::Lambertian(l) => assert_eq!((l.albedo.x, l.albedo.y, l.albedo.z), (S, 0, 0)),
        _ => panic!("wrong material carried"),
    }
}

#[test]
fn scene_scan_order_does_not_change_the_nearest() {
    let ray = Ray { orig: Vec3::new(0, 0, 0), dir: Vec3::new(0, 0, -S), time: 0 };
    let mut forward = HittableList::new();
    forward.add(Sphere::new(Vec3::new(0, 0, -2 * S), S / 2, gray()));
    forward.add(Sphere::new(Vec3::new(0, 0, -3 * S), S / 2, gray()));
    let mut backward = HittableList::new();
    backward.add(Sphere::new(Vec3::new(0, 0, -3 * S), S / 2, gray()));
    backward.add(Sphere::new(Vec3::new(0, 0, -2 * S), S / 2, gray()));
    let a = forward.hit(&ray, 66, T_MAX).expect("hit");
    let b = backward.hit(&ray, 66, T_MAX).expect("hit");
    assert_eq!(a.t, 98304);
    assert_eq!(b.t, 98304);
}

#[test]
fn empty_scene_and_clear() {
    let mut world = HittableList::new();
    let ray = Ray { orig: Vec3::new(0, 0, 0), dir: Vec3::new(0, 0, -S), time: 0 };
    assert!(world.hit(&ray, 66, T_MAX).is_none());
    world.add(Sphere::new(Vec3::new(0, 0, -3 * S), S / 2, gray()));
    assert!(world.hit(&ray, 66, T_MAX).is_some());
    world.clear();
    assert!(world.hit(&ray, 66, T_MAX).is_none());
}

#[test]
fn negative_radius_shell_flips_the_face() {
    // A negative radius points the outward normal inward: the same head-on
    // ray hits at the same parameter, but lands on the back face, with the
    // stored normal flipped to oppose the ray.
    let shell = Sphere::new(Vec3::new(0, 0, -3 * S), -(S / 2), gray());
    let ray = Ray { orig: Vec3::new(0, 0, 0), dir: Vec3::new(0, 0, -S), time: 0 };
    let rec = shell.hit(&ray, 66, T_MAX).expect("shell still intersects");
    assert_eq!(rec.t, 163840);
    assert!(!rec.front);
    assert_eq!((rec.norm.x, rec.norm.y, rec.norm.z), (0, 0, S));
}

#[test]
fn smallest_renderable_image() {
    let world = test_scene();
    let cam = test_camera();
    let config =
        ImageConfig { aspect_ratio: S, width: 2, height: 2, samples_per_pixel: 1, max_depth: 1 };
    let buf = render(&world, &cam, &config, 7);
    assert_eq!(buf.len(), 12);
}

#[test]
fn hit_record_placeholder() {
    let rec = HitRecord::new();
    assert_eq!(rec.t, 0);
    assert!(!rec.front);
    assert_eq!((rec.p.x, rec.p.y, rec.p.z), (0, 0, 0));
}

#[test]
fn ray_at_parameter() {
    let ray = Ray { orig: Vec3::new(S, 0, 0), dir: Vec3::new(0, 0, -S), time: 0 };
    let p = ray.at(2 * S);
    assert_eq!((p.x, p.y, p.z), (S, 0, -2 * S));
}

#[test]
fn ray_color_depth_zero_is_black() {
    // Exhausted recursion budget: black, whatever the scene holds.
    let mut world = HittableList::new();
    world.add(Sphere::new(Vec3::new(0, 0, -3 * S), S / 2, gray()));
    let ray = Ray { orig: Vec3::new(0, 0, 0), dir: Vec3::new(0, 0, -S), time: 0 };
    let mut rng = new_rng(1);
    let c = ray_color(&ray, &world, 0, &mut rng);
    assert_eq!((c.x, c.y, c.z), (0, 0, 0));
}

#[test]
fn background_gradient_extremes() {
    let world = HittableList::new();
    let mut rng = new_rng(1);
    // Straight up: pure sky blue (0.5, 0.7, 1.0).
    let up = Ray { orig: Vec3::new(0, 0, 0), dir: Vec3::new(0, S, 0), time: 0 };
    let c = ray_color(&up, &world, 1, &mut rng);
    assert_eq!((c.x, c.y, c.z), (S / 2, 45875, S));
    // Straight down: pure white.
    let down = Ray { orig: Vec3::new(0, 0, 0), dir: Vec3::new(0, -S, 0), time: 0 };
    let w = ray_color(&down, &world, 1, &mut rng);
    assert_eq!((w.x, w.y, w.z), (S, S, S));
}

#[test]
fn quantize_channel_exact_values() {
    // Full brightness clamps just below one and lands on byte 255.
    assert_eq!(quantize_channel(S as u64, 1), 255);
    assert_eq!(quantize_channel(0, 1), 0);
    // An average of one quarter: sqrt gives one half, byte 128.
    assert_eq!(quantize_channel(4 * 16384, 4), 128);
}

fn test_camera() -> Camera {
    Camera::new(
        Vec3::new(0, 0, 2 * S),
        Vec3::new(0, 0, 0),
        Vec3::new(0, S, 0),
        S,      // tangent of half the field of view: 90 degrees
        116508, // 16:9
        0,
        2 * S,
    )
}

#[test]
fn camera_frame_is_axis_aligned() {
    let cam = test_camera();
    assert_eq!((cam.w.x, cam.w.y, cam.w.z), (0, 0, S));
    assert_eq!((cam.u.x, cam.u.y, cam.u.z), (S, 0, 0));
    assert_eq!((cam.v.x, cam.v.y, cam.v.z), (0, S, 0));
    assert_eq!(cam.lens_radius, 0);
}

#[test]
fn closed_lens_rays_start_at_the_origin() {
    let cam = test_camera();
    let mut rng = new_rng(2);
    for (s, t) in [(0, 0), (S / 2, S / 2), (S, S)] {
        let ray = cam.get_ray(s, t, &mut rng);
        assert_eq!((ray.orig.x, ray.orig.y, ray.orig.z), (0, 0, 2 * S));
        assert!(0 <= ray.time && ray.time < S);
    }
}

fn test_scene() -> HittableList {
    let mut world = HittableList::new();
    world.add(Sphere::new(Vec3::new(0, 0, -3 * S), S / 2, gray()));
    world
}

#[test]
fn render_buffer_has_row_major_rgb8_shape() {
    let world = test_scene();
    let cam = test_camera();
    let config =
        ImageConfig { aspect_ratio: 116508, width: 8, height: 6, samples_per_pixel: 1, max_depth: 1 };
    let buf = render(&world, &cam, &config, 42);
    assert_eq!(buf.len(), 3 * 8 * 6);
}

#[test]
fn render_is_deterministic_for_a_seed() {
    // One sphere lit by the background, one sample per pixel, depth one:
    // the same seed must reproduce the image byte for byte.
    let world = test_scene();
    let cam = test_camera();
    let config =
        ImageConfig { aspect_ratio: 116508, width: 8, height: 6, samples_per_pixel: 1, max_depth: 1 };
    let first = render(&world, &cam, &config, 42);
    let second = render(&world, &cam, &config, 42);
    assert_eq!(first, second);
}

#[test]
fn default_config_dimensions() {
    let c = ImageConfig::new();
    assert_eq!(c.width, 400);
    assert_eq!(c.height, 225);
    assert_eq!(c.samples_per_pixel, 100);
    assert_eq!(c.max_depth, 50);
}
