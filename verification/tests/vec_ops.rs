//! Vector algebra, scalar helpers and material behavior.

use rs_tracer::color::clamp;
use rs_tracer::hittable::HitRecord;
use rs_tracer::material::{Dielectric, Lambertian, MatType, Metal};
use rs_tracer::ray::Ray;
use rs_tracer::rng::new_rng;
use rs_tracer::vec3::{cross, dot, reflect, refract, unit_vector, Vec3};

const S: i64 = 65536;

#[test]
fn vector_componentwise_ops() {
    let a = Vec3::new(S, 2 * S, 3 * S);
    let b = Vec3::new(4 * S, 5 * S, 6 * S);
    let sum = a.add(b);
    assert_eq!((sum.x, sum.y, sum.z), (5 * S, 7 * S, 9 * S));
    let diff = b.sub(a);
    assert_eq!((diff.x, diff.y, diff.z), (3 * S, 3 * S, 3 * S));
    let neg = a.neg();
    assert_eq!((neg.x, neg.y, neg.z), (-S, -2 * S, -3 * S));
    let prod = a.mul(b);
    assert_eq!((prod.x, prod.y, prod.z), (4 * S, 10 * S, 18 * S));
    let scaled = a.scale(S / 2);
    assert_eq!((scaled.x, scaled.y, scaled.z), (S / 2, S, 3 * S / 2));
}

#[test]
fn dot_and_cross_products() {
    let a = Vec3::new(S, 2 * S, 3 * S);
    let b = Vec3::new(4 * S, 5 * S, 6 * S);
    assert_eq!(dot(a, b), 32 * S);
    let c = cross(Vec3::new(S, 0, 0), Vec3::new(0, S, 0));
    assert_eq!((c.x, c.y, c.z), (0, 0, S));
}

#[test]
fn length_of_pythagorean_vector() {
    let v = Vec3::new(3 * S, 4 * S, 0);
    assert_eq!(v.len_2(), 25 * S);
    assert_eq!(v.len(), 5 * S);
}

#[test]
fn normalize_keeps_unit_length() {
    // A spread of directions; each normalized length stays within the
    // tolerance that the normalization law proves.
    let vs = [
        Vec3::new(3 * S, 4 * S, 0),
        Vec3::new(S, S, S),
        Vec3::new(-7 * S, 2 * S, 5 * S),
        Vec3::new(123456, -654321, 222222),
        Vec3::new(S, 0, 0),
    ];
    for v in vs {
        let u = unit_vector(v);
        let l2 = u.len_2();
        assert!(65512 <= l2 && l2 <= 65560, "length {l2} out of tolerance");
    }
}

#[test]
fn normalize_degenerate_vector_falls_back() {
    // Shorter than half a unit: too few significant bits to normalize.
    let u = unit_vector(Vec3::new(100, -100, 50));
    assert_eq!((u.x, u.y, u.z), (0, 0, S));
}

#[test]
fn reflect_matches_formula_componentwise() {
    // v = (1, -1, 0) about n = (0, 1, 0) gives exactly (1, 1, 0).
    let v = Vec3::new(S, -S, 0);
    let n = Vec3::new(0, S, 0);
    let r = reflect(v, n);
    assert_eq!((r.x, r.y, r.z), (S, S, 0));
    // The specular sign flip: the reflected normal component is the
    // negation of the incoming one (exactly, on this instance).
    assert_eq!(dot(r, n), -dot(v, n));
}

#[test]
fn refract_straight_through() {
    // Head-on at matched indices: the ray passes through unchanged.
    let r = refract(Vec3::new(0, 0, -S), Vec3::new(0, 0, S), S);
    assert_eq!((r.x, r.y, r.z), (0, 0, -S));
}

#[test]
fn near_zero_only_for_zero_vector() {
    assert!(Vec3::new(0, 0, 0).near_zero());
    assert!(!Vec3::new(1, 0, 0).near_zero());
    assert!(!Vec3::new(0, -1, 0).near_zero());
}

#[test]
fn clamp_bounds() {
    assert_eq!(clamp(5, 0, 3), 3);
    assert_eq!(clamp(-1, 0, 3), 0);
    assert_eq!(clamp(2, 0, 3), 2);
}

#[test]
fn random_samplers_respect_their_ranges() {
    let mut rng = new_rng(7);
    for _ in 0..32 {
        let p = Vec3::random(&mut rng);
        assert!(0 <= p.x && p.x < S && 0 <= p.y && p.y < S && 0 <= p.z && p.z < S);
        let q = Vec3::random_range(-2 * S, 3 * S, &mut rng);
        assert!(-2 * S <= q.x && q.x < 3 * S);
        assert!(-2 * S <= q.y && q.y < 3 * S);
        assert!(-2 * S <= q.z && q.z < 3 * S);
        let b = Vec3::random_in_unit_sphere(&mut rng);
        let bl = b.len_2();
        assert!(16384 <= bl && bl < S);
        let u = Vec3::random_unit(&mut rng);
        let ul = u.len_2();
        assert!(65512 <= ul && ul <= 65560);
        let d = Vec3::random_in_unit_disk(&mut rng);
        assert_eq!(d.z, 0);
        assert!(d.len_2() < S);
    }
}

fn gray_record() -> HitRecord {
    HitRecord {
        p: Vec3::new(0, 0, 0),
        norm: Vec3::new(0, 0, S),
        t: 66,
        front: true,
        material: MatType::Lambertian(Lambertian { albedo: Vec3::new(S / 2, S / 2, S / 2) }),
    }
}

#[test]
fn lambertian_attenuation_is_the_albedo() {
    // The attenuation equals the albedo whatever the incoming direction.
    let albedo = Vec3::new(S / 2, S / 4, S / 8);
    let mat = Lambertian { albedo };
    let rec = gray_record();
    let mut rng = new_rng(11);
    for dir in [Vec3::new(0, 0, -S), Vec3::new(S, -S, 0), Vec3::new(-3 * S, 2 * S, -S)] {
        let r_in = Ray { orig: Vec3::new(0, 0, S), dir, time: 0 };
        let (att, scattered) = mat.scatter(&r_in, &rec, &mut rng).expect("always scatters");
        assert_eq!((att.x, att.y, att.z), (albedo.x, albedo.y, albedo.z));
        assert_eq!((scattered.orig.x, scattered.orig.y, scattered.orig.z), (0, 0, 0));
        assert_eq!(scattered.time, r_in.time);
    }
}

#[test]
fn metal_reflects_exactly_when_smooth() {
    let mat = Metal { albedo: Vec3::new(S, S / 2, S / 4), fuzz: 0 };
    let rec = gray_record();
    let r_in = Ray { orig: Vec3::new(0, 0, S), dir: Vec3::new(0, 0, -S), time: 3 };
    let mut rng = new_rng(5);
    let (att, scattered) = mat.scatter(&r_in, &rec, &mut rng).expect("head-on reflection");
    assert_eq!((att.x, att.y, att.z), (S, S / 2, S / 4));
    assert_eq!((scattered.dir.x, scattered.dir.y, scattered.dir.z), (0, 0, S));
    assert_eq!(scattered.time, 3);
}

#[test]
fn metal_absorbs_rays_reflected_below_the_surface() {
    // Incoming along the normal itself: the reflection points into the
    // surface, and the ray is absorbed.
    let mat = Metal { albedo: Vec3::new(S, S, S), fuzz: 0 };
    let rec = gray_record();
    let r_in = Ray { orig: Vec3::new(0, 0, -S), dir: Vec3::new(0, 0, S), time: 0 };
    let mut rng = new_rng(5);
    assert!(mat.scatter(&r_in, &rec, &mut rng).is_none());
}

#[test]
fn dielectric_always_scatters() {
    // Any refraction index, entering or leaving, several directions and
    // seeds: a dielectric never absorbs, and its attenuation is lossless.
    let rec_front = gray_record();
    let mut rec_back = gray_record();
    rec_back.front = false;
    let mut rng = new_rng(23);
    for ior in [16384, 32768, S, 98304, 2 * S, 262144] {
        let mat = Dielectric { index_refraction: ior };
        for dir in [Vec3::new(0, 0, -S), Vec3::new(S, -S, -S), Vec3::new(-S / 2, S / 3, -S)] {
            for rec in [&rec_front, &rec_back] {
                let r_in = Ray { orig: Vec3::new(0, 0, S), dir, time: 9 };
                let (att, scattered) =
                    mat.scatter(&r_in, rec, &mut rng).expect("dielectrics never absorb");
                assert_eq!((att.x, att.y, att.z), (S, S, S));
                assert_eq!(scattered.time, 9);
            }
        }
    }
}

#[test]
fn schlick_reflectance_at_normal_incidence() {
    // cos = 1: the fifth-power term vanishes and only r0^2 is left.
    // For ior 1.5 entering: r0 = (1 - 1.5)/(1 + 1.5) = -0.2, squared 0.04.
    let r = Dielectric::reflectance(S, 98304);
    let r0 = ((S - 98304) * S) / (S + 98304);
    let expected = (r0 * r0) / S;
    assert_eq!(r, expected);
    // Grazing incidence (cos = 0): reflectance saturates at one.
    assert_eq!(Dielectric::reflectance(0, 98304), S);
}

#[test]
fn material_dispatch_matches_variants() {
    let rec = gray_record();
    let r_in = Ray { orig: Vec3::new(0, 0, S), dir: Vec3::new(0, 0, -S), time: 0 };
    let mut rng = new_rng(3);
    let lam = MatType::Lambertian(Lambertian { albedo: Vec3::new(S / 2, S / 2, S / 2) });
    assert!(lam.scatter(&r_in, &rec, &mut rng).is_some());
    let die = MatType::Dielectric(Dielectric { index_refraction: 98304 });
    let (att, _) = die.scatter(&r_in, &rec, &mut rng).unwrap();
    assert_eq!((att.x, att.y, att.z), (S, S, S));
    let met = MatType::Metal(Metal { albedo: Vec3::new(S, S, S), fuzz: 0 });
    let (att2, _) = met.scatter(&r_in, &rec, &mut rng).unwrap();
    assert_eq!((att2.x, att2.y, att2.z), (S, S, S));
}
