//! The random sampling layer: range bounds, seeded determinism, unit
//! sphere sampling, and single-sample antialiasing reproducibility.

use raytracer::camera::Camera;
use raytracer::material::Material;
use raytracer::materials::lambertian::Lambertian;
use raytracer::ray::get_ray;
use raytracer::scene::{sample_coord, Scene};
use raytracer::sphere::Sphere;
use raytracer::utils::{random_in_range, random_vector_in_unit_sphere, Sampler};
use raytracer::vector::Vector;

const ONE: i64 = 65536;

#[test]
fn random_in_range_respects_bounds() {
    let mut s = Sampler::from_seed(42);
    for _ in 0..200 {
        let v = random_in_range(&mut s, -5 * ONE, 5 * ONE);
        assert!(-5 * ONE <= v && v < 5 * ONE);
    }
}

#[test]
fn random_in_range_is_seed_deterministic() {
    let mut a = Sampler::from_seed(7);
    let mut b = Sampler::from_seed(7);
    for _ in 0..10 {
        assert_eq!(random_in_range(&mut a, 0, ONE), random_in_range(&mut b, 0, ONE));
    }
}

#[test]
fn different_seeds_give_different_streams() {
    let mut a = Sampler::from_seed(1);
    let mut b = Sampler::from_seed(2);
    let mut differs = false;
    for _ in 0..10 {
        if random_in_range(&mut a, 0, ONE) != random_in_range(&mut b, 0, ONE) {
            differs = true;
        }
    }
    assert!(differs, "two seeds produced identical ten-draw streams");
}

#[test]
fn unit_sphere_samples_are_near_unit() {
    let mut s = Sampler::from_seed(5);
    for _ in 0..100 {
        let v = random_vector_in_unit_sphere(&mut s);
        assert!(v.x().abs() <= 2 * ONE && v.y().abs() <= 2 * ONE && v.z().abs() <= 2 * ONE);
        let sq = v.squared_length();
        // On the unit sphere up to fixed-point truncation (~1.2e-4).
        assert!(65524 <= sq && sq <= 65552, "squared length {}", sq);
    }
}

#[test]
fn sample_coord_stays_normalized() {
    for p in [0, 1, 799, 1599] {
        let x = sample_coord(p, 65535, 1600);
        assert!(0 <= x && x <= 98304);
    }
    assert_eq!(sample_coord(0, 0, 1600), 0);
}

#[test]
fn single_sample_antialias_replays_from_seed() {
    // One sample with a fixed seed reproduces the deterministic color of
    // the same jittered camera ray evaluated directly.
    let cam = Camera::new(
        Vector::new(0, 0, 0),
        Vector::new(0, 0, -ONE),
        Vector::new(0, ONE, 0),
        11556,
        116508,
        0,
        ONE,
    );
    let albedo = Vector::new(39321, 13107, 13107);
    let objects = vec![Sphere::new(
        &Vector::new(0, 0, -2 * ONE),
        ONE,
        Material::Lambertian(Lambertian::new(albedo)),
    )];
    let scene = Scene::new(cam, objects);

    let mut s1 = Sampler::from_seed(77);
    let c1 = scene.antialias_color(1, 10, 20, &mut s1);

    let mut s2 = Sampler::from_seed(77);
    let ru = random_in_range(&mut s2, 0, 65536);
    let rv = random_in_range(&mut s2, 0, 65536);
    let x = sample_coord(10, ru, scene.width);
    let y = sample_coord(20, rv, scene.height);
    let (o, d) = scene.camera.get_pixel_direction(x, y, &mut s2);
    let c2 = if d.squared_length() >= 1 {
        let ray = get_ray(o, o.add(d));
        scene.color_model(ray, 0, &mut s2)
    } else {
        Vector::new(0, 0, 0)
    };
    // A single sample is scaled by 1/1 == 1.0 exactly.
    assert_eq!(c1, c2);
}
