//! Ray-sphere intersection: the axis-aligned scenario, the epsilon guard,
//! misses, and hit-point distance to the center.

use raytracer::material::Material;
use raytracer::materials::lambertian::Lambertian;
use raytracer::ray::Ray;
use raytracer::sphere::Sphere;
use raytracer::vector::Vector;

const ONE: i64 = 65536;

fn gray() -> Material {
    Material::Lambertian(Lambertian::new(Vector::new(ONE / 2, ONE / 2, ONE / 2)))
}

#[test]
fn axis_ray_hits_sphere_at_one() {
    // Camera at the origin looking down -z; sphere at (0, 0, -2), radius 1.
    let s = Sphere::new(&Vector::new(0, 0, -2 * ONE), ONE, gray());
    let r = Ray::new(Vector::new(0, 0, 0), Vector::new(0, 0, -ONE));
    let hit = s.ray_intersect(&r).expect("ray through the center must hit");
    assert_eq!(hit.t, ONE);
    assert_eq!(hit.p, Vector::new(0, 0, -ONE));
    // Front face: dot(direction, outward normal) < 0, normal kept as-is.
    assert_eq!(hit.normal, Vector::new(0, 0, ONE));
}

#[test]
fn hit_parameter_clears_epsilon() {
    let s = Sphere::new(&Vector::new(0, 0, -2 * ONE), ONE, gray());
    let r = Ray::new(Vector::new(0, 0, 0), Vector::new(0, 0, -ONE));
    let hit = s.ray_intersect(&r).unwrap();
    // t is strictly above the self-intersection epsilon (~3e-4).
    assert!(hit.t >= 20);
}

#[test]
fn negative_discriminant_misses() {
    // A ray pointing straight up cannot meet a sphere far down the -z axis.
    let s = Sphere::new(&Vector::new(0, 0, -2 * ONE), ONE, gray());
    let r = Ray::new(Vector::new(0, 0, 0), Vector::new(0, ONE, 0));
    assert!(s.ray_intersect(&r).is_none());
}

#[test]
fn ray_behind_sphere_misses() {
    // Sphere behind the ray origin: the near root is negative.
    let s = Sphere::new(&Vector::new(0, 0, 2 * ONE), ONE, gray());
    let r = Ray::new(Vector::new(0, 0, 0), Vector::new(0, 0, -ONE));
    assert!(s.ray_intersect(&r).is_none());
}

#[test]
fn hit_point_lies_on_sphere_axis_case() {
    let center = Vector::new(0, 0, -2 * ONE);
    let s = Sphere::new(&center, ONE, gray());
    let r = Ray::new(Vector::new(0, 0, 0), Vector::new(0, 0, -ONE));
    let hit = s.ray_intersect(&r).unwrap();
    let dist = hit.p.sub(center).length();
    assert!((dist - ONE).abs() <= 7, "distance to center was {}", dist);
}

#[test]
fn hit_point_lies_on_sphere_diagonal_case() {
    // Ray through the center of an off-axis sphere.
    let center = Vector::new(2 * ONE, 0, -2 * ONE);
    let s = Sphere::new(&center, ONE / 2, gray());
    let d = Vector::new(2 * ONE, 0, -2 * ONE).to_unit_vector();
    let r = Ray::new(Vector::new(0, 0, 0), d);
    let hit = s.ray_intersect(&r).expect("diagonal ray through center must hit");
    assert_eq!(hit.t, 152595);
    let dist = hit.p.sub(center).length();
    assert!((dist - ONE / 2).abs() <= 7, "distance to center was {}", dist);
}

#[test]
fn ray_from_inside_misses_near_root() {
    // The test keeps only the nearer quadratic root; from inside the
    // sphere that root is behind the origin, so there is no hit.
    let s = Sphere::new(&Vector::new(0, 0, 0), 2 * ONE, gray());
    let r = Ray::new(Vector::new(0, 0, 0), Vector::new(0, 0, -ONE));
    assert!(s.ray_intersect(&r).is_none());
}

#[test]
fn tiny_sphere_normal_is_still_unit() {
    // A sphere of radius 0.01: the hit offset is far below unit scale,
    // but the returned normal is still unit length within tolerance.
    let s = Sphere::new(&Vector::new(0, 0, -2 * ONE), 655, gray());
    let r = Ray::new(Vector::new(0, 0, 0), Vector::new(0, 0, -ONE));
    let hit = s.ray_intersect(&r).expect("axis ray must hit");
    assert_eq!(hit.normal, Vector::new(0, 0, ONE));
    let sq = hit.normal.squared_length();
    assert!(65524 <= sq && sq <= 65552, "normal squared length {}", sq);
}

#[test]
fn small_sphere_normal_is_near_unit() {
    // A radius-0.3 sphere off axis, hit through its center.
    let center = Vector::new(0, -45875, 26214);
    let s = Sphere::new(&center, 19661, gray());
    let d = Vector::new(0, -45875, 26214).to_unit_vector();
    let r = Ray::new(Vector::new(0, 0, 0), d);
    let hit = s.ray_intersect(&r).expect("ray through center must hit");
    let sq = hit.normal.squared_length();
    assert!(65524 <= sq && sq <= 65552, "normal squared length {}", sq);
}
