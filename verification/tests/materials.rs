//! Material scatter behavior: Lambertian always scatters with its albedo;
//! Metal reflects deterministically and absorbs inward reflections.

use raytracer::material::Material;
use raytracer::materials::lambertian::Lambertian;
use raytracer::materials::metal::Metal;
use raytracer::ray::Ray;
use raytracer::sphere::Hit;
use raytracer::utils::Sampler;
use raytracer::vector::Vector;

const ONE: i64 = 65536;

fn front_hit(material: Material) -> Hit {
    Hit {
        t: ONE,
        p: Vector::new(0, 0, -ONE),
        normal: Vector::new(0, 0, ONE),
        material,
    }
}

#[test]
fn lambertian_always_scatters_with_albedo() {
    let albedo = Vector::new(39321, 13107, 13107);
    let mat = Lambertian::new(albedo);
    let ray = Ray::new(Vector::new(0, 0, 0), Vector::new(0, 0, -ONE));
    let hit = front_hit(Material::Lambertian(mat));
    for seed in 0..32u64 {
        let mut s = Sampler::from_seed(seed);
        let (scattered, attenuation) =
            mat.scatter(&ray, &hit, &mut s).expect("lambertian never absorbs");
        assert_eq!(attenuation, albedo);
        assert_eq!(scattered.origin, hit.p);
        // The scatter direction is normalizable, never degenerate.
        assert!(scattered.direction.squared_length() >= 1);
    }
}

#[test]
fn metal_reflects_head_on_ray() {
    let albedo = Vector::new(39321, 39321, 42598);
    let mat = Metal::new(albedo);
    let ray = Ray::new(Vector::new(0, 0, 0), Vector::new(0, 0, -ONE));
    let hit = front_hit(Material::Metal(mat));
    let (scattered, attenuation) = mat.scatter(&ray, &hit).expect("outward reflection");
    assert_eq!(attenuation, albedo);
    assert_eq!(scattered.origin, hit.p);
    // d - 2*dot(d,n)*n with d = -z, n = +z gives +z, already unit length.
    assert_eq!(scattered.direction, Vector::new(0, 0, ONE));
}

#[test]
fn metal_absorbs_inward_reflection() {
    // With the normal pointing away from the reflected direction the dot
    // product is negative and the ray is absorbed.
    let mat = Metal::new(Vector::new(ONE / 2, ONE / 2, ONE / 2));
    let ray = Ray::new(Vector::new(0, 0, 0), Vector::new(0, 0, -ONE));
    let hit = Hit {
        t: ONE,
        p: Vector::new(0, 0, -ONE),
        normal: Vector::new(0, 0, -ONE),
        material: Material::Metal(mat),
    };
    assert!(mat.scatter(&ray, &hit).is_none());
}

#[test]
fn material_dispatch_matches_variants() {
    let lamb = Lambertian::new(Vector::new(ONE / 2, ONE / 4, ONE / 4));
    let ray = Ray::new(Vector::new(0, 0, 0), Vector::new(0, 0, -ONE));
    let hit = front_hit(Material::Lambertian(lamb));
    let mut s = Sampler::from_seed(9);
    let (_, att) = Material::Lambertian(lamb).scatter(&ray, &hit, &mut s).unwrap();
    assert_eq!(att, lamb.albedo);

    let metal = Metal::new(Vector::new(ONE / 2, ONE / 2, ONE / 2));
    let mhit = front_hit(Material::Metal(metal));
    let mut s2 = Sampler::from_seed(9);
    let (sc, matt) = Material::Metal(metal).scatter(&ray, &mhit, &mut s2).unwrap();
    assert_eq!(matt, metal.albedo);
    assert_eq!(sc.direction, Vector::new(0, 0, ONE));
}
