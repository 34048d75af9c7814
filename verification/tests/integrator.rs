//! The scene integrator: closest-hit selection, the depth cutoff, the
//! background gradient, and the render loop.

use raytracer::camera::Camera;
use raytracer::material::Material;
use raytracer::materials::lambertian::Lambertian;
use raytracer::ray::Ray;
use raytracer::scene::Scene;
use raytracer::sphere::Sphere;
use raytracer::utils::Sampler;
use raytracer::vector::Vector;
use raytracer::{REFLECTION_DEPTH, VIEWPORT_HEIGHT, VIEWPORT_WIDTH};

const ONE: i64 = 65536;

fn test_camera() -> Camera {
    // At the origin, looking down -z, 20 degree vertical fov
    // (tan(10 deg) ~ 0.17633), 16:9 aspect, no lens blur, focus at 1.
    Camera::new(
        Vector::new(0, 0, 0),
        Vector::new(0, 0, -ONE),
        Vector::new(0, ONE, 0),
        11556,
        116508,
        0,
        ONE,
    )
}

fn lambertian(r: i64, g: i64, b: i64) -> Material {
    Material::Lambertian(Lambertian::new(Vector::new(r, g, b)))
}

#[test]
fn scene_new_uses_viewport_dimensions() {
    let scene = Scene::new(test_camera(), Vec::new());
    assert_eq!(scene.width, VIEWPORT_WIDTH);
    assert_eq!(scene.height, VIEWPORT_HEIGHT);
    assert_eq!(scene.pixels.len(), 0);
}

#[test]
fn empty_scene_straight_up_ray_gives_background_color() {
    let scene = Scene::new(test_camera(), Vec::new());
    let ray = Ray::new(Vector::new(0, 0, 0), Vector::new(0, ONE, 0));
    let mut s = Sampler::from_seed(1);
    let c = scene.color_model(ray, 0, &mut s);
    assert_eq!(c, Vector::new(32768, 45875, 65536));
}

#[test]
fn empty_scene_straight_down_ray_gives_white() {
    let scene = Scene::new(test_camera(), Vec::new());
    let ray = Ray::new(Vector::new(0, 0, 0), Vector::new(0, -ONE, 0));
    let mut s = Sampler::from_seed(1);
    let c = scene.color_model(ray, 0, &mut s);
    assert_eq!(c, Vector::new(ONE, ONE, ONE));
}

#[test]
fn empty_scene_diagonal_ray_gives_gradient_blend() {
    let scene = Scene::new(test_camera(), Vec::new());
    let ray = Ray::new(Vector::new(0, 0, 0), Vector::new(ONE, 2 * ONE, -3 * ONE));
    let mut s = Sampler::from_seed(1);
    let c = scene.color_model(ray, 5, &mut s);
    assert_eq!(c, Vector::new(40394, 50450, 65536));
}

#[test]
fn depth_cutoff_returns_black_for_any_ray() {
    // Even on an empty scene, at the cutoff the color model gives black.
    let empty = Scene::new(test_camera(), Vec::new());
    let objects = vec![Sphere::new(
        &Vector::new(0, 0, -2 * ONE),
        ONE,
        lambertian(39321, 13107, 13107),
    )];
    let full = Scene::new(test_camera(), objects);
    let ray = Ray::new(Vector::new(0, 0, 0), Vector::new(0, 0, -ONE));
    let mut s = Sampler::from_seed(1);
    assert_eq!(empty.color_model(ray, REFLECTION_DEPTH, &mut s), Vector::new(0, 0, 0));
    assert_eq!(full.color_model(ray, REFLECTION_DEPTH, &mut s), Vector::new(0, 0, 0));
    assert_eq!(full.color_model(ray, REFLECTION_DEPTH + 50, &mut s), Vector::new(0, 0, 0));
}

#[test]
fn hit_color_is_bounded_by_albedo() {
    // One diffuse sphere dead ahead: with bounce budget, the color is the
    // albedo tinting some later contribution, so no channel can exceed it.
    let albedo = Vector::new(39321, 13107, 13107);
    let objects = vec![Sphere::new(&Vector::new(0, 0, -2 * ONE), ONE, lambertian(39321, 13107, 13107))];
    let scene = Scene::new(test_camera(), objects);
    let ray = Ray::new(Vector::new(0, 0, 0), Vector::new(0, 0, -ONE));
    for seed in 0..16u64 {
        let mut s = Sampler::from_seed(seed);
        let c = scene.color_model(ray, 0, &mut s);
        assert!(c.x() <= albedo.x() && c.y() <= albedo.y() && c.z() <= albedo.z());
        assert!(c.x() >= 0 && c.y() >= 0 && c.z() >= 0);
    }
}

#[test]
fn check_hits_picks_nearest_sphere() {
    let near = lambertian(ONE / 2, 0, 0);
    let far = lambertian(0, ONE / 2, 0);
    let objects = vec![
        Sphere::new(&Vector::new(0, 0, -5 * ONE), ONE, far),
        Sphere::new(&Vector::new(0, 0, -2 * ONE), ONE, near),
    ];
    let scene = Scene::new(test_camera(), objects);
    let ray = Ray::new(Vector::new(0, 0, 0), Vector::new(0, 0, -ONE));
    let hit = scene.check_hits(&ray).expect("both spheres are ahead");
    assert_eq!(hit.t, ONE);
    assert_eq!(hit.material, near);
}

#[test]
fn check_hits_breaks_ties_by_insertion_order() {
    let first = lambertian(ONE / 2, 0, 0);
    let second = lambertian(0, ONE / 2, 0);
    let objects = vec![
        Sphere::new(&Vector::new(0, 0, -2 * ONE), ONE, first),
        Sphere::new(&Vector::new(0, 0, -2 * ONE), ONE, second),
    ];
    let scene = Scene::new(test_camera(), objects);
    let ray = Ray::new(Vector::new(0, 0, 0), Vector::new(0, 0, -ONE));
    let hit = scene.check_hits(&ray).unwrap();
    assert_eq!(hit.material, first);
}

#[test]
fn check_hits_misses_empty_scene() {
    let scene = Scene::new(test_camera(), Vec::new());
    let ray = Ray::new(Vector::new(0, 0, 0), Vector::new(0, 0, -ONE));
    assert!(scene.check_hits(&ray).is_none());
}

#[test]
fn antialias_color_stays_in_unit_range() {
    let objects = vec![Sphere::new(
        &Vector::new(0, 0, -2 * ONE),
        ONE,
        lambertian(39321, 13107, 13107),
    )];
    let scene = Scene::new(test_camera(), objects);
    let mut s = Sampler::from_seed(3);
    let c = scene.antialias_color(16, 800, 450, &mut s);
    assert!(0 <= c.x() && c.x() <= ONE);
    assert!(0 <= c.y() && c.y() <= ONE);
    assert!(0 <= c.z() && c.z() <= ONE);
}

#[test]
fn render_fills_row_major_buffer() {
    // A tiny viewport keeps the test fast; render still runs the full
    // per-pixel sampling.
    let objects = vec![Sphere::new(
        &Vector::new(0, 0, -2 * ONE),
        ONE,
        lambertian(39321, 13107, 13107),
    )];
    let mut scene = Scene {
        camera: test_camera(),
        objects,
        height: 3,
        width: 4,
        pixels: Vec::new(),
    };
    let mut s = Sampler::from_seed(11);
    scene.render(&mut s);
    assert_eq!(scene.pixels.len(), 12);
}

#[test]
fn pinhole_camera_is_deterministic() {
    let cam = test_camera();
    let mut s1 = Sampler::from_seed(100);
    let mut s2 = Sampler::from_seed(200);
    let (o1, d1) = cam.get_pixel_direction(32768, 32768, &mut s1);
    let (o2, d2) = cam.get_pixel_direction(32768, 32768, &mut s2);
    // With a zero lens radius the sampled lens offset is scaled away.
    assert_eq!(o1, Vector::new(0, 0, 0));
    assert_eq!(o1, o2);
    assert_eq!(d1, d2);
}

#[test]
fn render_of_empty_scene_shows_sky() {
    // The sky gradient's blue channel is exactly 1.0 for every ray, so an
    // empty-scene render must quantize every blue byte to 255, and the
    // red channel never falls below the gradient's floor.
    let mut scene = Scene {
        camera: test_camera(),
        objects: Vec::new(),
        height: 3,
        width: 3,
        pixels: Vec::new(),
    };
    let mut s = Sampler::from_seed(21);
    scene.render(&mut s);
    assert_eq!(scene.pixels.len(), 9);
    for px in &scene.pixels {
        assert_eq!(px.b, 255);
        assert!(px.r >= 127);
    }
}

#[test]
fn single_sample_mean_is_the_sample() {
    // With one sample the 1/n scale is exactly 1.0, so the antialiased
    // color equals one path evaluation and stays in range.
    let scene = Scene::new(test_camera(), Vec::new());
    let mut s = Sampler::from_seed(33);
    let c = scene.antialias_color(1, 0, 0, &mut s);
    // Empty scene: the sample is a background color; blue is exactly 1.0.
    assert_eq!(c.z(), 65536);
}
