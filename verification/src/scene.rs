//! The scene and its integrator: closest-hit queries over the object
//! list, the recursive Monte Carlo color model with a hard depth cutoff,
//! stochastic per-pixel antialiasing, and the render loop that fills the
//! pixel buffer in row-major order from the top row down.

use vstd::prelude::*;
use crate::camera::{cam_dir, cam_offset, cam_wf, Camera, IMG_COORD_LIMIT};
use crate::fixed::{fxdiv, fxmul, tdiv};
use crate::fixed::{fx_div, fx_mul, lemma_tdiv_bound, lemma_tdiv_exact, lemma_tdiv_ordered};
use crate::material::{albedo_of, Material};
use crate::materials::lambertian::lambertian_dir;
use crate::pixel::Rgb;
use crate::ray::{get_ray, Ray};
use crate::sphere::{hit_opt_matches, hitm_wf, intersect_spec, lemma_intersect_wf, sphere_wf};
use crate::sphere::{Hit, HitM, Sphere, DIR_LIMIT, POS_LIMIT};
use crate::utils::{unit_sample, Sampler};
use crate::vector::{bounded, dot_v3, quantize_spec, reflect_v3, sq_len_v3, unit_v3};
use crate::vector::{v3_add, v3_mul, v3_scale, v3_sub, Vector, V3};
use crate::{ANTIALIAS_SAMPLES, BACKGROUND_B, BACKGROUND_G, BACKGROUND_R};
use crate::{REFLECTION_DEPTH, VIEWPORT_HEIGHT, VIEWPORT_WIDTH};

verus! {

pub struct Scene {
    pub camera: Camera,
    pub objects: Vec<Sphere>,
    pub height: i32,
    pub width: i32,
    pub pixels: Vec<Rgb>,
}

pub open spec fn black_v3() -> V3 {
    V3 { x: 0, y: 0, z: 0 }
}

/// A color with every channel in [0, 1].
pub open spec fn color_ok(c: V3) -> bool {
    &&& 0 <= c.x <= 65536
    &&& 0 <= c.y <= 65536
    &&& 0 <= c.z <= 65536
}

/// Clamp a unit-vector component into [-1, 1]: truncation can leave a
/// normalized component slightly outside.
pub open spec fn clamp_unit(c: int) -> int {
    if c > 65536 {
        65536
    } else if c < -65536 {
        -65536
    } else {
        c
    }
}

/// The sky gradient: blend white with the background color by the height
/// of the (normalized) ray direction.
pub open spec fn background_spec(d: V3) -> V3 {
    let t = tdiv(clamp_unit(unit_v3(d).y) + 65536, 2);
    V3 {
        x: 65536 - t + fxmul(t, BACKGROUND_R as int),
        y: 65536 - t + fxmul(t, BACKGROUND_G as int),
        z: 65536 - t + fxmul(t, BACKGROUND_B as int),
    }
}

/// The closest hit among the first `n` objects, earliest object winning
/// ties (the insertion order of the scene's list).
pub open spec fn closest_prefix(objs: Seq<Sphere>, o: V3, d: V3, n: int) -> Option<HitM>
    decreases n,
{
    if n <= 0 {
        None
    } else {
        let prev = closest_prefix(objs, o, d, n - 1);
        let cur = intersect_spec(objs[n - 1], o, d);
        match cur {
            None => prev,
            Some(ch) => match prev {
                None => cur,
                Some(ph) => if ch.t < ph.t {
                    cur
                } else {
                    prev
                },
            },
        }
    }
}

/// The possible outcomes of the recursive color model for a ray, over
/// every choice the random stream can make. Deterministic branches (the
/// depth cutoff, a miss, a metal reflection) are pinned exactly; each
/// random choice is an existential over the sampler's guarantees.
pub open spec fn admissible_color(objs: Seq<Sphere>, o: V3, d: V3, depth: int, c: V3) -> bool
    decreases REFLECTION_DEPTH - depth,
{
    if depth >= REFLECTION_DEPTH {
        c == black_v3()
    } else {
        match closest_prefix(objs, o, d, objs.len() as int) {
            None => c == background_spec(d),
            Some(h) => match h.material {
                Material::Lambertian(l) => exists|rv: V3, c2: V3|
                    unit_sample(rv) && admissible_color(
                        objs,
                        h.p,
                        lambertian_dir(h.normal, rv),
                        depth + 1,
                        c2,
                    ) && c == v3_mul(l.albedo@, c2),
                Material::Metal(m) => {
                    let rd = reflect_v3(d, h.normal);
                    if sq_len_v3(rd) >= 1 && dot_v3(unit_v3(rd), h.normal) > 0 {
                        exists|c2: V3|
                            admissible_color(objs, h.p, unit_v3(rd), depth + 1, c2) && c == v3_mul(
                                m.albedo@,
                                c2,
                            )
                    } else {
                        c == black_v3()
                    }
                },
            },
        }
    }
}

/// The color of the single path evaluation determined by the jitter
/// draws `ru`, `rv` and the lens sample `rd`: the admissible color of the
/// resulting camera ray, or black for a direction below the fixed-point
/// resolution.
pub open spec fn sample_evaluates_to(
    cam: Camera,
    objs: Seq<Sphere>,
    w: int,
    h: int,
    px: int,
    py: int,
    ru: int,
    rv: int,
    rd: V3,
    c: V3,
) -> bool {
    let x = fxdiv(px * 65536 + ru, (w - 1) * 65536);
    let y = fxdiv(py * 65536 + rv, (h - 1) * 65536);
    let off = cam_offset(cam, rd);
    let o = v3_add(cam.origin@, off);
    let d = cam_dir(cam, x, y, off);
    if sq_len_v3(d) >= 1 {
        admissible_color(objs, o, unit_v3(d), 0, c)
    } else {
        c == black_v3()
    }
}

/// One sample's possible color for a pixel: two fresh jitter draws and a
/// fresh lens sample whose path evaluates to that color.
pub open spec fn pixel_sample_ok(
    cam: Camera,
    objs: Seq<Sphere>,
    w: int,
    h: int,
    px: int,
    py: int,
    c: V3,
) -> bool {
    exists|ru: int, rv: int, rd: V3|
        0 <= ru < 65536 && 0 <= rv < 65536 && unit_sample(rd) && #[trigger] sample_evaluates_to(
            cam,
            objs,
            w,
            h,
            px,
            py,
            ru,
            rv,
            rd,
            c,
        )
}

/// The accumulated mean of per-sample colors, in evaluation order: each
/// sample scaled by the fixed-point reciprocal of the sample count.
pub open spec fn scaled_sum(samples: Seq<V3>, f: int) -> V3
    decreases samples.len(),
{
    if samples.len() == 0 {
        black_v3()
    } else {
        v3_add(scaled_sum(samples.drop_last(), f), v3_scale(f, samples.last()))
    }
}

/// The possible results of the antialiasing sampler: `n` per-sample
/// colors, each a possible sample of this pixel, averaged.
pub open spec fn antialias_outcome(
    cam: Camera,
    objs: Seq<Sphere>,
    w: int,
    h: int,
    n: int,
    px: int,
    py: int,
    c: V3,
) -> bool {
    exists|samples: Seq<V3>|
        samples.len() == n && (forall|k: int|
            0 <= k < n ==> pixel_sample_ok(cam, objs, w, h, px, py, #[trigger] samples[k])) && c
            == scaled_sum(samples, 65536int / n)
}

/// Entry `k` of a rendered pixel buffer is the quantization of a possible
/// antialiased color of its pixel. The buffer is row-major with rows from
/// the top of the image down: entry `k` shows column `k % w` of image row
/// `h - 1 - k / w`.
pub open spec fn rendered_pixel_ok(
    cam: Camera,
    objs: Seq<Sphere>,
    w: int,
    h: int,
    pixels: Seq<Rgb>,
    k: int,
) -> bool {
    exists|c: V3|
        #[trigger] antialias_outcome(cam, objs, w, h, ANTIALIAS_SAMPLES as int, k % w, h - 1 - k / w, c)
            && pixels[k].r == quantize_spec(c.x) && pixels[k].g == quantize_spec(c.y)
            && pixels[k].b == quantize_spec(c.z)
}

/// Well-formed scene: a well-formed camera, well-formed spheres, and
/// dimensions the sampler can divide by.
pub open spec fn scene_wf(s: Scene) -> bool {
    &&& cam_wf(s.camera)
    &&& 3 <= s.width <= 4096
    &&& 3 <= s.height <= 4096
    &&& forall|i: int| 0 <= i < s.objects@.len() ==> sphere_wf(#[trigger] s.objects@[i])
}

/// Any closest hit over well-formed spheres is itself well formed.
pub proof fn lemma_closest_wf(objs: Seq<Sphere>, o: V3, d: V3, n: int)
    requires
        0 <= n <= objs.len(),
        forall|i: int| 0 <= i < objs.len() ==> sphere_wf(#[trigger] objs[i]),
        bounded(o, POS_LIMIT as int),
        bounded(d, DIR_LIMIT as int),
        closest_prefix(objs, o, d, n) is Some,
    ensures
        hitm_wf(closest_prefix(objs, o, d, n).unwrap()),
    decreases n,
{
    if n > 0 {
        if intersect_spec(objs[n - 1], o, d) is Some {
            lemma_intersect_wf(objs[n - 1], o, d);
        }
        if closest_prefix(objs, o, d, n - 1) is Some {
            lemma_closest_wf(objs, o, d, n - 1);
        }
    }
}

/// Tinting a channel by a reflectance keeps it within [0, that channel].
proof fn lemma_tint_channel(a: int, c: int)
    requires
        0 <= a <= 65536,
        0 <= c <= 65536,
    ensures
        0 <= fxmul(a, c) <= a,
        0 <= fxmul(a, c) <= c,
{
    assert(0 <= a * c && a * c <= a * 65536 && a * c <= c * 65536 && a * 65536 == 65536 * a && c
        * 65536 == 65536 * c) by (nonlinear_arith)
        requires
            0 <= a <= 65536,
            0 <= c <= 65536,
    ;
    lemma_tdiv_ordered(a * c, 65536 * a, 65536);
    lemma_tdiv_ordered(a * c, 65536 * c, 65536);
    lemma_tdiv_exact(a, 65536);
    lemma_tdiv_exact(c, 65536);
    assert(a * 65536 == 65536 * a) by (nonlinear_arith);
    assert(c * 65536 == 65536 * c) by (nonlinear_arith);
}

/// One channel of the sky gradient lies in [0, 1].
proof fn lemma_bg_channel(t: int, bg: int)
    requires
        0 <= t <= 65536,
        0 <= bg <= 65536,
    ensures
        0 <= 65536 - t + fxmul(t, bg) <= 65536,
        -0x7fff_ffff_ffff_ffff <= fxmul(t, bg) <= 0x7fff_ffff_ffff_ffff,
{
    lemma_tint_channel(t, bg);
}

impl Scene {
    pub fn new(c: Camera, o: Vec<Sphere>) -> (r: Scene)
        requires
            cam_wf(c),
            forall|i: int| 0 <= i < o@.len() ==> sphere_wf(#[trigger] o@[i]),
        ensures
            scene_wf(r),
            r.camera == c,
            r.objects == o,
            r.height == VIEWPORT_HEIGHT,
            r.width == VIEWPORT_WIDTH,
            r.pixels@.len() == 0,
    {
        let pixels: Vec<Rgb> = Vec::new();
        Scene { camera: c, objects: o, height: VIEWPORT_HEIGHT, width: VIEWPORT_WIDTH, pixels }
    }

    /// The closest hit of `ray` across all objects, ties broken by the
    /// first object seen in insertion order.
    pub fn check_hits(&self, ray: &Ray) -> (res: Option<Hit>)
        requires
            scene_wf(*self),
            bounded(ray.origin@, POS_LIMIT as int),
            bounded(ray.direction@, DIR_LIMIT as int),
        ensures
            hit_opt_matches(
                res,
                closest_prefix(
                    self.objects@,
                    ray.origin@,
                    ray.direction@,
                    self.objects@.len() as int,
                ),
            ),
    {
        let mut min: Option<Hit> = None;
        let mut i: usize = 0;
        while i < self.objects.len()
            invariant
                i <= self.objects@.len(),
                scene_wf(*self),
                bounded(ray.origin@, POS_LIMIT as int),
                bounded(ray.direction@, DIR_LIMIT as int),
                hit_opt_matches(
                    min,
                    closest_prefix(self.objects@, ray.origin@, ray.direction@, i as int),
                ),
            decreases self.objects@.len() - i,
        {
            let object = &self.objects[i];
            match object.ray_intersect(ray) {
                Some(hit) => {
                    match min {
                        None => {
                            min = Some(hit);
                        },
                        Some(prev) => {
                            if hit.t < prev.t {
                                min = Some(hit);
                            } else {
                                min = Some(prev);
                            }
                        },
                    }
                },
                None => {},
            }
            i = i + 1;
        }
        min
    }

    /// The recursive color model. Beyond the reflection depth the path is
    /// cut off to black; a miss returns the sky gradient; a hit scatters,
    /// tints by the material's albedo and recurses, or is absorbed to
    /// black.
    pub fn color_model(&self, r: Ray, depth: i32, s: &mut Sampler) -> (c: Vector)
        requires
            scene_wf(*self),
            bounded(r.origin@, POS_LIMIT as int),
            bounded(r.direction@, 0x1_0000_0000),
            sq_len_v3(r.direction@) >= 1,
            0 <= depth,
        ensures
            color_ok(c@),
            depth >= REFLECTION_DEPTH ==> c@ == black_v3(),
            (depth < REFLECTION_DEPTH && closest_prefix(
                self.objects@,
                r.origin@,
                r.direction@,
                self.objects@.len() as int,
            ) is None) ==> c@ == background_spec(r.direction@),
            (depth < REFLECTION_DEPTH && self.objects@.len() == 0) ==> c@ == background_spec(
                r.direction@,
            ),
            depth < REFLECTION_DEPTH ==> (closest_prefix(
                self.objects@,
                r.origin@,
                r.direction@,
                self.objects@.len() as int,
            ) matches Some(h) ==> c@.x <= albedo_of(h.material).x && c@.y <= albedo_of(
                h.material,
            ).y && c@.z <= albedo_of(h.material).z),
            admissible_color(self.objects@, r.origin@, r.direction@, depth as int, c@),
        decreases REFLECTION_DEPTH - depth,
    {
        if depth >= REFLECTION_DEPTH {
            return Vector::new(0, 0, 0);
        }
        let obj_hit = self.check_hits(&r);
        match obj_hit {
            Some(h) => {
                proof {
                    lemma_closest_wf(
                        self.objects@,
                        r.origin@,
                        r.direction@,
                        self.objects@.len() as int,
                    );
                }
                match h.material.scatter(&r, &h, s) {
                    Some((scattered, attenuation)) => {
                        let c2 = self.color_model(scattered, depth + 1, s);
                        proof {
                            lemma_tint_channel(attenuation@.x, c2@.x);
                            lemma_tint_channel(attenuation@.y, c2@.y);
                            lemma_tint_channel(attenuation@.z, c2@.z);
                        }
                        let tinted = attenuation.mul(c2);
                        proof {
                            let objs = self.objects@;
                            let hm = h@;
                            match h.material {
                                Material::Lambertian(_) => {
                                    let rv = choose|rv: V3|
                                        unit_sample(rv) && scattered.direction@ == lambertian_dir(
                                            h.normal@,
                                            rv,
                                        );
                                    assert(unit_sample(rv) && admissible_color(
                                        objs,
                                        hm.p,
                                        lambertian_dir(hm.normal, rv),
                                        depth as int + 1,
                                        c2@,
                                    ) && tinted@ == v3_mul(albedo_of(hm.material), c2@));
                                },
                                Material::Metal(_) => {
                                    let rd = reflect_v3(r.direction@, hm.normal);
                                    assert(admissible_color(
                                        objs,
                                        hm.p,
                                        unit_v3(rd),
                                        depth as int + 1,
                                        c2@,
                                    ) && tinted@ == v3_mul(albedo_of(hm.material), c2@));
                                },
                            }
                            assert(admissible_color(objs, r.origin@, r.direction@, depth as int, tinted@));
                        }
                        tinted
                    },
                    None => {
                        let absorbed = Vector::new(0, 0, 0);
                        proof {
                            // Lambertian always scatters, so an absorbed
                            // path came from a metal whose reflection
                            // failed the outward test.
                            assert(h.material matches Material::Metal(_));
                            assert(admissible_color(
                                self.objects@,
                                r.origin@,
                                r.direction@,
                                depth as int,
                                absorbed@,
                            ));
                        }
                        absorbed
                    },
                }
            },
            None => {
                let u = r.direction.to_unit_vector();
                let uy = u.y();
                let uyc: i64 = if uy > 65536 {
                    65536
                } else if uy < -65536 {
                    -65536
                } else {
                    uy
                };
                let t: i64 = (((uyc + 65536) as u64) / 2) as i64;
                proof {
                    lemma_bg_channel(t as int, BACKGROUND_R as int);
                    lemma_bg_channel(t as int, BACKGROUND_G as int);
                    lemma_bg_channel(t as int, BACKGROUND_B as int);
                }
                let cx: i64 = 65536 - t + fx_mul(t, BACKGROUND_R);
                let cy: i64 = 65536 - t + fx_mul(t, BACKGROUND_G);
                let cz: i64 = 65536 - t + fx_mul(t, BACKGROUND_B);
                Vector::new(cx, cy, cz)
            },
        }
    }

    /// The mean of `n_samples` independently jittered path evaluations
    /// for one pixel.
    pub fn antialias_color(&self, n_samples: i32, pixel_x: i32, pixel_y: i32, s: &mut Sampler) -> (c:
        Vector)
        requires
            scene_wf(*self),
            0 <= pixel_x < self.width,
            0 <= pixel_y < self.height,
            1 <= n_samples <= 65536,
        ensures
            color_ok(c@),
            antialias_outcome(
                self.camera,
                self.objects@,
                self.width as int,
                self.height as int,
                n_samples as int,
                pixel_x as int,
                pixel_y as int,
                c@,
            ),
            n_samples == 1 ==> pixel_sample_ok(
                self.camera,
                self.objects@,
                self.width as int,
                self.height as int,
                pixel_x as int,
                pixel_y as int,
                c@,
            ),
    {
        let inv: i64 = ((65536u64) / (n_samples as u64)) as i64;
        proof {
            vstd::arithmetic::div_mod::lemma_div_pos_is_pos(65536, n_samples as int);
            vstd::arithmetic::div_mod::lemma_div_nonincreasing(65536, n_samples as int);
            vstd::arithmetic::div_mod::lemma_fundamental_div_mod(65536, n_samples as int);
            assert((n_samples as int) * inv <= 65536) by (nonlinear_arith)
                requires
                    65536int == (n_samples as int) * (65536int / (n_samples as int))
                        + 65536int % (n_samples as int),
                    inv == 65536int / (n_samples as int),
                    0 <= 65536int % (n_samples as int),
            ;
        }
        let mut aa = Vector::new(0, 0, 0);
        let mut k: i32 = 0;
        let ghost mut samples: Seq<V3> = Seq::<V3>::empty();
        while k < n_samples
            invariant
                0 <= k <= n_samples,
                1 <= n_samples <= 65536,
                0 <= inv <= 65536,
                inv == 65536int / (n_samples as int),
                (n_samples as int) * inv <= 65536,
                scene_wf(*self),
                0 <= pixel_x < self.width,
                0 <= pixel_y < self.height,
                0 <= aa@.x <= k * inv,
                0 <= aa@.y <= k * inv,
                0 <= aa@.z <= k * inv,
                k * inv <= 65536,
                samples.len() == k,
                forall|m: int|
                    0 <= m < samples.len() ==> pixel_sample_ok(
                        self.camera,
                        self.objects@,
                        self.width as int,
                        self.height as int,
                        pixel_x as int,
                        pixel_y as int,
                        #[trigger] samples[m],
                    ),
                aa@ == scaled_sum(samples, inv as int),
            decreases n_samples - k,
        {
            let ru = crate::utils::random_in_range(s, 0, 65536);
            let rv = crate::utils::random_in_range(s, 0, 65536);
            let x = sample_coord(pixel_x, ru, self.width);
            let y = sample_coord(pixel_y, rv, self.height);
            let (o, d) = self.camera.get_pixel_direction(x, y, s);
            let sample = if d.squared_length() >= 1 {
                proof {
                    assert(v3_sub(v3_add(o@, d@), o@) == d@);
                }
                let dest = o.add(d);
                let ray = get_ray(o, dest);
                self.color_model(ray, 0, s)
            } else {
                // A degenerate camera configuration produced a direction
                // below the fixed-point resolution: that sample is black.
                Vector::new(0, 0, 0)
            };
            proof {
                let rd = choose|rd: V3|
                    unit_sample(rd) && o@ == v3_add(self.camera.origin@, cam_offset(self.camera, rd))
                        && d@ == cam_dir(
                        self.camera,
                        x as int,
                        y as int,
                        cam_offset(self.camera, rd),
                    );
                assert(x as int == fxdiv(
                    pixel_x as int * 65536 + ru as int,
                    (self.width as int - 1) * 65536,
                ));
                assert(y as int == fxdiv(
                    pixel_y as int * 65536 + rv as int,
                    (self.height as int - 1) * 65536,
                ));
                assert(sample_evaluates_to(
                    self.camera,
                    self.objects@,
                    self.width as int,
                    self.height as int,
                    pixel_x as int,
                    pixel_y as int,
                    ru as int,
                    rv as int,
                    rd,
                    sample@,
                ));
                assert(pixel_sample_ok(
                    self.camera,
                    self.objects@,
                    self.width as int,
                    self.height as int,
                    pixel_x as int,
                    pixel_y as int,
                    sample@,
                ));
                lemma_tint_channel(inv as int, sample@.x);
                lemma_tint_channel(inv as int, sample@.y);
                lemma_tint_channel(inv as int, sample@.z);
                assert((k + 1) * inv == k * inv + inv) by (nonlinear_arith);
                assert((k + 1) * inv <= (n_samples as int) * inv) by (nonlinear_arith)
                    requires
                        k + 1 <= n_samples as int,
                        0 <= inv,
                ;
            }
            let term = sample.scale(inv);
            aa = aa.add(term);
            proof {
                let prev = samples;
                samples = samples.push(sample@);
                assert(samples.drop_last() =~= prev);
                assert(samples.last() == sample@);
                assert(aa@ == v3_add(scaled_sum(prev, inv as int), v3_scale(inv as int, sample@)));
            }
            k = k + 1;
        }
        proof {
            assert(antialias_outcome(
                self.camera,
                self.objects@,
                self.width as int,
                self.height as int,
                n_samples as int,
                pixel_x as int,
                pixel_y as int,
                aa@,
            ));
            if n_samples == 1 {
                assert(65536int / 1int == 65536int) by (nonlinear_arith);
                assert(inv == 65536);
                crate::fixed::lemma_fxmul_one(samples[0].x);
                crate::fixed::lemma_fxmul_one(samples[0].y);
                crate::fixed::lemma_fxmul_one(samples[0].z);
                assert(samples.drop_last() =~= Seq::<V3>::empty());
                assert(scaled_sum(Seq::<V3>::empty(), inv as int) == black_v3());
                assert(samples.last() == samples[0]);
                assert(aa@ == v3_add(black_v3(), v3_scale(inv as int, samples[0])));
                assert(v3_scale(65536, samples[0]) == samples[0]);
                assert(aa@ == samples[0]);
            }
        }
        aa
    }

    /// Fill the pixel buffer: rows from the top of the image down, pixels
    /// left to right, each quantized to 8-bit RGB.
    pub fn render(&mut self, s: &mut Sampler)
        requires
            scene_wf(*old(self)),
        ensures
            final(self).camera == old(self).camera,
            final(self).objects == old(self).objects,
            final(self).width == old(self).width,
            final(self).height == old(self).height,
            final(self).pixels@.len() == old(self).width * old(self).height,
            forall|k: int|
                0 <= k < final(self).pixels@.len() ==> rendered_pixel_ok(
                    old(self).camera,
                    old(self).objects@,
                    old(self).width as int,
                    old(self).height as int,
                    final(self).pixels@,
                    k,
                ),
    {
        self.pixels = Vec::new();
        let mut i: i32 = self.height;
        while i > 0
            invariant
                scene_wf(*self),
                self.camera == old(self).camera,
                self.objects == old(self).objects,
                self.width == old(self).width,
                self.height == old(self).height,
                0 <= i <= self.height,
                self.pixels@.len() == (self.height - i) * self.width,
                forall|k: int|
                    0 <= k < self.pixels@.len() ==> rendered_pixel_ok(
                        self.camera,
                        self.objects@,
                        self.width as int,
                        self.height as int,
                        self.pixels@,
                        k,
                    ),
            decreases i,
        {
            i = i - 1;
            let mut j: i32 = 0;
            proof {
                assert((self.height - i) * self.width == (self.height - i - 1) * self.width
                    + self.width) by (nonlinear_arith);
                assert(0 <= (self.height - i - 1) * self.width
                    <= 4096 * 4096) by (nonlinear_arith)
                    requires
                        0 <= self.height - i - 1 <= 4096,
                        3 <= self.width <= 4096,
                ;
            }
            while j < self.width
                invariant
                    scene_wf(*self),
                    self.camera == old(self).camera,
                    self.objects == old(self).objects,
                    self.width == old(self).width,
                    self.height == old(self).height,
                    0 <= i < self.height,
                    0 <= j <= self.width,
                    self.pixels@.len() == (self.height - i - 1) * self.width + j,
                    0 <= (self.height - i - 1) * self.width <= 4096 * 4096,
                    forall|k: int|
                        0 <= k < self.pixels@.len() ==> rendered_pixel_ok(
                            self.camera,
                            self.objects@,
                            self.width as int,
                            self.height as int,
                            self.pixels@,
                            k,
                        ),
                decreases self.width - j,
            {
                let color = self.antialias_color(ANTIALIAS_SAMPLES, j, i, s);
                let bytes = color.to_u8();
                let ghost prev = self.pixels@;
                self.pixels.push(Rgb { r: bytes[0], g: bytes[1], b: bytes[2] });
                proof {
                    let w = self.width as int;
                    let h = self.height as int;
                    let k0 = prev.len() as int;
                    vstd::arithmetic::div_mod::lemma_fundamental_div_mod_converse(
                        k0,
                        w,
                        h - i - 1,
                        j as int,
                    );
                    assert(k0 % w == j as int && k0 / w == h - i - 1);
                    assert(h - 1 - k0 / w == i as int);
                    assert(self.pixels@[k0] == (Rgb { r: bytes[0], g: bytes[1], b: bytes[2] }));
                    assert(rendered_pixel_ok(
                        self.camera,
                        self.objects@,
                        w,
                        h,
                        self.pixels@,
                        k0,
                    ));
                    assert forall|k: int|
                        0 <= k < self.pixels@.len() implies rendered_pixel_ok(
                        self.camera,
                        self.objects@,
                        w,
                        h,
                        self.pixels@,
                        k,
                    ) by {
                        if k < k0 {
                            assert(rendered_pixel_ok(self.camera, self.objects@, w, h, prev, k));
                            let c = choose|c: V3|
                                #[trigger] antialias_outcome(
                                    self.camera,
                                    self.objects@,
                                    w,
                                    h,
                                    ANTIALIAS_SAMPLES as int,
                                    k % w,
                                    h - 1 - k / w,
                                    c,
                                ) && prev[k].r == quantize_spec(c.x) && prev[k].g == quantize_spec(
                                    c.y,
                                ) && prev[k].b == quantize_spec(c.z);
                            assert(self.pixels@[k] == prev[k]);
                        }
                    }
                }
                j = j + 1;
            }
            proof {
                assert((self.height - i - 1) * self.width + self.width == (self.height - i)
                    * self.width) by (nonlinear_arith);
            }
        }
        proof {
            let h = self.height as int;
            let w = self.width as int;
            assert((h - 0) * w == w * h) by (nonlinear_arith);
        }
    }
}

/// The normalized image coordinate of a jittered sample:
/// `(pixel + jitter) / (extent - 1)` in fixed point.
pub fn sample_coord(p: i32, jitter: i64, extent: i32) -> (x: i64)
    requires
        0 <= p < extent,
        3 <= extent <= 4096,
        0 <= jitter < 65536,
    ensures
        x == fxdiv(p as int * 65536 + jitter as int, (extent as int - 1) * 65536),
        0 <= x <= IMG_COORD_LIMIT,
{
    let num: i64 = (p as i64) * 65536 + jitter;
    let den: i64 = ((extent - 1) as i64) * 65536;
    proof {
        let numi = num as int;
        let deni = den as int;
        vstd::arithmetic::div_mod::lemma_div_pos_is_pos(numi * 65536, deni);
        lemma_tdiv_bound(numi * 65536, deni, 0x1000_0000_0000);
        assert(numi * 65536 < deni * 98305) by (nonlinear_arith)
            requires
                numi <= (extent as int) * 65536 - 1,
                deni == (extent as int - 1) * 65536,
                3 <= extent as int <= 4096,
        ;
        vstd::arithmetic::div_mod::lemma_multiply_divide_lt(numi * 65536, deni, 98305);
        assert(numi * 65536 <= 0x1000_0000_0000) by (nonlinear_arith)
            requires
                0 <= numi <= 0x1000_0000,
        ;
    }
    fx_div(num, den)
}

} // verus!
