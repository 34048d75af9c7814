//! Diffuse material: scatters toward the surface normal jittered by a
//! random unit vector, always tinting by its albedo.

use vstd::prelude::*;
use crate::material::{scatter_dir_ok, SCATTER_DIR_LIMIT};
use crate::ray::Ray;
use crate::sphere::{Hit, POS_LIMIT};
use crate::utils::{random_vector_in_unit_sphere, unit_sample, Sampler};
use crate::vector::{bounded, sq_len_v3, v3_add, v3_sub, Vector, V3, UNIT_LIMIT};

verus! {

/// Squared-length threshold below which a scatter direction counts as
/// degenerate (about 1/16 of a unit in each component).
pub const NEAR_ZERO_SQ: i64 = 256;

/// The diffuse scatter direction for a surface normal and a sampled unit
/// vector: their sum, or the normal alone when the sum is near zero.
pub open spec fn lambertian_dir(n: V3, rv: V3) -> V3 {
    let d = v3_add(n, rv);
    if sq_len_v3(d) < NEAR_ZERO_SQ {
        n
    } else {
        d
    }
}

#[derive(Clone, Copy, Debug, PartialEq, Eq, Structural)]
pub struct Lambertian {
    pub albedo: Vector,
}

impl Lambertian {
    pub fn new(albedo_color: Vector) -> (r: Lambertian)
        ensures
            r.albedo == albedo_color,
    {
        Lambertian { albedo: albedo_color }
    }

    /// Diffuse scatter: target the normal plus a random unit vector; if
    /// the resulting direction is degenerate, fall back to the normal
    /// itself. Always returns a scattered ray tinted by the albedo.
    pub fn scatter(&self, _ray: &Ray, hit: &Hit, s: &mut Sampler) -> (r: Option<(Ray, Vector)>)
        requires
            bounded(hit.p@, POS_LIMIT as int),
            bounded(hit.normal@, UNIT_LIMIT as int),
            sq_len_v3(hit.normal@) >= 1,
        ensures
            r is Some,
            r matches Some((sc, att)) ==> att == self.albedo && sc.origin == hit.p
                && scatter_dir_ok(sc.direction@),
            r matches Some((sc, att)) ==> exists|rv: V3|
                unit_sample(rv) && sc.direction@ == lambertian_dir(hit.normal@, rv),
    {
        let rv = random_vector_in_unit_sphere(s);
        let target = hit.p.add(hit.normal).add(rv);
        let mut direction = target.sub(hit.p);
        proof {
            assert(direction@ == v3_add(hit.normal@, rv@));
        }
        // Guard against a direction of (near) zero length after the
        // random jitter.
        let sq = direction.squared_length();
        if sq < NEAR_ZERO_SQ {
            direction = hit.normal;
        }
        let scattered = Ray::new(hit.p, direction);
        proof {
            assert(unit_sample(rv@) && scattered.direction@ == lambertian_dir(hit.normal@, rv@));
        }
        Some((scattered, self.albedo))
    }
}

} // verus!
