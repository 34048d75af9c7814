//! Mirror material: reflects the incoming direction about the surface
//! normal, absorbing rays that would reflect into the surface.

use vstd::prelude::*;
use crate::material::scatter_dir_ok;
use crate::ray::Ray;
use crate::sphere::{Hit, POS_LIMIT};
use crate::vector::{bounded, dot_v3, reflect_v3, sq_len_v3, unit_v3, Vector, UNIT_LIMIT};

verus! {

#[derive(Clone, Copy, Debug, PartialEq, Eq, Structural)]
pub struct Metal {
    pub albedo: Vector,
}

impl Metal {
    pub fn new(albedo_color: Vector) -> (r: Metal)
        ensures
            r.albedo == albedo_color,
    {
        Metal { albedo: albedo_color }
    }

    /// Mirror scatter: reflect and normalize the incoming direction.
    /// Returns the reflected ray exactly when the reflection leaves the
    /// surface on the outward side (positive dot with the normal); a
    /// reflection below the fixed-point resolution is absorbed.
    pub fn scatter(&self, ray: &Ray, hit: &Hit) -> (r: Option<(Ray, Vector)>)
        requires
            bounded(ray.direction@, 0x1_0000_0000),
            bounded(hit.p@, POS_LIMIT as int),
            bounded(hit.normal@, UNIT_LIMIT as int),
            sq_len_v3(hit.normal@) >= 1,
        ensures
            (r is Some) <==> (sq_len_v3(reflect_v3(ray.direction@, hit.normal@)) >= 1 && dot_v3(
                unit_v3(reflect_v3(ray.direction@, hit.normal@)),
                hit.normal@,
            ) > 0),
            r matches Some((sc, att)) ==> att == self.albedo && sc.origin == hit.p
                && sc.direction@ == unit_v3(reflect_v3(ray.direction@, hit.normal@))
                && scatter_dir_ok(sc.direction@),
    {
        let reflected = ray.direction.reflect(hit.normal);
        let sq = reflected.squared_length();
        if sq < 1 {
            return None;
        }
        let unit_r = reflected.to_unit_vector();
        let scattered = Ray::new(hit.p, unit_r);
        if scattered.direction.dot(hit.normal) > 0 {
            Some((scattered, self.albedo))
        } else {
            None
        }
    }
}

} // verus!
