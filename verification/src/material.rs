//! The closed set of surface materials and their single capability:
//! `scatter`, which decides whether and how light continues after a hit.

use vstd::prelude::*;
use crate::materials::lambertian::{lambertian_dir, Lambertian};
use crate::materials::metal::Metal;
use crate::ray::Ray;
use crate::sphere::{Hit, POS_LIMIT};
use crate::utils::{unit_sample, Sampler};
use crate::vector::{bounded, dot_v3, reflect_v3, sq_len_v3, unit_v3};
use crate::vector::{Vector, V3, UNIT_LIMIT};

verus! {

/// Bound on the components of any scattered direction.
pub const SCATTER_DIR_LIMIT: i64 = 0x40000;

#[derive(Clone, Copy, Debug, PartialEq, Eq, Structural)]
pub enum Material {
    Lambertian(Lambertian),
    Metal(Metal),
}

/// The fractional reflectance of a material, per color channel.
pub open spec fn albedo_of(m: Material) -> V3 {
    match m {
        Material::Lambertian(l) => l.albedo@,
        Material::Metal(mm) => mm.albedo@,
    }
}

/// A well-formed material: each albedo channel lies in [0, 1].
pub open spec fn mat_wf(m: Material) -> bool {
    let a = albedo_of(m);
    &&& 0 <= a.x <= 65536
    &&& 0 <= a.y <= 65536
    &&& 0 <= a.z <= 65536
}

/// Every scattered ray's direction is bounded and normalizable.
pub open spec fn scatter_dir_ok(d: V3) -> bool {
    &&& bounded(d, SCATTER_DIR_LIMIT as int)
    &&& sq_len_v3(d) >= 1
}

impl Material {
    /// Dispatch `scatter` over the closed material set.
    pub fn scatter(&self, ray: &Ray, hit: &Hit, s: &mut Sampler) -> (r: Option<(Ray, Vector)>)
        requires
            bounded(ray.direction@, 0x1_0000_0000),
            bounded(hit.p@, POS_LIMIT as int),
            bounded(hit.normal@, UNIT_LIMIT as int),
            sq_len_v3(hit.normal@) >= 1,
        ensures
            self matches Material::Lambertian(_) ==> r is Some,
            r matches Some((sc, att)) ==> att@ == albedo_of(*self) && sc.origin == hit.p
                && scatter_dir_ok(sc.direction@),
            self matches Material::Lambertian(_) ==> (r matches Some((sc, att)) ==> exists|rv: V3|
                unit_sample(rv) && sc.direction@ == lambertian_dir(hit.normal@, rv)),
            self matches Material::Metal(_) ==> ((r is Some) <==> (sq_len_v3(
                reflect_v3(ray.direction@, hit.normal@),
            ) >= 1 && dot_v3(unit_v3(reflect_v3(ray.direction@, hit.normal@)), hit.normal@) > 0)),
            self matches Material::Metal(_) ==> (r matches Some((sc, att)) ==> sc.direction@
                == unit_v3(reflect_v3(ray.direction@, hit.normal@))),
    {
        match self {
            Material::Lambertian(l) => l.scatter(ray, hit, s),
            Material::Metal(m) => m.scatter(ray, hit),
        }
    }
}

} // verus!
