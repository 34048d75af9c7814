//! Rays: an origin and a direction, evaluated as `origin + t * direction`.

use vstd::prelude::*;
use crate::fixed::fxmul;
use crate::vector::{bounded, sq_len_v3, unit_v3, v3_add, v3_scale, v3_sub};
use crate::vector::{Vector, V3, UNIT_LIMIT, VEC_LIMIT};

verus! {

#[derive(Clone, Copy, Debug, PartialEq, Eq, Structural)]
pub struct Ray {
    pub origin: Vector,
    pub direction: Vector,
}

/// The point at parameter `t` along the ray.
pub open spec fn ray_at(r: Ray, t: int) -> V3 {
    v3_add(r.origin@, v3_scale(t, r.direction@))
}

impl Ray {
    pub fn new(o: Vector, d: Vector) -> (r: Ray)
        ensures
            r.origin == o,
            r.direction == d,
    {
        Ray { origin: o, direction: d }
    }

    /// Evaluate the ray at parameter `p`.
    pub fn line_to_p(&self, p: i64) -> (r: Vector)
        requires
            -0x7fff_ffff_ffff_ffff <= fxmul(p as int, self.direction@.x) <= 0x7fff_ffff_ffff_ffff,
            -0x7fff_ffff_ffff_ffff <= fxmul(p as int, self.direction@.y) <= 0x7fff_ffff_ffff_ffff,
            -0x7fff_ffff_ffff_ffff <= fxmul(p as int, self.direction@.z) <= 0x7fff_ffff_ffff_ffff,
            bounded(ray_at(*self, p as int), 0x7fff_ffff_ffff_ffff),
        ensures
            r@ == ray_at(*self, p as int),
    {
        self.origin.add(self.direction.scale(p))
    }
}

/// The ray from `origin` toward `destination`, with normalized direction.
pub fn get_ray(origin: Vector, destination: Vector) -> (r: Ray)
    requires
        bounded(v3_sub(destination@, origin@), VEC_LIMIT as int),
        sq_len_v3(v3_sub(destination@, origin@)) >= 1,
    ensures
        r.origin == origin,
        r.direction@ == unit_v3(v3_sub(destination@, origin@)),
        bounded(r.direction@, UNIT_LIMIT as int),
        sq_len_v3(r.direction@) >= 65524,
{
    let d = destination.sub(origin);
    Ray::new(origin, d.to_unit_vector())
}

} // verus!
