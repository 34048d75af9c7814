//! Spheres and analytic ray-sphere intersection.
//!
//! The intersection test mirrors the classical quadratic: with `oc = o - c`,
//! `a = d.d`, `b = oc.d`, `cc = oc.oc - r^2` the discriminant is
//! `b^2 - a*cc`; a nonnegative discriminant gives the nearer root
//! `t = (-b - sqrt(disc)) / a`. A hit is accepted only above a small
//! epsilon (suppressing self-intersection) and within the representable
//! coordinate range.

use vstd::prelude::*;
use crate::fixed::{fxmul, isqrt, tdiv};
use crate::fixed::{fx_mul, isqrt_u128, lemma_isqrt_bounds, lemma_tdiv_bound, tdiv_i128};
use crate::material::{mat_wf, Material};
use crate::ray::Ray;
use crate::vector::{bounded, dot_v3, sq_len_v3, sumsq, unit_v3, v3_add, v3_neg, v3_scale, v3_sub};
use crate::vector::{lemma_dot_bound, lemma_prod_bound, lemma_sq_len_double, lemma_sq_len_shape};
use crate::vector::{lemma_unit_accuracy, lemma_unit_bounds, Vector, V3, UNIT_LIMIT, VEC_LIMIT};

verus! {

/// Positions (ray origins, sphere centers, hit points) stay within this
/// component bound.
pub const POS_LIMIT: i64 = 0x2_0000_0000;

/// Ray directions accepted by the intersection test stay within this
/// component bound.
pub const DIR_LIMIT: i64 = 0x4_0000_0000;

/// Largest accepted hit parameter: keeps the hit storable in an `i64`.
pub const T_LIMIT: i64 = 0x4000_0000_0000_0000;

/// Smallest accepted hit parameter (about 3.05e-4): suppresses
/// self-intersection of scattered rays at their own surface.
pub const HIT_EPSILON: i64 = 20;

/// Where and how a ray struck a sphere. The normal is unit length and
/// faces the incoming ray (front-face convention).
#[derive(Clone, Copy, Debug, PartialEq, Eq, Structural)]
pub struct Hit {
    pub t: i64,
    pub p: Vector,
    pub normal: Vector,
    pub material: Material,
}

/// Mathematical model of a `Hit`.
pub ghost struct HitM {
    pub t: int,
    pub p: V3,
    pub normal: V3,
    pub material: Material,
}

impl View for Hit {
    type V = HitM;

    open spec fn view(&self) -> HitM {
        HitM { t: self.t as int, p: self.p@, normal: self.normal@, material: self.material }
    }
}

#[derive(Clone, Copy, Debug, PartialEq, Eq, Structural)]
pub struct Sphere {
    pub center: Vector,
    pub radius: i64,
    pub material: Material,
}

/// A scene sphere: bounded center, positive bounded radius, well-formed
/// material.
pub open spec fn sphere_wf(s: Sphere) -> bool {
    &&& bounded(s.center@, 0x8000_0000)
    &&& 1 <= s.radius <= 0x4000_0000
    &&& mat_wf(s.material)
}

/// Rays accepted by the intersection test.
pub open spec fn ray_in_range(r: Ray) -> bool {
    &&& bounded(r.origin@, POS_LIMIT as int)
    &&& bounded(r.direction@, DIR_LIMIT as int)
}

/// Doubling a sub-unit vector until its squared length reaches one: the
/// direction is unchanged exactly, and at unit scale normalization
/// carries its tight accuracy bracket. Nine doublings always suffice for
/// a vector above the resolution floor.
pub open spec fn enlarged(v: V3, fuel: nat) -> V3
    decreases fuel,
{
    if fuel == 0 || sq_len_v3(v) >= 65536 {
        v
    } else {
        enlarged(v3_add(v, v), (fuel - 1) as nat)
    }
}

/// Powers of four, tracking the growth of the enlargement.
spec fn four_to(n: nat) -> int
    decreases n,
{
    if n == 0 {
        1
    } else {
        4 * four_to((n - 1) as nat)
    }
}

proof fn lemma_four_to_pos(n: nat)
    ensures
        four_to(n) >= 1,
    decreases n,
{
    if n > 0 {
        lemma_four_to_pos((n - 1) as nat);
    }
}

proof fn lemma_four_to_9()
    ensures
        four_to(9) == 262144,
{
    assert(four_to(0) == 1);
    assert(four_to(1) == 4);
    assert(four_to(2) == 16);
    assert(four_to(3) == 64);
    assert(four_to(4) == 256);
    assert(four_to(5) == 1024);
    assert(four_to(6) == 4096);
    assert(four_to(7) == 16384);
    assert(four_to(8) == 65536);
}

/// A doubled-up vector stays in range and its squared length grows by a
/// factor of four per doubling until it clears the unit threshold.
proof fn lemma_enlarged_props(v: V3, fuel: nat)
    requires
        sq_len_v3(v) >= 1,
        bounded(v, DIR_LIMIT as int),
    ensures
        bounded(enlarged(v, fuel), DIR_LIMIT as int),
        sq_len_v3(enlarged(v, fuel)) >= 1,
        sq_len_v3(enlarged(v, fuel)) >= 65536 || sq_len_v3(enlarged(v, fuel)) >= four_to(fuel)
            * sq_len_v3(v),
    decreases fuel,
{
    let e = enlarged(v, fuel);
    if fuel == 0 || sq_len_v3(v) >= 65536 {
        if sq_len_v3(v) < 65536 {
            assert(four_to(0) == 1);
            assert(1 * sq_len_v3(v) == sq_len_v3(v)) by (nonlinear_arith);
        }
    } else {
        let d = v3_add(v, v);
        lemma_sq_len_double(v);
        lemma_small_vector_comps(v);
        lemma_enlarged_props(d, (fuel - 1) as nat);
        if sq_len_v3(e) < 65536 {
            lemma_four_to_pos((fuel - 1) as nat);
            assert(sq_len_v3(e) >= four_to((fuel - 1) as nat) * sq_len_v3(d));
            assert(four_to(fuel) == 4 * four_to((fuel - 1) as nat));
            assert(four_to((fuel - 1) as nat) * sq_len_v3(d) >= (4 * four_to((fuel - 1) as nat))
                * sq_len_v3(v)) by (nonlinear_arith)
                requires
                    sq_len_v3(d) >= 4 * sq_len_v3(v),
                    four_to((fuel - 1) as nat) >= 1,
            ;
        }
    }
}

/// A vector of sub-unit squared length has components strictly inside
/// one unit, so doubling it stays far within the intersection bounds.
proof fn lemma_small_vector_comps(v: V3)
    requires
        sq_len_v3(v) < 65536,
    ensures
        bounded(v, 65535),
        bounded(v3_add(v, v), DIR_LIMIT as int),
{
    lemma_sq_len_shape(v);
    assert(v.x * v.x <= sumsq(v) && v.y * v.y <= sumsq(v) && v.z * v.z <= sumsq(v))
        by (nonlinear_arith)
        requires
            sumsq(v) == v.x * v.x + v.y * v.y + v.z * v.z,
    ;
    assert(bounded(v, 65535)) by (nonlinear_arith)
        requires
            v.x * v.x <= sumsq(v),
            v.y * v.y <= sumsq(v),
            v.z * v.z <= sumsq(v),
            sumsq(v) < (sq_len_v3(v) + 1) * 65536,
            sq_len_v3(v) < 65536,
    ;
}

/// The intersection discriminant `b^2 - a*cc` (scale 2^32).
pub open spec fn disc_of(s: Sphere, o: V3, d: V3) -> int {
    let oc = v3_sub(o, s.center@);
    let a = dot_v3(d, d);
    let b = dot_v3(oc, d);
    let cc = sq_len_v3(oc) - fxmul(s.radius as int, s.radius as int);
    b * b - a * cc
}

/// The exact outcome of the intersection test.
pub open spec fn intersect_spec(s: Sphere, o: V3, d: V3) -> Option<HitM> {
    let a = dot_v3(d, d);
    let oc = v3_sub(o, s.center@);
    let b = dot_v3(oc, d);
    let disc = disc_of(s, o, d);
    if a <= 0 || disc < 0 {
        None
    } else {
        let sd = isqrt(disc as nat) as int;
        let t = tdiv((-b - sd) * 65536, a);
        if !(HIT_EPSILON <= t <= T_LIMIT) {
            None
        } else {
            let p = v3_add(o, v3_scale(t, d));
            if !bounded(p, POS_LIMIT as int) {
                None
            } else {
                let om = v3_sub(p, s.center@);
                if sq_len_v3(om) < 1 {
                    None
                } else {
                    let n0 = unit_v3(enlarged(om, 9));
                    let n = if dot_v3(d, n0) < 0 {
                        n0
                    } else {
                        v3_neg(n0)
                    };
                    Some(HitM { t, p, normal: n, material: s.material })
                }
            }
        }
    }
}

/// An optional executable hit agrees with an optional hit model.
pub open spec fn hit_opt_matches(res: Option<Hit>, m: Option<HitM>) -> bool {
    match res {
        Some(h) => m == Some(h@),
        None => m is None,
    }
}

/// Bounds that every accepted hit satisfies: in particular the normal is
/// unit length within about 1.2e-4, at every radius the scene admits.
pub open spec fn hitm_wf(h: HitM) -> bool {
    &&& HIT_EPSILON as int <= h.t <= T_LIMIT as int
    &&& bounded(h.p, POS_LIMIT as int)
    &&& bounded(h.normal, UNIT_LIMIT as int)
    &&& 65524 <= sq_len_v3(h.normal) <= 65552
    &&& mat_wf(h.material)
}

/// Any hit the intersection produces is well formed and carries the
/// sphere's material; the normal is unit length within about 1.2e-4.
pub proof fn lemma_intersect_wf(s: Sphere, o: V3, d: V3)
    requires
        sphere_wf(s),
        bounded(o, POS_LIMIT as int),
        bounded(d, DIR_LIMIT as int),
        intersect_spec(s, o, d) is Some,
    ensures
        hitm_wf(intersect_spec(s, o, d).unwrap()),
        intersect_spec(s, o, d).unwrap().material == s.material,
{
    let h = intersect_spec(s, o, d).unwrap();
    let p = h.p;
    let om = v3_sub(p, s.center@);
    assert(bounded(om, DIR_LIMIT as int));
    assert(sq_len_v3(om) >= 1);
    lemma_enlarged_props(om, 9);
    lemma_four_to_9();
    let ome = enlarged(om, 9);
    assert(sq_len_v3(ome) >= 65536) by (nonlinear_arith)
        requires
            sq_len_v3(ome) >= 65536 || sq_len_v3(ome) >= 262144 * sq_len_v3(om),
            sq_len_v3(om) >= 1,
    ;
    lemma_unit_bounds(ome);
    lemma_unit_accuracy(ome);
    let n0 = unit_v3(ome);
    assert(sq_len_v3(v3_neg(n0)) == sq_len_v3(n0) && bounded(v3_neg(n0), UNIT_LIMIT as int))
        by (nonlinear_arith)
        requires
            bounded(n0, UNIT_LIMIT as int),
            sq_len_v3(n0) == tdiv(n0.x * n0.x + n0.y * n0.y + n0.z * n0.z, 65536),
            sq_len_v3(v3_neg(n0)) == tdiv(
                (-n0.x) * (-n0.x) + (-n0.y) * (-n0.y) + (-n0.z) * (-n0.z),
                65536,
            ),
            v3_neg(n0) == (V3 { x: -n0.x, y: -n0.y, z: -n0.z }),
    ;
}

/// For every ray and sphere: a negative discriminant yields no hit, and
/// any returned hit clears the epsilon guard on its parameter.
pub proof fn lemma_intersection_guarantees(s: Sphere, o: V3, d: V3)
    ensures
        disc_of(s, o, d) < 0 ==> intersect_spec(s, o, d) is None,
        intersect_spec(s, o, d) matches Some(h) ==> h.t >= HIT_EPSILON as int,
{
}

impl Sphere {
    pub fn new(pos: &Vector, r: i64, m: Material) -> (s: Sphere)
        ensures
            s.center == *pos,
            s.radius == r,
            s.material == m,
    {
        Sphere { center: Vector::new(pos.x(), pos.y(), pos.z()), radius: r, material: m }
    }

    /// The nearest acceptable intersection of `r` with this sphere, if any.
    pub fn ray_intersect(&self, r: &Ray) -> (res: Option<Hit>)
        requires
            sphere_wf(*self),
            ray_in_range(*r),
        ensures
            hit_opt_matches(res, intersect_spec(*self, r.origin@, r.direction@)),
    {
        let ghost og = r.origin@;
        let ghost dg = r.direction@;
        let oc = r.origin.sub(self.center);
        proof {
            assert(bounded(oc@, DIR_LIMIT as int));
            lemma_dot_bound(dg, dg, DIR_LIMIT as int, DIR_LIMIT as int);
            lemma_dot_bound(oc@, dg, DIR_LIMIT as int, DIR_LIMIT as int);
            lemma_dot_bound(oc@, oc@, DIR_LIMIT as int, DIR_LIMIT as int);
            assert((3 * 0x4_0000_0000 * 0x4_0000_0000) / 65536 == 0x30_0000_0000_0000)
                by (nonlinear_arith);
            lemma_prod_bound(self.radius as int, self.radius as int, 0x4000_0000, 0x4000_0000);
            lemma_tdiv_bound(
                (self.radius as int) * (self.radius as int),
                65536,
                (0x4000_0000 * 0x4000_0000) as int,
            );
            assert((0x4000_0000 * 0x4000_0000) / 65536 == 0x1000_0000_0000) by (nonlinear_arith);
        }
        let a = r.direction.dot(r.direction);
        let b = oc.dot(r.direction);
        let occ = oc.dot(oc);
        let rr = fx_mul(self.radius, self.radius);
        let cc = occ - rr;
        if a <= 0 {
            return None;
        }
        proof {
            lemma_prod_bound(b as int, b as int, 0x30_0000_0000_0000, 0x30_0000_0000_0000);
            lemma_prod_bound(a as int, cc as int, 0x30_0000_0000_0000, 0x31_0000_0000_0000);
        }
        let disc: i128 = (b as i128) * (b as i128) - (a as i128) * (cc as i128);
        if disc < 0 {
            return None;
        }
        let sd = isqrt_u128(disc as u128);
        proof {
            lemma_isqrt_bounds(disc as nat);
            assert((sd as int) <= 0x100_0000_0000_0000) by (nonlinear_arith)
                requires
                    (sd as int) * (sd as int) <= disc as int,
                    disc as int <= 0x2000_0000_0000_0000_0000_0000_0000,
                    (sd as int) >= 0,
            ;
        }
        let num: i128 = (-(b as i128) - (sd as i128)) * 65536;
        let t = tdiv_i128(num, a as i128);
        proof {
            lemma_tdiv_bound(num as int, a as int, (0x200_0000_0000_0000 * 65536) as int);
        }
        if t < HIT_EPSILON as i128 || t > T_LIMIT as i128 {
            return None;
        }
        proof {
            lemma_prod_bound(t as int, dg.x, T_LIMIT as int, DIR_LIMIT as int);
            lemma_prod_bound(t as int, dg.y, T_LIMIT as int, DIR_LIMIT as int);
            lemma_prod_bound(t as int, dg.z, T_LIMIT as int, DIR_LIMIT as int);
            lemma_tdiv_bound(t as int * dg.x, 65536, T_LIMIT as int * DIR_LIMIT as int);
            lemma_tdiv_bound(t as int * dg.y, 65536, T_LIMIT as int * DIR_LIMIT as int);
            lemma_tdiv_bound(t as int * dg.z, 65536, T_LIMIT as int * DIR_LIMIT as int);
        }
        let px: i128 = (r.origin.x as i128) + tdiv_i128(t * (r.direction.x as i128), 65536);
        let py: i128 = (r.origin.y as i128) + tdiv_i128(t * (r.direction.y as i128), 65536);
        let pz: i128 = (r.origin.z as i128) + tdiv_i128(t * (r.direction.z as i128), 65536);
        let lim: i128 = POS_LIMIT as i128;
        if px < -lim || px > lim || py < -lim || py > lim || pz < -lim || pz > lim {
            return None;
        }
        let p = Vector::new(px as i64, py as i64, pz as i64);
        proof {
            assert(p@ == v3_add(og, v3_scale(t as int, dg)));
        }
        let mut om = p.sub(self.center);
        let mut sqn = om.squared_length();
        if sqn < 1 {
            return None;
        }
        let ghost om0 = om@;
        // Lift a sub-unit offset to unit scale by doubling: the direction
        // is unchanged and the normalization below becomes tight.
        let mut fuel: u32 = 9;
        while fuel > 0 && sqn < 65536
            invariant
                sqn == sq_len_v3(om@),
                sqn >= 1,
                bounded(om@, DIR_LIMIT as int),
                fuel <= 9,
                sq_len_v3(om0) >= 1,
                bounded(om0, DIR_LIMIT as int),
                enlarged(om0, 9) == enlarged(om@, fuel as nat),
            decreases fuel,
        {
            proof {
                lemma_small_vector_comps(om@);
                lemma_sq_len_double(om@);
            }
            let ghost before = om@;
            om = om.add(om);
            sqn = om.squared_length();
            fuel = fuel - 1;
            proof {
                assert(enlarged(before, (fuel + 1) as nat) == enlarged(om@, fuel as nat));
            }
        }
        proof {
            assert(om@ == enlarged(om@, fuel as nat));
            assert(om@ == enlarged(om0, 9));
            lemma_enlarged_props(om0, 9);
            lemma_four_to_9();
            assert(sq_len_v3(om@) >= 65536) by (nonlinear_arith)
                requires
                    sq_len_v3(om@) >= 65536 || sq_len_v3(om@) >= 262144 * sq_len_v3(om0),
                    sq_len_v3(om0) >= 1,
            ;
        }
        let n0 = om.to_unit_vector();
        let normal = if r.direction.dot(n0) < 0 {
            n0
        } else {
            n0.neg()
        };
        Some(Hit { t: t as i64, p, normal, material: self.material })
    }
}

} // verus!
