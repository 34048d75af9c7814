//! The camera: an orthonormal-ish view basis built from a position, a
//! target and an up vector, plus viewport extents scaled to the focus
//! distance. Ray generation jitters the origin over a lens disk for depth
//! of field; a zero lens radius degenerates to an ideal pinhole camera.
//!
//! The vertical field of view enters as the fixed-point tangent of half
//! the angle (the only transcendental step, left to the caller).

use vstd::prelude::*;
use crate::fixed::{absi, fxdiv, fxmul, tdiv};
use crate::fixed::{fx_mul, lemma_tdiv_bound};
use crate::sphere::POS_LIMIT;
use crate::utils::{random_vector_in_unit_sphere, unit_sample, Sampler};
use crate::vector::{bounded, cross_v3, dot_v3, sq_len_v3, unit_v3, v3_add, v3_divs, v3_scale};
use crate::vector::{lemma_cross_bound, lemma_cross_near_unit, lemma_cross_orthogonal};
use crate::vector::{lemma_prod_bound, lemma_unit_keeps_orthogonality};
use crate::vector::{v3_sub, Vector, V3, UNIT_LIMIT};

verus! {

/// Bound on camera positions (look-from and look-at points).
pub const LOOK_LIMIT: i64 = 0x4000_0000;

/// Largest accepted normalized image coordinate (1.5 in fixed point;
/// jittered sample coordinates stay at or below this).
pub const IMG_COORD_LIMIT: i64 = 0x18000;

#[derive(Clone, Copy, Debug)]
pub struct Camera {
    pub origin: Vector,
    pub lower_left_corner: Vector,
    pub horizontal: Vector,
    pub vertical: Vector,
    pub cu: Vector,
    pub cv: Vector,
    pub lens_radius: i64,
}

/// The view direction basis vector `w`, from target toward the camera.
pub open spec fn cam_w_spec(lookfrom: V3, lookat: V3) -> V3 {
    unit_v3(v3_sub(lookfrom, lookat))
}

/// The horizontal basis vector `u`.
pub open spec fn cam_u_spec(lookfrom: V3, lookat: V3, vup: V3) -> V3 {
    unit_v3(cross_v3(vup, cam_w_spec(lookfrom, lookat)))
}

/// The vertical basis vector `v`.
pub open spec fn cam_v_spec(lookfrom: V3, lookat: V3, vup: V3) -> V3 {
    cross_v3(cam_w_spec(lookfrom, lookat), cam_u_spec(lookfrom, lookat, vup))
}

/// Field bounds every constructed camera satisfies, and which ray
/// generation relies on.
pub open spec fn cam_wf(c: Camera) -> bool {
    &&& bounded(c.origin@, LOOK_LIMIT as int)
    &&& bounded(c.lower_left_corner@, 0x8000_0000)
    &&& bounded(c.horizontal@, 0x2000_0000)
    &&& bounded(c.vertical@, 0x2000_0000)
    &&& bounded(c.cu@, UNIT_LIMIT as int)
    &&& bounded(c.cv@, 0x80000)
    &&& 0 <= c.lens_radius <= 0x80000
}

/// The lens offset for a sampled direction `rv`.
pub open spec fn cam_offset(c: Camera, rv: V3) -> V3 {
    v3_add(
        v3_scale(fxmul(c.lens_radius as int, rv.x), c.cu@),
        v3_scale(fxmul(c.lens_radius as int, rv.y), c.cv@),
    )
}

/// The un-normalized ray direction for image coordinates `(x, y)` and a
/// lens offset.
pub open spec fn cam_dir(c: Camera, x: int, y: int, off: V3) -> V3 {
    v3_sub(
        v3_sub(
            v3_add(
                v3_add(c.lower_left_corner@, v3_scale(x, c.horizontal@)),
                v3_scale(y, c.vertical@),
            ),
            c.origin@,
        ),
        off,
    )
}

impl Camera {
    /// Build the camera. `tan_half_vfov` is tan(vertical fov / 2) in fixed
    /// point; the caller rules out a degenerate basis (camera on its
    /// target, or an up vector parallel to the view direction).
    pub fn new(
        lookfrom: Vector,
        lookat: Vector,
        vup: Vector,
        tan_half_vfov: i64,
        aspect_ratio: i64,
        aperture: i64,
        focus_dist: i64,
    ) -> (c: Camera)
        requires
            bounded(lookfrom@, LOOK_LIMIT as int),
            bounded(lookat@, LOOK_LIMIT as int),
            bounded(vup@, 0x40000),
            0 <= tan_half_vfov <= 0x40000,
            1 <= aspect_ratio <= 0x40000,
            0 <= aperture <= 0x10_0000,
            1 <= focus_dist <= 0x80_0000,
            sq_len_v3(v3_sub(lookfrom@, lookat@)) >= 1,
            sq_len_v3(cross_v3(vup@, cam_w_spec(lookfrom@, lookat@))) >= 1,
        ensures
            cam_wf(c),
            c.origin == lookfrom,
            c.cu@ == cam_u_spec(lookfrom@, lookat@, vup@),
            c.cv@ == cam_v_spec(lookfrom@, lookat@, vup@),
            c.horizontal@ == v3_scale(
                fxmul(
                    focus_dist as int,
                    fxmul(aspect_ratio as int, 2 * tan_half_vfov as int),
                ),
                cam_u_spec(lookfrom@, lookat@, vup@),
            ),
            c.vertical@ == v3_scale(
                fxmul(focus_dist as int, 2 * tan_half_vfov as int),
                cam_v_spec(lookfrom@, lookat@, vup@),
            ),
            c.lower_left_corner@ == v3_sub(
                v3_sub(
                    v3_sub(lookfrom@, v3_divs(c.horizontal@, 131072)),
                    v3_divs(c.vertical@, 131072),
                ),
                v3_scale(focus_dist as int, cam_w_spec(lookfrom@, lookat@)),
            ),
            c.lens_radius == aperture as int / 2,
            sq_len_v3(v3_sub(lookfrom@, lookat@)) >= 65536 ==> 65524 <= sq_len_v3(
                cam_w_spec(lookfrom@, lookat@),
            ) <= 65552,
            sq_len_v3(cross_v3(vup@, cam_w_spec(lookfrom@, lookat@))) >= 65536 ==> 65524
                <= sq_len_v3(c.cu@) <= 65552,
            absi(dot_v3(c.cv@, cam_w_spec(lookfrom@, lookat@))) <= 6,
            absi(dot_v3(c.cv@, c.cu@)) <= 6,
            sq_len_v3(cross_v3(vup@, cam_w_spec(lookfrom@, lookat@))) >= 65536 ==> absi(
                dot_v3(c.cu@, cam_w_spec(lookfrom@, lookat@)),
            ) <= 13,
            (sq_len_v3(v3_sub(lookfrom@, lookat@)) >= 65536 && sq_len_v3(
                cross_v3(vup@, cam_w_spec(lookfrom@, lookat@)),
            ) >= 65536) ==> 65499 <= sq_len_v3(c.cv@) <= 65583,
    {
        let viewport_height: i64 = 2 * tan_half_vfov;
        proof {
            lemma_prod_bound(aspect_ratio as int, viewport_height as int, 0x40000, 0x80000);
            lemma_tdiv_bound(
                aspect_ratio as int * viewport_height as int,
                65536,
                (0x40000 * 0x80000) as int,
            );
            assert(((0x40000 * 0x80000) as int) / 65536 == 0x20_0000) by (nonlinear_arith);
        }
        let viewport_width: i64 = fx_mul(aspect_ratio, viewport_height);

        let cw = lookfrom.sub(lookat).to_unit_vector();
        proof {
            lemma_cross_bound(vup@, cw@, 0x40000, UNIT_LIMIT as int);
            assert((2 * 0x40000 * 131072) / 65536 == 0x10_0000) by (nonlinear_arith);
        }
        let cu = vup.cross(cw).to_unit_vector();
        proof {
            lemma_cross_bound(cw@, cu@, UNIT_LIMIT as int, UNIT_LIMIT as int);
            assert((2 * 131072 * 131072) / 65536 == 0x80000) by (nonlinear_arith);
            lemma_cross_orthogonal(cw@, cu@, UNIT_LIMIT as int, UNIT_LIMIT as int);
            assert((3 * 131072) / 65536 == 6) by (nonlinear_arith);
            if sq_len_v3(cross_v3(vup@, cw@)) >= 65536 {
                lemma_cross_orthogonal(vup@, cw@, 0x40000, UNIT_LIMIT as int);
                lemma_unit_keeps_orthogonality(cross_v3(vup@, cw@), cw@, 6);
            }
        }
        let cv = cw.cross(cu);
        proof {
            if sq_len_v3(v3_sub(lookfrom@, lookat@)) >= 65536 && sq_len_v3(
                cross_v3(vup@, cw@),
            ) >= 65536 {
                assert(cw@.x * cu@.x + cw@.y * cu@.y + cw@.z * cu@.z == cu@.x * cw@.x + cu@.y
                    * cw@.y + cu@.z * cw@.z) by (nonlinear_arith);
                assert(dot_v3(cw@, cu@) == dot_v3(cu@, cw@));
                lemma_cross_near_unit(cw@, cu@);
            }
        }

        proof {
            lemma_prod_bound(focus_dist as int, viewport_width as int, 0x80_0000, 0x20_0000);
            lemma_tdiv_bound(
                focus_dist as int * viewport_width as int,
                65536,
                (0x80_0000 * 0x20_0000) as int,
            );
            lemma_prod_bound(focus_dist as int, viewport_height as int, 0x80_0000, 0x80000);
            lemma_tdiv_bound(
                focus_dist as int * viewport_height as int,
                65536,
                (0x80_0000 * 0x80000) as int,
            );
            assert(((0x80_0000 * 0x20_0000) as int) / 65536 == 0x1000_0000) by (nonlinear_arith);
            assert(((0x80_0000 * 0x80000) as int) / 65536 == 0x400_0000) by (nonlinear_arith);
        }
        let fvw = fx_mul(focus_dist, viewport_width);
        let fvh = fx_mul(focus_dist, viewport_height);

        proof {
            lemma_scaled_bound(fvw as int, cu@, 0x1000_0000, UNIT_LIMIT as int);
            assert((0x1000_0000 * 131072) / 65536 == 0x2000_0000) by (nonlinear_arith);
            lemma_scaled_bound(fvh as int, cv@, 0x400_0000, 0x80000);
            assert((0x400_0000 * 0x80000) / 65536 == 0x2000_0000) by (nonlinear_arith);
        }
        let h = cu.scale(fvw);
        let v = cv.scale(fvh);

        proof {
            lemma_half_bound(h@, 0x2000_0000);
            lemma_half_bound(v@, 0x2000_0000);
            lemma_scaled_bound(focus_dist as int, cw@, 0x80_0000, UNIT_LIMIT as int);
            assert((0x80_0000 * 131072) / 65536 == 0x100_0000) by (nonlinear_arith);
        }
        let llc = lookfrom.sub(h.div_s(131072)).sub(v.div_s(131072)).sub(cw.scale(focus_dist));

        let lens_radius = ((aperture as u64) / 2) as i64;

        Camera {
            origin: lookfrom,
            lower_left_corner: llc,
            horizontal: h,
            vertical: v,
            cu,
            cv,
            lens_radius,
        }
    }

    /// The origin and (un-normalized) direction of the camera ray for
    /// normalized image coordinates `(x, y)`, with the origin jittered
    /// over the lens disk. With a zero lens radius this is exactly the
    /// deterministic pinhole ray.
    pub fn get_pixel_direction(&self, x: i64, y: i64, s: &mut Sampler) -> (r: (Vector, Vector))
        requires
            cam_wf(*self),
            0 <= x <= IMG_COORD_LIMIT,
            0 <= y <= IMG_COORD_LIMIT,
        ensures
            bounded(r.0@, POS_LIMIT as int),
            bounded(r.1@, 0x2_0000_0000),
            exists|rv: V3|
                unit_sample(rv) && r.0@ == v3_add(self.origin@, cam_offset(*self, rv)) && r.1@
                    == cam_dir(*self, x as int, y as int, cam_offset(*self, rv)),
            self.lens_radius == 0 ==> r.0@ == self.origin@ && r.1@ == cam_dir(
                *self,
                x as int,
                y as int,
                (V3 { x: 0, y: 0, z: 0 }),
            ),
    {
        let rv = random_vector_in_unit_sphere(s);
        proof {
            lemma_prod_bound(self.lens_radius as int, rv@.x, 0x80000, UNIT_LIMIT as int);
            lemma_prod_bound(self.lens_radius as int, rv@.y, 0x80000, UNIT_LIMIT as int);
            lemma_prod_bound(self.lens_radius as int, rv@.z, 0x80000, UNIT_LIMIT as int);
            crate::fixed::lemma_tdiv_bound(
                self.lens_radius as int * rv@.x,
                65536,
                (0x80000 * 131072) as int,
            );
            crate::fixed::lemma_tdiv_bound(
                self.lens_radius as int * rv@.y,
                65536,
                (0x80000 * 131072) as int,
            );
            crate::fixed::lemma_tdiv_bound(
                self.lens_radius as int * rv@.z,
                65536,
                (0x80000 * 131072) as int,
            );
            assert(((0x80000 * 131072) as int) / 65536 == 0x10_0000) by (nonlinear_arith);
        }
        let rd = rv.scale(self.lens_radius);
        proof {
            lemma_scaled_bound(rd@.x, self.cu@, 0x10_0000, UNIT_LIMIT as int);
            lemma_scaled_bound(rd@.y, self.cv@, 0x10_0000, 0x80000);
            assert((0x10_0000 * 131072) / 65536 == 0x20_0000) by (nonlinear_arith);
            assert((0x10_0000 * 0x80000) / 65536 == 0x80_0000) by (nonlinear_arith);
        }
        let offset = self.cu.scale(rd.x()).add(self.cv.scale(rd.y()));
        let origin = self.origin.add(offset);
        proof {
            lemma_scaled_bound(x as int, self.horizontal@, IMG_COORD_LIMIT as int, 0x2000_0000);
            lemma_scaled_bound(y as int, self.vertical@, IMG_COORD_LIMIT as int, 0x2000_0000);
            assert((0x18000 * 0x2000_0000) / 65536 == 0x3000_0000) by (nonlinear_arith);
        }
        let direction = self
            .lower_left_corner
            .add(self.horizontal.scale(x))
            .add(self.vertical.scale(y))
            .sub(self.origin)
            .sub(offset);
        proof {
            assert(offset@ == cam_offset(*self, rv@));
            assert(unit_sample(rv@) && origin@ == v3_add(
                self.origin@,
                cam_offset(*self, rv@),
            ) && direction@ == cam_dir(*self, x as int, y as int, cam_offset(*self, rv@)));
            if self.lens_radius == 0 {
                lemma_fxmul_zero(rv@.x);
                lemma_fxmul_zero(rv@.y);
                lemma_fxmul_zero(rv@.z);
                lemma_fxmul_zero(self.cu@.x);
                lemma_fxmul_zero(self.cu@.y);
                lemma_fxmul_zero(self.cu@.z);
                lemma_fxmul_zero(self.cv@.x);
                lemma_fxmul_zero(self.cv@.y);
                lemma_fxmul_zero(self.cv@.z);
                assert(offset@ == (V3 { x: 0, y: 0, z: 0 }));
            }
        }
        (origin, direction)
    }
}

/// A scalar bounded by `ms` times a vector bounded by `mv` gives
/// components bounded by `ms * mv / 65536`, all within `i64` range.
proof fn lemma_scaled_bound(s: int, v: V3, ms: int, mv: int)
    requires
        -ms <= s <= ms,
        bounded(v, mv),
        0 <= ms <= 0x1_0000_0000,
        0 <= mv <= 0x1_0000_0000,
    ensures
        bounded(v3_scale(s, v), (ms * mv) / 65536),
        -0x7fff_ffff_ffff_ffff <= fxmul(s, v.x) <= 0x7fff_ffff_ffff_ffff,
        -0x7fff_ffff_ffff_ffff <= fxmul(s, v.y) <= 0x7fff_ffff_ffff_ffff,
        -0x7fff_ffff_ffff_ffff <= fxmul(s, v.z) <= 0x7fff_ffff_ffff_ffff,
{
    lemma_prod_bound(s, v.x, ms, mv);
    lemma_prod_bound(s, v.y, ms, mv);
    lemma_prod_bound(s, v.z, ms, mv);
    lemma_tdiv_bound(s * v.x, 65536, ms * mv);
    lemma_tdiv_bound(s * v.y, 65536, ms * mv);
    lemma_tdiv_bound(s * v.z, 65536, ms * mv);
    assert((ms * mv) / 65536 <= 0x1_0000_0000_0000) by (nonlinear_arith)
        requires
            0 <= ms <= 0x1_0000_0000,
            0 <= mv <= 0x1_0000_0000,
    ;
}

/// Halving a bounded vector keeps it bounded and in `i64` range.
proof fn lemma_half_bound(v: V3, mv: int)
    requires
        bounded(v, mv),
        0 <= mv <= 0x7fff_ffff_ffff_ffff,
    ensures
        bounded(v3_divs(v, 131072), mv),
        -0x7fff_ffff_ffff_ffff <= fxdiv(v.x, 131072) <= 0x7fff_ffff_ffff_ffff,
        -0x7fff_ffff_ffff_ffff <= fxdiv(v.y, 131072) <= 0x7fff_ffff_ffff_ffff,
        -0x7fff_ffff_ffff_ffff <= fxdiv(v.z, 131072) <= 0x7fff_ffff_ffff_ffff,
{
    lemma_prod_bound(v.x, 65536, mv, 65536);
    lemma_prod_bound(v.y, 65536, mv, 65536);
    lemma_prod_bound(v.z, 65536, mv, 65536);
    lemma_tdiv_bound(v.x * 65536, 131072, mv * 65536);
    lemma_tdiv_bound(v.y * 65536, 131072, mv * 65536);
    lemma_tdiv_bound(v.z * 65536, 131072, mv * 65536);
    assert((mv * 65536) / 131072 <= mv) by (nonlinear_arith)
        requires
            0 <= mv,
    ;
}

/// Fixed-point multiplication by a zero scalar gives zero.
proof fn lemma_fxmul_zero(b: int)
    ensures
        fxmul(0, b) == 0,
{
    vstd::arithmetic::div_mod::lemma_div_of0(65536);
    assert(0 * b == 0) by (nonlinear_arith);
}

} // verus!
