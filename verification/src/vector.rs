//! 3-component fixed-point vector used both for points/directions in space
//! and for RGB colors in [0, 1]. The mathematical model of a `Vector` is the
//! ghost triple `V3` of unbounded integers; every operation's result is
//! pinned to a spec function over that model.

use vstd::prelude::*;
use crate::fixed::{absi, fxdiv, fxmul, fxsqrt, isqrt, tdiv};
use crate::fixed::{fx_mul, fx_sqrt, lemma_isqrt_bounds, lemma_tdiv_bound, tdiv_i128};

verus! {

/// Largest component magnitude accepted by the quadratic-form operations
/// (dot, cross, squared length): keeps their exact results inside `i64`.
pub const VEC_LIMIT: i64 = 0x40_0000_0000;

/// Bound on the components of any normalized vector (2.0 in fixed point;
/// truncation can push a unit component slightly above 1.0).
pub const UNIT_LIMIT: i64 = 131072;

/// Mathematical model of a `Vector`: three unbounded integers, each in
/// 16.16 fixed-point reading.
pub ghost struct V3 {
    pub x: int,
    pub y: int,
    pub z: int,
}

#[derive(Clone, Copy, Debug, PartialEq, Eq, Structural)]
pub struct Vector {
    pub x: i64,
    pub y: i64,
    pub z: i64,
}

impl View for Vector {
    type V = V3;

    open spec fn view(&self) -> V3 {
        V3 { x: self.x as int, y: self.y as int, z: self.z as int }
    }
}

/// All three components within `[-m, m]`.
pub open spec fn bounded(v: V3, m: int) -> bool {
    &&& -m <= v.x <= m
    &&& -m <= v.y <= m
    &&& -m <= v.z <= m
}

pub open spec fn v3_add(a: V3, b: V3) -> V3 {
    V3 { x: a.x + b.x, y: a.y + b.y, z: a.z + b.z }
}

pub open spec fn v3_sub(a: V3, b: V3) -> V3 {
    V3 { x: a.x - b.x, y: a.y - b.y, z: a.z - b.z }
}

pub open spec fn v3_neg(a: V3) -> V3 {
    V3 { x: -a.x, y: -a.y, z: -a.z }
}

/// Componentwise fixed-point product (color tinting).
pub open spec fn v3_mul(a: V3, b: V3) -> V3 {
    V3 { x: fxmul(a.x, b.x), y: fxmul(a.y, b.y), z: fxmul(a.z, b.z) }
}

/// Scalar fixed-point multiple.
pub open spec fn v3_scale(s: int, a: V3) -> V3 {
    V3 { x: fxmul(s, a.x), y: fxmul(s, a.y), z: fxmul(s, a.z) }
}

/// Componentwise fixed-point division by a scalar.
pub open spec fn v3_divs(a: V3, s: int) -> V3 {
    V3 { x: fxdiv(a.x, s), y: fxdiv(a.y, s), z: fxdiv(a.z, s) }
}

/// Sum of the exact squares of the components (scale 2^32, no truncation).
pub open spec fn sumsq(a: V3) -> int {
    a.x * a.x + a.y * a.y + a.z * a.z
}

/// Fixed-point dot product: one truncation after the exact sum of products.
pub open spec fn dot_v3(a: V3, b: V3) -> int {
    tdiv(a.x * b.x + a.y * b.y + a.z * b.z, 65536)
}

/// Fixed-point cross product, component formulas as in the dot product.
pub open spec fn cross_v3(a: V3, b: V3) -> V3 {
    V3 {
        x: tdiv(a.y * b.z - a.z * b.y, 65536),
        y: -tdiv(a.x * b.z - a.z * b.x, 65536),
        z: tdiv(a.x * b.y - a.y * b.x, 65536),
    }
}

pub open spec fn sq_len_v3(a: V3) -> int {
    dot_v3(a, a)
}

pub open spec fn len_v3(a: V3) -> int {
    fxsqrt(sq_len_v3(a))
}

/// Normalization: componentwise division by the fixed-point length.
pub open spec fn unit_v3(a: V3) -> V3 {
    v3_divs(a, len_v3(a))
}

/// Mirror reflection of a direction about a surface normal:
/// `d - 2 * dot(d, n) * n`.
pub open spec fn reflect_v3(d: V3, n: V3) -> V3 {
    v3_sub(d, v3_scale(2 * dot_v3(d, n), n))
}

/// The exact (untruncated) dot product of two vectors, at scale 2^32.
pub open spec fn dot_exact(a: V3, b: V3) -> int {
    a.x * b.x + a.y * b.y + a.z * b.z
}

/// Mirror reflection with exact products, cleared of denominators: the
/// reflection of `d` about `n` scaled through by `|n|^2`.
pub open spec fn reflect_exact(d: V3, n: V3) -> V3 {
    V3 {
        x: sumsq(n) * d.x - 2 * dot_exact(d, n) * n.x,
        y: sumsq(n) * d.y - 2 * dot_exact(d, n) * n.y,
        z: sumsq(n) * d.z - 2 * dot_exact(d, n) * n.z,
    }
}

/// 8-bit quantization of a color channel: clamp to [0, 1), scale by
/// 255.999 and truncate.
pub open spec fn quantize_spec(c: int) -> int {
    if c < 0 {
        0
    } else if c >= 65536 {
        255
    } else {
        (c * 255999) / 65536000
    }
}

impl Vector {
    pub fn new(x: i64, y: i64, z: i64) -> (r: Vector)
        ensures
            r@ == (V3 { x: x as int, y: y as int, z: z as int }),
    {
        Vector { x, y, z }
    }

    pub fn x(&self) -> (r: i64)
        ensures
            r == self@.x,
    {
        self.x
    }

    pub fn y(&self) -> (r: i64)
        ensures
            r == self@.y,
    {
        self.y
    }

    pub fn z(&self) -> (r: i64)
        ensures
            r == self@.z,
    {
        self.z
    }

    pub fn neg(&self) -> (r: Vector)
        requires
            bounded(self@, 0x7fff_ffff_ffff_ffff),
        ensures
            r@ == v3_neg(self@),
    {
        Vector { x: -self.x, y: -self.y, z: -self.z }
    }

    pub fn add(&self, other: Vector) -> (r: Vector)
        requires
            bounded(v3_add(self@, other@), 0x7fff_ffff_ffff_ffff),
        ensures
            r@ == v3_add(self@, other@),
    {
        Vector { x: self.x + other.x, y: self.y + other.y, z: self.z + other.z }
    }

    pub fn sub(&self, other: Vector) -> (r: Vector)
        requires
            bounded(v3_sub(self@, other@), 0x7fff_ffff_ffff_ffff),
        ensures
            r@ == v3_sub(self@, other@),
    {
        Vector { x: self.x - other.x, y: self.y - other.y, z: self.z - other.z }
    }

    /// Componentwise product, used to tint a color by an albedo.
    pub fn mul(&self, other: Vector) -> (r: Vector)
        requires
            bounded(self@, VEC_LIMIT as int),
            bounded(other@, VEC_LIMIT as int),
        ensures
            r@ == v3_mul(self@, other@),
    {
        proof {
            lemma_prod_in_range(self@.x, other@.x, VEC_LIMIT as int);
            lemma_prod_in_range(self@.y, other@.y, VEC_LIMIT as int);
            lemma_prod_in_range(self@.z, other@.z, VEC_LIMIT as int);
        }
        Vector {
            x: fx_mul(self.x, other.x),
            y: fx_mul(self.y, other.y),
            z: fx_mul(self.z, other.z),
        }
    }

    /// Scalar multiple `s * v` in fixed point.
    pub fn scale(&self, s: i64) -> (r: Vector)
        requires
            -0x7fff_ffff_ffff_ffff <= fxmul(s as int, self@.x) <= 0x7fff_ffff_ffff_ffff,
            -0x7fff_ffff_ffff_ffff <= fxmul(s as int, self@.y) <= 0x7fff_ffff_ffff_ffff,
            -0x7fff_ffff_ffff_ffff <= fxmul(s as int, self@.z) <= 0x7fff_ffff_ffff_ffff,
        ensures
            r@ == v3_scale(s as int, self@),
    {
        Vector { x: fx_mul(s, self.x), y: fx_mul(s, self.y), z: fx_mul(s, self.z) }
    }

    /// Componentwise division by a scalar.
    pub fn div_s(&self, s: i64) -> (r: Vector)
        requires
            s != 0,
            -0x7fff_ffff_ffff_ffff <= fxdiv(self@.x, s as int) <= 0x7fff_ffff_ffff_ffff,
            -0x7fff_ffff_ffff_ffff <= fxdiv(self@.y, s as int) <= 0x7fff_ffff_ffff_ffff,
            -0x7fff_ffff_ffff_ffff <= fxdiv(self@.z, s as int) <= 0x7fff_ffff_ffff_ffff,
        ensures
            r@ == v3_divs(self@, s as int),
    {
        Vector {
            x: crate::fixed::fx_div(self.x, s),
            y: crate::fixed::fx_div(self.y, s),
            z: crate::fixed::fx_div(self.z, s),
        }
    }

    pub fn dot(&self, other: Vector) -> (r: i64)
        requires
            bounded(self@, VEC_LIMIT as int),
            bounded(other@, VEC_LIMIT as int),
        ensures
            r == dot_v3(self@, other@),
    {
        proof {
            lemma_prod_bound(self@.x, other@.x, VEC_LIMIT as int, VEC_LIMIT as int);
            lemma_prod_bound(self@.y, other@.y, VEC_LIMIT as int, VEC_LIMIT as int);
            lemma_prod_bound(self@.z, other@.z, VEC_LIMIT as int, VEC_LIMIT as int);
        }
        let s: i128 = (self.x as i128) * (other.x as i128) + (self.y as i128) * (other.y as i128)
            + (self.z as i128) * (other.z as i128);
        proof {
            lemma_tdiv_bound(s as int, 65536, 3 * (VEC_LIMIT as int) * (VEC_LIMIT as int));
        }
        tdiv_i128(s, 65536) as i64
    }

    pub fn cross(&self, other: Vector) -> (r: Vector)
        requires
            bounded(self@, VEC_LIMIT as int),
            bounded(other@, VEC_LIMIT as int),
        ensures
            r@ == cross_v3(self@, other@),
    {
        proof {
            lemma_prod_bound(self@.y, other@.z, VEC_LIMIT as int, VEC_LIMIT as int);
            lemma_prod_bound(self@.z, other@.y, VEC_LIMIT as int, VEC_LIMIT as int);
            lemma_prod_bound(self@.x, other@.z, VEC_LIMIT as int, VEC_LIMIT as int);
            lemma_prod_bound(self@.z, other@.x, VEC_LIMIT as int, VEC_LIMIT as int);
            lemma_prod_bound(self@.x, other@.y, VEC_LIMIT as int, VEC_LIMIT as int);
            lemma_prod_bound(self@.y, other@.x, VEC_LIMIT as int, VEC_LIMIT as int);
        }
        let px: i128 = (self.y as i128) * (other.z as i128) - (self.z as i128) * (other.y as i128);
        let py: i128 = (self.x as i128) * (other.z as i128) - (self.z as i128) * (other.x as i128);
        let pz: i128 = (self.x as i128) * (other.y as i128) - (self.y as i128) * (other.x as i128);
        proof {
            let m = 2 * (VEC_LIMIT as int) * (VEC_LIMIT as int);
            lemma_tdiv_bound(px as int, 65536, m);
            lemma_tdiv_bound(py as int, 65536, m);
            lemma_tdiv_bound(pz as int, 65536, m);
        }
        Vector {
            x: tdiv_i128(px, 65536) as i64,
            y: (-tdiv_i128(py, 65536)) as i64,
            z: tdiv_i128(pz, 65536) as i64,
        }
    }

    pub fn squared_length(&self) -> (r: i64)
        requires
            bounded(self@, VEC_LIMIT as int),
        ensures
            r == sq_len_v3(self@),
            r >= 0,
    {
        proof {
            lemma_sq_len_shape(self@);
        }
        self.dot(*self)
    }

    pub fn length(&self) -> (r: i64)
        requires
            bounded(self@, VEC_LIMIT as int),
        ensures
            r == len_v3(self@),
            r >= 0,
    {
        proof {
            lemma_sq_len_shape(self@);
        }
        let sq = self.squared_length();
        fx_sqrt(sq)
    }

    /// The unit vector in this vector's direction. Callers must rule out
    /// vectors below the fixed-point resolution (squared length zero), for
    /// which no direction is defined. The result is never shorter than
    /// 1 - 12/65536; inputs of length one or more also get the upper
    /// bound, normalizing to unit length within about 1.2e-4. Shorter
    /// inputs can normalize long (the fixed-point length rounds down), so
    /// callers wanting the tight bracket double their vector up to unit
    /// scale first, which preserves its direction exactly.
    pub fn to_unit_vector(&self) -> (r: Vector)
        requires
            bounded(self@, VEC_LIMIT as int),
            sq_len_v3(self@) >= 1,
        ensures
            r@ == unit_v3(self@),
            bounded(r@, UNIT_LIMIT as int),
            sq_len_v3(r@) >= 65524,
            sq_len_v3(self@) >= 65536 ==> sq_len_v3(r@) <= 65552,
    {
        proof {
            lemma_unit_bounds(self@);
            lemma_len_lower(self@);
            lemma_unit_lower(self@);
            if sq_len_v3(self@) >= 65536 {
                lemma_unit_accuracy(self@);
            }
        }
        let l = self.length();
        let rx: i128 = (self.x as i128) * 65536;
        let ry: i128 = (self.y as i128) * 65536;
        let rz: i128 = (self.z as i128) * 65536;
        proof {
            let m = (VEC_LIMIT as int) * 65536;
            lemma_tdiv_bound(rx as int, l as int, m);
            lemma_tdiv_bound(ry as int, l as int, m);
            lemma_tdiv_bound(rz as int, l as int, m);
        }
        Vector {
            x: tdiv_i128(rx, l as i128) as i64,
            y: tdiv_i128(ry, l as i128) as i64,
            z: tdiv_i128(rz, l as i128) as i64,
        }
    }

    /// Mirror reflection of this direction about the unit normal `n`.
    pub fn reflect(&self, n: Vector) -> (r: Vector)
        requires
            bounded(self@, 0x1_0000_0000),
            bounded(n@, UNIT_LIMIT as int),
        ensures
            r@ == reflect_v3(self@, n@),
            bounded(r@, VEC_LIMIT as int),
    {
        proof {
            lemma_dot_bound(self@, n@, 0x1_0000_0000, UNIT_LIMIT as int);
            assert((3 * 0x1_0000_0000 * 131072) / 65536 == 0x6_0000_0000) by (nonlinear_arith);
        }
        let dn = self.dot(n);
        let s2: i64 = 2 * dn;
        proof {
            lemma_prod_bound(s2 as int, n@.x, 0xc_0000_0000, UNIT_LIMIT as int);
            lemma_prod_bound(s2 as int, n@.y, 0xc_0000_0000, UNIT_LIMIT as int);
            lemma_prod_bound(s2 as int, n@.z, 0xc_0000_0000, UNIT_LIMIT as int);
            lemma_tdiv_bound(s2 as int * n@.x, 65536, (0xc_0000_0000 * 131072) as int);
            lemma_tdiv_bound(s2 as int * n@.y, 65536, (0xc_0000_0000 * 131072) as int);
            lemma_tdiv_bound(s2 as int * n@.z, 65536, (0xc_0000_0000 * 131072) as int);
            assert((0xc_0000_0000 * 131072) / 65536 == 0x18_0000_0000) by (nonlinear_arith);
        }
        self.sub(n.scale(s2))
    }

    /// Quantize the three channels of a color to 8-bit values.
    pub fn to_u8(&self) -> (r: [u8; 3])
        ensures
            r[0] == quantize_spec(self@.x),
            r[1] == quantize_spec(self@.y),
            r[2] == quantize_spec(self@.z),
    {
        [quantize(self.x), quantize(self.y), quantize(self.z)]
    }
}

/// Quantize one fixed-point color channel to a byte.
pub fn quantize(c: i64) -> (r: u8)
    ensures
        r == quantize_spec(c as int),
{
    if c < 0 {
        0
    } else if c >= 65536 {
        255
    } else {
        let p: u64 = (c as u64) * 255999;
        let q: u64 = p / 65536000;
        proof {
            vstd::arithmetic::div_mod::lemma_div_is_ordered(p as int, (65535 * 255999) as int, 65536000);
        }
        q as u8
    }
}

/// Product of values bounded by `m` and `n` is bounded by `m * n`.
pub proof fn lemma_prod_bound(x: int, y: int, m: int, n: int)
    by (nonlinear_arith)
    requires
        -m <= x <= m,
        -n <= y <= n,
        0 <= m,
        0 <= n,
    ensures
        -(m * n) <= x * y <= m * n,
{
}

/// The truncated product of two `VEC_LIMIT`-bounded values fits an `i64`.
proof fn lemma_prod_in_range(x: int, y: int, m: int)
    requires
        -m <= x <= m,
        -m <= y <= m,
        0 <= m,
        m <= 0x40_0000_0000,
    ensures
        -0x7fff_ffff_ffff_ffff <= fxmul(x, y) <= 0x7fff_ffff_ffff_ffff,
{
    lemma_prod_bound(x, y, m, m);
    lemma_tdiv_bound(x * y, 65536, m * m);
    assert((m * m) / 65536 <= 0x1000_0000_0000_0000) by (nonlinear_arith)
        requires
            0 <= m <= 0x40_0000_0000,
    ;
}

/// A bound on both operands of a dot product bounds the result.
pub proof fn lemma_dot_bound(a: V3, b: V3, ma: int, mb: int)
    requires
        bounded(a, ma),
        bounded(b, mb),
        0 <= ma,
        0 <= mb,
    ensures
        -((3 * ma * mb) / 65536) <= dot_v3(a, b) <= (3 * ma * mb) / 65536,
{
    lemma_prod_bound(a.x, b.x, ma, mb);
    lemma_prod_bound(a.y, b.y, ma, mb);
    lemma_prod_bound(a.z, b.z, ma, mb);
    lemma_tdiv_bound(a.x * b.x + a.y * b.y + a.z * b.z, 65536, 3 * (ma * mb));
    assert(3 * (ma * mb) == 3 * ma * mb) by (nonlinear_arith);
}

/// Reflection preserves vector magnitude: in exact arithmetic the squared
/// length of the reflection of `d` about `n` equals the squared length of
/// `d`, up to the uniform factor `|n|^4` that clearing the denominators
/// introduces. For a unit normal that factor is the square of the
/// fixed-point scale on each side: the magnitude itself is preserved. The
/// executable `reflect` adds only the truncation of its two fixed-point
/// products.
pub proof fn lemma_reflect_preserves_sq_len(d: V3, n: V3)
    ensures
        sumsq(reflect_exact(d, n)) == sumsq(n) * sumsq(n) * sumsq(d),
{
    let k = sumsq(n);
    let dn = dot_exact(d, n);
    lemma_reflect_comp(k, dn, d.x, n.x);
    lemma_reflect_comp(k, dn, d.y, n.y);
    lemma_reflect_comp(k, dn, d.z, n.z);
    assert(k * k * (d.x * d.x) + k * k * (d.y * d.y) + k * k * (d.z * d.z) == k * k * sumsq(d))
        by (nonlinear_arith)
        requires
            sumsq(d) == d.x * d.x + d.y * d.y + d.z * d.z,
    ;
    assert(4 * k * dn * (d.x * n.x) + 4 * k * dn * (d.y * n.y) + 4 * k * dn * (d.z * n.z) == 4 * k
        * dn * dn) by (nonlinear_arith)
        requires
            dn == d.x * n.x + d.y * n.y + d.z * n.z,
    ;
    assert(4 * (dn * dn) * (n.x * n.x) + 4 * (dn * dn) * (n.y * n.y) + 4 * (dn * dn) * (n.z * n.z)
        == 4 * k * dn * dn) by (nonlinear_arith)
        requires
            k == n.x * n.x + n.y * n.y + n.z * n.z,
    ;
}

/// One component of the cleared reflection, squared and expanded.
proof fn lemma_reflect_comp(k: int, dn: int, di: int, ni: int)
    ensures
        (k * di - 2 * dn * ni) * (k * di - 2 * dn * ni) == k * k * (di * di) - 4 * k * dn * (di
            * ni) + 4 * (dn * dn) * (ni * ni),
{
    let a = k * di;
    let b = 2 * dn * ni;
    assert((a - b) * (a - b) == a * a - 2 * (a * b) + b * b) by (nonlinear_arith);
    assert(a * a == k * k * (di * di)) by (nonlinear_arith)
        requires
            a == k * di,
    ;
    assert(a * b == 2 * (k * dn * (di * ni))) by (nonlinear_arith)
        requires
            a == k * di,
            b == 2 * dn * ni,
    ;
    assert(b * b == 4 * ((dn * dn) * (ni * ni))) by (nonlinear_arith)
        requires
            b == 2 * dn * ni,
    ;
    assert(4 * ((dn * dn) * (ni * ni)) == 4 * (dn * dn) * (ni * ni)) by (nonlinear_arith);
    assert(4 * (k * dn * (di * ni)) == 4 * k * dn * (di * ni)) by (nonlinear_arith);
}

/// One component of a normalization, squeezed by exact window bounds:
/// `u * l` sits within one divisor step below `|c| * 65536`.
proof fn lemma_unit_comp_window(c: int, l: int)
    requires
        l > 0,
    ensures
        tdiv(c * 65536, l) * tdiv(c * 65536, l) * (l * l) <= (c * c) * (65536 * 65536),
        tdiv(c * 65536, l) * tdiv(c * 65536, l) * (l * l) >= (c * c) * (65536 * 65536) - 2 * absi(
            c,
        ) * 65536 * l,
{
    let u = tdiv(c * 65536, l);
    crate::fixed::lemma_tdiv_remainder(c * 65536, l);
    assert(absi(c * 65536) == absi(c) * 65536);
    let au = absi(u);
    let b = absi(c) * 65536;
    assert(au * l <= b && au * l > b - l);
    assert((au * l) * (au * l) <= b * b) by (nonlinear_arith)
        requires
            0 <= au * l <= b,
    ;
    assert((au * l) * (au * l) >= b * b - 2 * b * l) by (nonlinear_arith)
        requires
            au * l > b - l,
            au >= 0,
            b >= 0,
            l > 0,
    ;
    assert((au * l) * (au * l) == u * u * (l * l)) by (nonlinear_arith)
        requires
            au == u || au == -u,
    ;
    assert(b * b == (c * c) * (65536 * 65536)) by (nonlinear_arith)
        requires
            b == absi(c) * 65536,
            absi(c) == c || absi(c) == -c,
    ;
    assert(2 * b * l == 2 * absi(c) * 65536 * l) by (nonlinear_arith)
        requires
            b == absi(c) * 65536,
    ;
}

/// Normalization is accurate away from the resolution floor: a vector of
/// squared length at least 1.0 normalizes to squared length within
/// [1 - 12/65536, 1 + 16/65536] — unit length up to about 1.2e-4.
pub proof fn lemma_unit_accuracy(v: V3)
    requires
        bounded(v, VEC_LIMIT as int),
        sq_len_v3(v) >= 65536,
    ensures
        65536 - 12 <= sq_len_v3(unit_v3(v)) <= 65536 + 16,
{
    let sq = sq_len_v3(v);
    let l = len_v3(v);
    let u = unit_v3(v);
    lemma_sq_len_shape(v);
    lemma_sq_len_shape(u);
    lemma_isqrt_bounds((sq * 65536) as nat);
    assert(l >= 65536) by (nonlinear_arith)
        requires
            sq * 65536 >= 65536 * 65536,
            sq * 65536 < (l + 1) * (l + 1),
            l >= 0,
    ;
    lemma_unit_comp_window(v.x, l);
    lemma_unit_comp_window(v.y, l);
    lemma_unit_comp_window(v.z, l);
    assert(u.x == tdiv(v.x * 65536, l) && u.y == tdiv(v.y * 65536, l) && u.z == tdiv(
        v.z * 65536,
        l,
    ));
    assert(v.x * v.x <= sumsq(v) && v.y * v.y <= sumsq(v) && v.z * v.z <= sumsq(v))
        by (nonlinear_arith)
        requires
            sumsq(v) == v.x * v.x + v.y * v.y + v.z * v.z,
    ;
    // No component outstrips twice the length.
    assert(absi(v.x) <= 2 * l && absi(v.y) <= 2 * l && absi(v.z) <= 2 * l) by (nonlinear_arith)
        requires
            v.x * v.x <= sumsq(v),
            v.y * v.y <= sumsq(v),
            v.z * v.z <= sumsq(v),
            sumsq(v) < (sq + 1) * 65536,
            sq * 65536 < (l + 1) * (l + 1),
            l >= 65536,
            (absi(v.x) == v.x || absi(v.x) == -v.x) && absi(v.x) >= 0,
            (absi(v.y) == v.y || absi(v.y) == -v.y) && absi(v.y) >= 0,
            (absi(v.z) == v.z || absi(v.z) == -v.z) && absi(v.z) >= 0,
    ;
    // Sum the three windows.
    assert((l * l) * sumsq(u) <= (65536 * 65536) * sumsq(v)) by (nonlinear_arith)
        requires
            u.x * u.x * (l * l) <= (v.x * v.x) * (65536 * 65536),
            u.y * u.y * (l * l) <= (v.y * v.y) * (65536 * 65536),
            u.z * u.z * (l * l) <= (v.z * v.z) * (65536 * 65536),
            sumsq(u) == u.x * u.x + u.y * u.y + u.z * u.z,
            sumsq(v) == v.x * v.x + v.y * v.y + v.z * v.z,
    ;
    assert((l * l) * sumsq(u) == u.x * u.x * (l * l) + u.y * u.y * (l * l) + u.z * u.z * (l * l))
        by (nonlinear_arith)
        requires
            sumsq(u) == u.x * u.x + u.y * u.y + u.z * u.z,
    ;
    assert((v.x * v.x) * (65536 * 65536) + (v.y * v.y) * (65536 * 65536) + (v.z * v.z) * (65536
        * 65536) == (65536 * 65536) * sumsq(v)) by (nonlinear_arith)
        requires
            sumsq(v) == v.x * v.x + v.y * v.y + v.z * v.z,
    ;
    assert(2 * absi(v.x) * 65536 * l + 2 * absi(v.y) * 65536 * l + 2 * absi(v.z) * 65536 * l <= 12
        * 65536 * (l * l)) by (nonlinear_arith)
        requires
            absi(v.x) <= 2 * l && absi(v.y) <= 2 * l && absi(v.z) <= 2 * l,
            absi(v.x) >= 0 && absi(v.y) >= 0 && absi(v.z) >= 0,
            l > 0,
    ;
    assert((l * l) * sumsq(u) >= (65536 * 65536) * sumsq(v) - 12 * 65536 * (l * l));
    // Squared length of the input brackets l^2.
    assert(sumsq(v) >= l * l);
    // Cancel l^2 against the upper bound.
    assert(65536 * sumsq(v) <= (65536 + 16) * (l * l)) by (nonlinear_arith)
        requires
            sumsq(v) < (sq + 1) * 65536,
            l * l <= sq * 65536,
            sq * 65536 < (l + 1) * (l + 1),
            l >= 65536,
    ;
    assert(sumsq(u) <= (65536 + 16) * 65536) by (nonlinear_arith)
        requires
            (l * l) * sumsq(u) <= (65536 * 65536) * sumsq(v),
            65536 * sumsq(v) <= (65536 + 16) * (l * l),
            l >= 65536,
            sumsq(u) >= 0,
    ;
    assert(sumsq(u) >= (65536 - 12) * 65536) by (nonlinear_arith)
        requires
            (l * l) * sumsq(u) >= (65536 * 65536) * sumsq(v) - 12 * 65536 * (l * l),
            sumsq(v) >= l * l,
            l >= 65536,
    ;
    // Pass the bracket through the final scale division.
    vstd::arithmetic::div_mod::lemma_div_is_ordered(sumsq(u), (65552 * 65536) as int, 65536);
    vstd::arithmetic::div_mod::lemma_div_is_ordered((65524 * 65536) as int, sumsq(u), 65536);
    vstd::arithmetic::div_mod::lemma_div_by_multiple(65552, 65536);
    vstd::arithmetic::div_mod::lemma_div_by_multiple(65524, 65536);
}

/// Doubling a vector at least quadruples its squared length.
pub proof fn lemma_sq_len_double(v: V3)
    ensures
        sq_len_v3(v3_add(v, v)) >= 4 * sq_len_v3(v),
{
    let d = v3_add(v, v);
    lemma_sq_len_shape(v);
    lemma_sq_len_shape(d);
    assert(sumsq(d) == 4 * sumsq(v)) by (nonlinear_arith)
        requires
            d.x == 2 * v.x,
            d.y == 2 * v.y,
            d.z == 2 * v.z,
            sumsq(d) == d.x * d.x + d.y * d.y + d.z * d.z,
            sumsq(v) == v.x * v.x + v.y * v.y + v.z * v.z,
    ;
    let sq = sq_len_v3(v);
    assert(4 * (sq * 65536) == (4 * sq) * 65536) by (nonlinear_arith);
    vstd::arithmetic::div_mod::lemma_div_is_ordered((4 * sq) * 65536, sumsq(d), 65536);
    vstd::arithmetic::div_mod::lemma_div_by_multiple(4 * sq, 65536);
}

/// Normalization never falls short: for any input above the resolution
/// floor, the unit vector's squared length is at least 1 - 12/65536.
/// (Truncation can only lengthen: the fixed-point length rounds down, so
/// dividing by it rounds the components up in magnitude.)
pub proof fn lemma_unit_lower(v: V3)
    requires
        bounded(v, VEC_LIMIT as int),
        sq_len_v3(v) >= 1,
    ensures
        sq_len_v3(unit_v3(v)) >= 65524,
{
    let sq = sq_len_v3(v);
    let l = len_v3(v);
    let u = unit_v3(v);
    lemma_sq_len_shape(v);
    lemma_sq_len_shape(u);
    lemma_isqrt_bounds((sq * 65536) as nat);
    lemma_len_lower(v);
    lemma_unit_comp_window(v.x, l);
    lemma_unit_comp_window(v.y, l);
    lemma_unit_comp_window(v.z, l);
    assert(u.x == tdiv(v.x * 65536, l) && u.y == tdiv(v.y * 65536, l) && u.z == tdiv(
        v.z * 65536,
        l,
    ));
    assert(v.x * v.x <= sumsq(v) && v.y * v.y <= sumsq(v) && v.z * v.z <= sumsq(v))
        by (nonlinear_arith)
        requires
            sumsq(v) == v.x * v.x + v.y * v.y + v.z * v.z,
    ;
    assert(absi(v.x) <= 2 * l && absi(v.y) <= 2 * l && absi(v.z) <= 2 * l) by (nonlinear_arith)
        requires
            v.x * v.x <= sumsq(v),
            v.y * v.y <= sumsq(v),
            v.z * v.z <= sumsq(v),
            sumsq(v) < (sq + 1) * 65536,
            sq * 65536 < (l + 1) * (l + 1),
            l >= 256,
            (absi(v.x) == v.x || absi(v.x) == -v.x) && absi(v.x) >= 0,
            (absi(v.y) == v.y || absi(v.y) == -v.y) && absi(v.y) >= 0,
            (absi(v.z) == v.z || absi(v.z) == -v.z) && absi(v.z) >= 0,
    ;
    assert((l * l) * sumsq(u) == u.x * u.x * (l * l) + u.y * u.y * (l * l) + u.z * u.z * (l * l))
        by (nonlinear_arith)
        requires
            sumsq(u) == u.x * u.x + u.y * u.y + u.z * u.z,
    ;
    assert((v.x * v.x) * (65536 * 65536) + (v.y * v.y) * (65536 * 65536) + (v.z * v.z) * (65536
        * 65536) == (65536 * 65536) * sumsq(v)) by (nonlinear_arith)
        requires
            sumsq(v) == v.x * v.x + v.y * v.y + v.z * v.z,
    ;
    assert(2 * absi(v.x) * 65536 * l + 2 * absi(v.y) * 65536 * l + 2 * absi(v.z) * 65536 * l <= 12
        * 65536 * (l * l)) by (nonlinear_arith)
        requires
            absi(v.x) <= 2 * l && absi(v.y) <= 2 * l && absi(v.z) <= 2 * l,
            absi(v.x) >= 0 && absi(v.y) >= 0 && absi(v.z) >= 0,
            l > 0,
    ;
    assert((l * l) * sumsq(u) >= (65536 * 65536) * sumsq(v) - 12 * 65536 * (l * l));
    assert(sumsq(v) >= l * l);
    assert(sumsq(u) >= (65536 - 12) * 65536) by (nonlinear_arith)
        requires
            (l * l) * sumsq(u) >= (65536 * 65536) * sumsq(v) - 12 * 65536 * (l * l),
            sumsq(v) >= l * l,
            l >= 256,
    ;
    vstd::arithmetic::div_mod::lemma_div_is_ordered((65524 * 65536) as int, sumsq(u), 65536);
    vstd::arithmetic::div_mod::lemma_div_by_multiple(65524, 65536);
}

/// Normalization nearly preserves a small dot product: if `v` is at least
/// one unit long and nearly orthogonal to `w` (with `w` of unit scale),
/// then so is the unit vector of `v`, within seven fixed-point units.
pub proof fn lemma_unit_keeps_orthogonality(v: V3, w: V3, e: int)
    requires
        bounded(v, VEC_LIMIT as int),
        sq_len_v3(v) >= 65536,
        bounded(w, 131072),
        absi(dot_v3(v, w)) <= e,
        0 <= e,
    ensures
        absi(dot_v3(unit_v3(v), w)) <= e + 7,
{
    let sq = sq_len_v3(v);
    let l = len_v3(v);
    let u = unit_v3(v);
    lemma_sq_len_shape(v);
    lemma_isqrt_bounds((sq * 65536) as nat);
    assert(l >= 65536) by (nonlinear_arith)
        requires
            sq * 65536 >= 65536 * 65536,
            sq * 65536 < (l + 1) * (l + 1),
            l >= 0,
    ;
    assert(u.x == tdiv(v.x * 65536, l) && u.y == tdiv(v.y * 65536, l) && u.z == tdiv(
        v.z * 65536,
        l,
    ));
    crate::fixed::lemma_tdiv_remainder(v.x * 65536, l);
    crate::fixed::lemma_tdiv_remainder(v.y * 65536, l);
    crate::fixed::lemma_tdiv_remainder(v.z * 65536, l);
    let sx = v.x * 65536 - l * u.x;
    let sy = v.y * 65536 - l * u.y;
    let sz = v.z * 65536 - l * u.z;
    let yv = v.x * w.x + v.y * w.y + v.z * w.z;
    // The exact dot against v is below (e + 1) scale units.
    crate::fixed::lemma_tdiv_remainder(yv, 65536);
    if absi(yv) >= (e + 1) * 65536 {
        vstd::arithmetic::div_mod::lemma_div_is_ordered((e + 1) * 65536, absi(yv), 65536);
        vstd::arithmetic::div_mod::lemma_div_by_multiple(e + 1, 65536);
    }
    assert(absi(yv) < (e + 1) * 65536);
    // Distribute l over the truncated dot.
    let x = u.x * w.x + u.y * w.y + u.z * w.z;
    assert(l * x == l * (u.x * w.x) + l * (u.y * w.y) + l * (u.z * w.z)) by (nonlinear_arith)
        requires
            x == u.x * w.x + u.y * w.y + u.z * w.z,
    ;
    assert(l * (u.x * w.x) == (l * u.x) * w.x) by (nonlinear_arith);
    assert(l * (u.y * w.y) == (l * u.y) * w.y) by (nonlinear_arith);
    assert(l * (u.z * w.z) == (l * u.z) * w.z) by (nonlinear_arith);
    assert(l * x == (l * u.x) * w.x + (l * u.y) * w.y + (l * u.z) * w.z);
    assert((l * u.x) * w.x == 65536 * (v.x * w.x) - sx * w.x) by (nonlinear_arith)
        requires
            l * u.x == v.x * 65536 - sx,
    ;
    assert((l * u.y) * w.y == 65536 * (v.y * w.y) - sy * w.y) by (nonlinear_arith)
        requires
            l * u.y == v.y * 65536 - sy,
    ;
    assert((l * u.z) * w.z == 65536 * (v.z * w.z) - sz * w.z) by (nonlinear_arith)
        requires
            l * u.z == v.z * 65536 - sz,
    ;
    assert(65536 * (v.x * w.x) + 65536 * (v.y * w.y) + 65536 * (v.z * w.z) == 65536 * yv)
        by (nonlinear_arith)
        requires
            yv == v.x * w.x + v.y * w.y + v.z * w.z,
    ;
    assert(l * x == 65536 * yv - (sx * w.x + sy * w.y + sz * w.z));
    lemma_prod_bound(sx, w.x, l, 131072);
    lemma_prod_bound(sy, w.y, l, 131072);
    lemma_prod_bound(sz, w.z, l, 131072);
    assert(65536 * absi(yv) < 65536 * ((e + 1) * 65536)) by (nonlinear_arith)
        requires
            absi(yv) < (e + 1) * 65536,
    ;
    assert(absi(x) <= (e + 7) * 65536) by (nonlinear_arith)
        requires
            l * x == 65536 * yv - (sx * w.x + sy * w.y + sz * w.z),
            65536 * absi(yv) < 65536 * ((e + 1) * 65536),
            absi(yv) == yv || absi(yv) == -yv,
            absi(x) == x || absi(x) == -x,
            absi(x) >= 0,
            -(l * 131072) <= sx * w.x <= l * 131072,
            -(l * 131072) <= sy * w.y <= l * 131072,
            -(l * 131072) <= sz * w.z <= l * 131072,
            l >= 65536,
            e >= 0,
    ;
    lemma_tdiv_bound(x, 65536, (e + 7) * 65536);
    vstd::arithmetic::div_mod::lemma_div_by_multiple(e + 7, 65536);
    assert(dot_v3(u, w) == tdiv(x, 65536));
}

/// A cross product is orthogonal to both of its operands, up to the one
/// truncation its components carry: the residual dot product is below
/// `3 * bound / 65536`. For unit-scale operands that is about 1e-4.
pub proof fn lemma_cross_orthogonal(a: V3, b: V3, ma: int, mb: int)
    requires
        bounded(a, ma),
        bounded(b, mb),
        0 <= ma <= 0x40_0000_0000,
        0 <= mb <= 0x40_0000_0000,
    ensures
        absi(dot_v3(cross_v3(a, b), a)) <= (3 * ma) / 65536,
        absi(dot_v3(cross_v3(a, b), b)) <= (3 * mb) / 65536,
{
    assert((a.y * b.z - a.z * b.y) * a.x + (a.z * b.x - a.x * b.z) * a.y + (a.x * b.y - a.y * b.x)
        * a.z == 0) by (nonlinear_arith);
    assert((a.y * b.z - a.z * b.y) * b.x + (a.z * b.x - a.x * b.z) * b.y + (a.x * b.y - a.y * b.x)
        * b.z == 0) by (nonlinear_arith);
    lemma_cross_residual(a, b, a, ma);
    lemma_cross_residual(a, b, b, mb);
}

/// The residual of the cross product's truncations against a third
/// vector, provided the exact cross product is orthogonal to it.
proof fn lemma_cross_residual(a: V3, b: V3, w: V3, mw: int)
    requires
        bounded(w, mw),
        0 <= mw <= 0x40_0000_0000,
        (a.y * b.z - a.z * b.y) * w.x + (a.z * b.x - a.x * b.z) * w.y + (a.x * b.y - a.y * b.x)
            * w.z == 0,
    ensures
        absi(dot_v3(cross_v3(a, b), w)) <= (3 * mw) / 65536,
{
    let ex = a.y * b.z - a.z * b.y;
    let ey = a.z * b.x - a.x * b.z;
    let ez = a.x * b.y - a.y * b.x;
    let c = cross_v3(a, b);
    assert(c.x == tdiv(ex, 65536) && c.y == tdiv(ey, 65536) && c.z == tdiv(ez, 65536));
    crate::fixed::lemma_tdiv_remainder(ex, 65536);
    crate::fixed::lemma_tdiv_remainder(ey, 65536);
    crate::fixed::lemma_tdiv_remainder(ez, 65536);
    let rx = ex - 65536 * c.x;
    let ry = ey - 65536 * c.y;
    let rz = ez - 65536 * c.z;
    let x = c.x * w.x + c.y * w.y + c.z * w.z;
    assert(65536 * x == (65536 * c.x) * w.x + (65536 * c.y) * w.y + (65536 * c.z) * w.z)
        by (nonlinear_arith)
        requires
            x == c.x * w.x + c.y * w.y + c.z * w.z,
    ;
    assert((65536 * c.x) * w.x == (ex - rx) * w.x && (ex - rx) * w.x == ex * w.x - rx * w.x)
        by (nonlinear_arith)
        requires
            65536 * c.x == ex - rx,
    ;
    assert((65536 * c.y) * w.y == (ey - ry) * w.y && (ey - ry) * w.y == ey * w.y - ry * w.y)
        by (nonlinear_arith)
        requires
            65536 * c.y == ey - ry,
    ;
    assert((65536 * c.z) * w.z == (ez - rz) * w.z && (ez - rz) * w.z == ez * w.z - rz * w.z)
        by (nonlinear_arith)
        requires
            65536 * c.z == ez - rz,
    ;
    assert(65536 * x == -(rx * w.x + ry * w.y + rz * w.z));
    lemma_prod_bound(rx, w.x, 65535, mw);
    lemma_prod_bound(ry, w.y, 65535, mw);
    lemma_prod_bound(rz, w.z, 65535, mw);
    assert(absi(x) <= 3 * mw) by (nonlinear_arith)
        requires
            65536 * x == -(rx * w.x + ry * w.y + rz * w.z),
            -(65535 * mw) <= rx * w.x <= 65535 * mw,
            -(65535 * mw) <= ry * w.y <= 65535 * mw,
            -(65535 * mw) <= rz * w.z <= 65535 * mw,
            absi(x) == x || absi(x) == -x,
            mw >= 0,
    ;
    lemma_tdiv_bound(x, 65536, 3 * mw);
    assert(dot_v3(c, w) == tdiv(x, 65536));
}

/// One pair's square in Lagrange's identity, expanded.
proof fn lemma_lagrange_pair(p: int, q: int, r: int, s: int)
    ensures
        (p * s - q * r) * (p * s - q * r) == (p * p) * (s * s) + (q * q) * (r * r) - 2 * ((p * q)
            * (r * s)),
{
    let x = p * s;
    let y = q * r;
    assert((x - y) * (x - y) == x * x - 2 * (x * y) + y * y) by (nonlinear_arith);
    assert(x * x == (p * p) * (s * s)) by (nonlinear_arith)
        requires
            x == p * s,
    ;
    assert(y * y == (q * q) * (r * r)) by (nonlinear_arith)
        requires
            y == q * r,
    ;
    assert(x * y == (p * q) * (r * s)) by (nonlinear_arith)
        requires
            x == p * s,
            y == q * r,
    ;
}

/// Lagrange's identity: the squared exact cross-product components and
/// the squared exact dot product partition the product of the squared
/// lengths.
pub proof fn lemma_lagrange(a: V3, b: V3)
    ensures
        (a.y * b.z - a.z * b.y) * (a.y * b.z - a.z * b.y) + (a.z * b.x - a.x * b.z) * (a.z * b.x
            - a.x * b.z) + (a.x * b.y - a.y * b.x) * (a.x * b.y - a.y * b.x) + dot_exact(a, b)
            * dot_exact(a, b) == sumsq(a) * sumsq(b),
{
    lemma_lagrange_pair(a.y, a.z, b.y, b.z);
    lemma_lagrange_pair(a.z, a.x, b.z, b.x);
    lemma_lagrange_pair(a.x, a.y, b.x, b.y);
    let u = a.x * b.x;
    let v = a.y * b.y;
    let w = a.z * b.z;
    assert(dot_exact(a, b) == u + v + w);
    assert((u + v + w) * (u + v + w) == u * u + v * v + w * w + 2 * (u * v) + 2 * (u * w) + 2 * (v
        * w)) by (nonlinear_arith);
    assert(u * u == (a.x * a.x) * (b.x * b.x) && v * v == (a.y * a.y) * (b.y * b.y) && w * w == (a.z
        * a.z) * (b.z * b.z)) by (nonlinear_arith)
        requires
            u == a.x * b.x,
            v == a.y * b.y,
            w == a.z * b.z,
    ;
    assert(u * v == (a.x * a.y) * (b.x * b.y) && u * w == (a.z * a.x) * (b.z * b.x) && v * w == (a.y
        * a.z) * (b.y * b.z)) by (nonlinear_arith)
        requires
            u == a.x * b.x,
            v == a.y * b.y,
            w == a.z * b.z,
    ;
    assert(sumsq(a) * sumsq(b) == (a.x * a.x) * (b.x * b.x) + (a.x * a.x) * (b.y * b.y) + (a.x
        * a.x) * (b.z * b.z) + (a.y * a.y) * (b.x * b.x) + (a.y * a.y) * (b.y * b.y) + (a.y * a.y)
        * (b.z * b.z) + (a.z * a.z) * (b.x * b.x) + (a.z * a.z) * (b.y * b.y) + (a.z * a.z) * (b.z
        * b.z)) by (nonlinear_arith)
        requires
            sumsq(a) == a.x * a.x + a.y * a.y + a.z * a.z,
            sumsq(b) == b.x * b.x + b.y * b.y + b.z * b.z,
    ;
}

/// The truncated cross product of two near-unit, nearly orthogonal
/// vectors is itself near-unit: its squared length lies within about
/// 0.1% of one.
pub proof fn lemma_cross_near_unit(a: V3, b: V3)
    requires
        bounded(a, UNIT_LIMIT as int),
        bounded(b, UNIT_LIMIT as int),
        65524 <= sq_len_v3(a) <= 65552,
        65524 <= sq_len_v3(b) <= 65552,
        absi(dot_v3(a, b)) <= 13,
    ensures
        65499 <= sq_len_v3(cross_v3(a, b)) <= 65583,
{
    let c = cross_v3(a, b);
    let ex = a.y * b.z - a.z * b.y;
    let ey = a.z * b.x - a.x * b.z;
    let ez = a.x * b.y - a.y * b.x;
    assert(c.x == tdiv(ex, 65536) && c.y == tdiv(ey, 65536) && c.z == tdiv(ez, 65536));
    lemma_lagrange(a, b);
    let de = dot_exact(a, b);
    let se = ex * ex + ey * ey + ez * ez;
    assert(se == sumsq(a) * sumsq(b) - de * de);

    // The exact dot is below 14 scale units in magnitude.
    crate::fixed::lemma_tdiv_remainder(de, 65536);
    assert(dot_v3(a, b) == tdiv(de, 65536));
    if absi(de) >= 14 * 65536 {
        vstd::arithmetic::div_mod::lemma_div_is_ordered((14 * 65536) as int, absi(de), 65536);
        vstd::arithmetic::div_mod::lemma_div_by_multiple(14, 65536);
        assert(false);
    }
    assert(de * de <= 841813590016 && de * de >= 0) by (nonlinear_arith)
        requires
            -917504 < de < 917504,
    ;

    // Bracket the product of the squared lengths.
    lemma_sq_len_shape(a);
    lemma_sq_len_shape(b);
    lemma_sq_len_shape(c);
    assert(4294180864 <= sumsq(a) <= 4296081408 && 4294180864 <= sumsq(b) <= 4296081408);
    assert(sumsq(a) * sumsq(b) >= 18439989292743786496 && sumsq(a) * sumsq(b)
        <= 18456315464163262464) by (nonlinear_arith)
        requires
            4294180864 <= sumsq(a) <= 4296081408,
            4294180864 <= sumsq(b) <= 4296081408,
    ;
    assert(18439988450930196480 <= se <= 18456315464163262464);

    // No component of either input outstrips 65544.
    assert(a.x * a.x <= sumsq(a) && a.y * a.y <= sumsq(a) && a.z * a.z <= sumsq(a))
        by (nonlinear_arith)
        requires
            sumsq(a) == a.x * a.x + a.y * a.y + a.z * a.z,
    ;
    assert(b.x * b.x <= sumsq(b) && b.y * b.y <= sumsq(b) && b.z * b.z <= sumsq(b))
        by (nonlinear_arith)
        requires
            sumsq(b) == b.x * b.x + b.y * b.y + b.z * b.z,
    ;
    assert(absi(a.x) <= 65544 && absi(a.y) <= 65544 && absi(a.z) <= 65544 && absi(b.x) <= 65544
        && absi(b.y) <= 65544 && absi(b.z) <= 65544) by (nonlinear_arith)
        requires
            a.x * a.x <= 4296081408 && a.y * a.y <= 4296081408 && a.z * a.z <= 4296081408,
            b.x * b.x <= 4296081408 && b.y * b.y <= 4296081408 && b.z * b.z <= 4296081408,
            (absi(a.x) == a.x || absi(a.x) == -a.x) && absi(a.x) >= 0,
            (absi(a.y) == a.y || absi(a.y) == -a.y) && absi(a.y) >= 0,
            (absi(a.z) == a.z || absi(a.z) == -a.z) && absi(a.z) >= 0,
            (absi(b.x) == b.x || absi(b.x) == -b.x) && absi(b.x) >= 0,
            (absi(b.y) == b.y || absi(b.y) == -b.y) && absi(b.y) >= 0,
            (absi(b.z) == b.z || absi(b.z) == -b.z) && absi(b.z) >= 0,
    ;
    lemma_prod_bound(a.y, b.z, 65544, 65544);
    lemma_prod_bound(a.z, b.y, 65544, 65544);
    lemma_prod_bound(a.z, b.x, 65544, 65544);
    lemma_prod_bound(a.x, b.z, 65544, 65544);
    lemma_prod_bound(a.x, b.y, 65544, 65544);
    lemma_prod_bound(a.y, b.x, 65544, 65544);
    assert(-8592031872 <= ex <= 8592031872 && -8592031872 <= ey <= 8592031872 && -8592031872 <= ez
        <= 8592031872);

    // Truncation windows for the three components.
    lemma_cross_comp_window(ex, c.x);
    lemma_cross_comp_window(ey, c.y);
    lemma_cross_comp_window(ez, c.z);

    // Sum the windows and cancel the scale.
    assert((65536 * c.x) * (65536 * c.x) == (65536 * 65536) * (c.x * c.x) && (65536 * c.y) * (65536
        * c.y) == (65536 * 65536) * (c.y * c.y) && (65536 * c.z) * (65536 * c.z) == (65536 * 65536)
        * (c.z * c.z)) by (nonlinear_arith);
    assert((65536 * 65536) * (c.x * c.x) + (65536 * 65536) * (c.y * c.y) + (65536 * 65536) * (c.z
        * c.z) == (65536 * 65536) * sumsq(c)) by (nonlinear_arith)
        requires
            sumsq(c) == c.x * c.x + c.y * c.y + c.z * c.z,
    ;
    assert((65536 * 65536) * sumsq(c) >= 18436609978077807360 && (65536 * 65536) * sumsq(c)
        <= 18459693949900160259);
    assert(sumsq(c) >= 65499 * 65536) by (nonlinear_arith)
        requires
            (65536 * 65536) * sumsq(c) >= 18436609978077807360,
    ;
    assert(sumsq(c) < 65584 * 65536) by (nonlinear_arith)
        requires
            (65536 * 65536) * sumsq(c) <= 18459693949900160259,
    ;
    vstd::arithmetic::div_mod::lemma_div_is_ordered((65499 * 65536) as int, sumsq(c), 65536);
    vstd::arithmetic::div_mod::lemma_div_by_multiple(65499, 65536);
    vstd::arithmetic::div_mod::lemma_multiply_divide_lt(sumsq(c), 65536, 65584);
}

/// The square of one truncated cross component sits within one divisor
/// step of the exact component's square.
proof fn lemma_cross_comp_window(e: int, ci: int)
    requires
        ci == tdiv(e, 65536),
        -8592031872 <= e <= 8592031872,
    ensures
        (65536 * ci) * (65536 * ci) >= e * e - 1126157617463040,
        (65536 * ci) * (65536 * ci) <= e * e + 1126157617463040 + 4294836225,
{
    crate::fixed::lemma_tdiv_remainder(e, 65536);
    let rho = e - 65536 * ci;
    assert(absi(rho) < 65536);
    lemma_prod_bound(e, rho, 8592031872, 65535);
    assert((65536 * ci) * (65536 * ci) == e * e - 2 * (e * rho) + rho * rho) by (nonlinear_arith)
        requires
            65536 * ci == e - rho,
    ;
    assert(0 <= rho * rho <= 4294836225) by (nonlinear_arith)
        requires
            -65535 <= rho <= 65535,
    ;
}

/// One component of the truncated reflection, related to its exact
/// counterpart: at scale 2^32 it differs by at most one truncation step
/// of each of the two fixed-point products.
proof fn lemma_reflect_comp_bridge(di: int, ni: int, de: int, dn: int, rho: int, ri: int)
    requires
        ri == di - tdiv((2 * dn) * ni, 65536),
        65536 * dn == de - rho,
        -65535 <= rho <= 65535,
        -65544 <= ni <= 65544,
        -65544 <= di <= 65544,
        -4296081407 <= de <= 4296081407,
    ensures
        ({
            let exi = 4294967296 * di - 2 * (de * ni);
            let sq = (4294967296 * ri) * (4294967296 * ri);
            exi * exi - 21768523919492621101171200 <= sq <= exi * exi
                + 21768523919492621101171200 + 166042652025074745600
        }),
{
    crate::fixed::lemma_tdiv_remainder((2 * dn) * ni, 65536);
    let q = tdiv((2 * dn) * ni, 65536);
    let mu = (2 * dn) * ni - 65536 * q;
    assert(-65535 <= mu <= 65535);
    assert(4294967296 * ri == 4294967296 * di - 4294967296 * q) by (nonlinear_arith)
        requires
            ri == di - q,
    ;
    assert(4294967296 * q == 65536 * ((2 * dn) * ni) - 65536 * mu) by (nonlinear_arith)
        requires
            65536 * q == (2 * dn) * ni - mu,
    ;
    assert(65536 * ((2 * dn) * ni) == 2 * (de * ni) - 2 * (rho * ni)) by (nonlinear_arith)
        requires
            65536 * dn == de - rho,
    ;
    let exi = 4294967296 * di - 2 * (de * ni);
    let wi = 2 * (rho * ni) + 65536 * mu;
    assert(4294967296 * ri == exi + wi);
    lemma_prod_bound(rho, ni, 65535, 65544);
    assert(-12885753840 <= wi <= 12885753840);
    lemma_prod_bound(de, ni, 4296081407, 65544);
    assert(-844674055929840 <= exi <= 844674055929840);
    lemma_prod_bound(exi, wi, 844674055929840, 12885753840);
    assert((4294967296 * ri) * (4294967296 * ri) == exi * exi + 2 * (exi * wi) + wi * wi)
        by (nonlinear_arith)
        requires
            4294967296 * ri == exi + wi,
    ;
    assert(0 <= wi * wi <= 166042652025074745600) by (nonlinear_arith)
        requires
            -12885753840 <= wi <= 12885753840,
    ;
}

/// The square of one exact reflection component, expanded.
proof fn lemma_exact_refl_sq(di: int, ni: int, de: int)
    ensures
        (4294967296 * di - 2 * (de * ni)) * (4294967296 * di - 2 * (de * ni))
            == 18446744073709551616 * (di * di) - 4 * (4294967296 * (de * (di * ni))) + 4 * ((de
            * de) * (ni * ni)),
{
    let a = 4294967296 * di;
    let b = 2 * (de * ni);
    assert((a - b) * (a - b) == a * a - 2 * (a * b) + b * b) by (nonlinear_arith);
    assert(a * a == 18446744073709551616 * (di * di)) by (nonlinear_arith)
        requires
            a == 4294967296 * di,
    ;
    assert(a * b == 2 * (4294967296 * (de * (di * ni)))) by (nonlinear_arith)
        requires
            a == 4294967296 * di,
            b == 2 * (de * ni),
    ;
    assert(b * b == 4 * ((de * de) * (ni * ni))) by (nonlinear_arith)
        requires
            b == 2 * (de * ni),
    ;
}

/// Reflection preserves vector magnitude through the executable
/// truncations as well: for a unit-bracket direction and normal, the
/// squared length of the truncated reflection matches the direction's
/// within 123 fixed-point units (about 0.2%, dominated by the normal's
/// own unit tolerance).
pub proof fn lemma_reflect_accuracy(d: V3, n: V3)
    requires
        bounded(d, UNIT_LIMIT as int),
        bounded(n, UNIT_LIMIT as int),
        65524 <= sq_len_v3(d) <= 65552,
        65524 <= sq_len_v3(n) <= 65552,
    ensures
        sq_len_v3(d) - 123 <= sq_len_v3(reflect_v3(d, n)) <= sq_len_v3(d) + 123,
{
    let r = reflect_v3(d, n);
    let de = dot_exact(d, n);
    let dn = dot_v3(d, n);
    let k = sumsq(n);
    lemma_sq_len_shape(d);
    lemma_sq_len_shape(n);
    lemma_sq_len_shape(r);
    assert(4294180864 <= sumsq(d) <= 4296081407 && 4294180864 <= sumsq(n) <= 4296081407);

    // Component bounds at the unit bracket.
    assert(d.x * d.x <= sumsq(d) && d.y * d.y <= sumsq(d) && d.z * d.z <= sumsq(d))
        by (nonlinear_arith)
        requires
            sumsq(d) == d.x * d.x + d.y * d.y + d.z * d.z,
    ;
    assert(n.x * n.x <= sumsq(n) && n.y * n.y <= sumsq(n) && n.z * n.z <= sumsq(n))
        by (nonlinear_arith)
        requires
            sumsq(n) == n.x * n.x + n.y * n.y + n.z * n.z,
    ;
    assert(absi(d.x) <= 65544 && absi(d.y) <= 65544 && absi(d.z) <= 65544 && absi(n.x) <= 65544
        && absi(n.y) <= 65544 && absi(n.z) <= 65544) by (nonlinear_arith)
        requires
            d.x * d.x <= 4296081407 && d.y * d.y <= 4296081407 && d.z * d.z <= 4296081407,
            n.x * n.x <= 4296081407 && n.y * n.y <= 4296081407 && n.z * n.z <= 4296081407,
            (absi(d.x) == d.x || absi(d.x) == -d.x) && absi(d.x) >= 0,
            (absi(d.y) == d.y || absi(d.y) == -d.y) && absi(d.y) >= 0,
            (absi(d.z) == d.z || absi(d.z) == -d.z) && absi(d.z) >= 0,
            (absi(n.x) == n.x || absi(n.x) == -n.x) && absi(n.x) >= 0,
            (absi(n.y) == n.y || absi(n.y) == -n.y) && absi(n.y) >= 0,
            (absi(n.z) == n.z || absi(n.z) == -n.z) && absi(n.z) >= 0,
    ;

    // Cauchy-Schwarz through Lagrange: the exact dot is below the product
    // of the lengths.
    lemma_lagrange(d, n);
    assert((d.y * n.z - d.z * n.y) * (d.y * n.z - d.z * n.y) >= 0 && (d.z * n.x - d.x * n.z) * (d.z
        * n.x - d.x * n.z) >= 0 && (d.x * n.y - d.y * n.x) * (d.x * n.y - d.y * n.x) >= 0)
        by (nonlinear_arith);
    assert(de * de <= sumsq(d) * sumsq(n));
    assert(sumsq(d) * sumsq(n) <= 4296081407 * 4296081407) by (nonlinear_arith)
        requires
            0 <= sumsq(d) <= 4296081407,
            0 <= sumsq(n) <= 4296081407,
    ;
    assert(absi(de) <= 4296081407) by (nonlinear_arith)
        requires
            de * de <= 4296081407 * 4296081407,
            absi(de) == de || absi(de) == -de,
            absi(de) >= 0,
    ;

    // The fixed-point dot's remainder.
    crate::fixed::lemma_tdiv_remainder(de, 65536);
    assert(dn == tdiv(de, 65536));
    let rho = de - 65536 * dn;
    assert(absi(rho) <= 65535);

    // Per-component windows around the exact reflection.
    assert(r.x == d.x - tdiv((2 * dn) * n.x, 65536) && r.y == d.y - tdiv((2 * dn) * n.y, 65536)
        && r.z == d.z - tdiv((2 * dn) * n.z, 65536));
    lemma_reflect_comp_bridge(d.x, n.x, de, dn, rho, r.x);
    lemma_reflect_comp_bridge(d.y, n.y, de, dn, rho, r.y);
    lemma_reflect_comp_bridge(d.z, n.z, de, dn, rho, r.z);
    lemma_exact_refl_sq(d.x, n.x, de);
    lemma_exact_refl_sq(d.y, n.y, de);
    lemma_exact_refl_sq(d.z, n.z, de);

    // Sum the exact squares into Lagrange form.
    assert(18446744073709551616 * (d.x * d.x) + 18446744073709551616 * (d.y * d.y)
        + 18446744073709551616 * (d.z * d.z) == 18446744073709551616 * sumsq(d))
        by (nonlinear_arith)
        requires
            sumsq(d) == d.x * d.x + d.y * d.y + d.z * d.z,
    ;
    assert(4 * (4294967296 * (de * (d.x * n.x))) + 4 * (4294967296 * (de * (d.y * n.y))) + 4 * (
    4294967296 * (de * (d.z * n.z))) == 4 * (4294967296 * (de * de))) by (nonlinear_arith)
        requires
            de == d.x * n.x + d.y * n.y + d.z * n.z,
    ;
    assert(4 * ((de * de) * (n.x * n.x)) + 4 * ((de * de) * (n.y * n.y)) + 4 * ((de * de) * (n.z
        * n.z)) == 4 * ((de * de) * k)) by (nonlinear_arith)
        requires
            k == n.x * n.x + n.y * n.y + n.z * n.z,
    ;
    assert(4 * (4294967296 * (de * de)) - 4 * ((de * de) * k) == 4 * ((de * de) * (4294967296 - k)))
        by (nonlinear_arith);
    assert(4296081407 * 4296081407 == 18456315455571099649 && de * de >= 0) by (nonlinear_arith);
    assert(0 <= 4 * ((de * de) * (4294967296 - k)) <= 82249536274087093604188156 || 0 >= 4 * ((de
        * de) * (4294967296 - k)) >= -82249536274087093604188156) by (nonlinear_arith)
        requires
            0 <= de * de <= 18456315455571099649,
            -1114111 <= 4294967296 - k <= 1114111,
    ;

    // Sum the truncated squares.
    assert((4294967296 * r.x) * (4294967296 * r.x) == 18446744073709551616 * (r.x * r.x) && (
    4294967296 * r.y) * (4294967296 * r.y) == 18446744073709551616 * (r.y * r.y) && (4294967296
        * r.z) * (4294967296 * r.z) == 18446744073709551616 * (r.z * r.z)) by (nonlinear_arith);
    assert(18446744073709551616 * (r.x * r.x) + 18446744073709551616 * (r.y * r.y)
        + 18446744073709551616 * (r.z * r.z) == 18446744073709551616 * sumsq(r))
        by (nonlinear_arith)
        requires
            sumsq(r) == r.x * r.x + r.y * r.y + r.z * r.z,
    ;

    // Assemble the two-sided budget and cancel the scale.
    assert(18446744073709551616 * sumsq(r) >= 18446744073709551616 * sumsq(d)
        - 147555616526067145633693696 && 18446744073709551616 * sumsq(r) <= 18446744073709551616
        * sumsq(d) + 147555616526067145633693696);
    assert(147555616526067145633693696 == 18446744073709551616 * 7999006) by (nonlinear_arith);
    assert(sumsq(d) - 8060928 <= sumsq(r) <= sumsq(d) + 8060928) by (nonlinear_arith)
        requires
            18446744073709551616 * sumsq(r) >= 18446744073709551616 * sumsq(d)
                - 18446744073709551616 * 7999006,
            18446744073709551616 * sumsq(r) <= 18446744073709551616 * sumsq(d)
                + 18446744073709551616 * 7999006,
    ;

    // Step down to the squared lengths.
    vstd::arithmetic::div_mod::lemma_hoist_over_denominator(sumsq(r), 123, 65536nat);
    vstd::arithmetic::div_mod::lemma_hoist_over_denominator(sumsq(d), 123, 65536nat);
    vstd::arithmetic::div_mod::lemma_div_is_ordered(sumsq(d), sumsq(r) + 123 * 65536, 65536);
    vstd::arithmetic::div_mod::lemma_div_is_ordered(sumsq(r), sumsq(d) + 123 * 65536, 65536);
}

/// A bound on both operands of a cross product bounds its components.
pub proof fn lemma_cross_bound(a: V3, b: V3, ma: int, mb: int)
    requires
        bounded(a, ma),
        bounded(b, mb),
        0 <= ma,
        0 <= mb,
    ensures
        bounded(cross_v3(a, b), (2 * ma * mb) / 65536),
{
    lemma_prod_bound(a.y, b.z, ma, mb);
    lemma_prod_bound(a.z, b.y, ma, mb);
    lemma_prod_bound(a.x, b.z, ma, mb);
    lemma_prod_bound(a.z, b.x, ma, mb);
    lemma_prod_bound(a.x, b.y, ma, mb);
    lemma_prod_bound(a.y, b.x, ma, mb);
    lemma_tdiv_bound(a.y * b.z - a.z * b.y, 65536, 2 * (ma * mb));
    lemma_tdiv_bound(a.x * b.z - a.z * b.x, 65536, 2 * (ma * mb));
    lemma_tdiv_bound(a.x * b.y - a.y * b.x, 65536, 2 * (ma * mb));
    assert(2 * (ma * mb) == 2 * ma * mb) by (nonlinear_arith);
}

/// The squared length is nonnegative, and `sumsq` sits between consecutive
/// multiples of the scale around it.
pub proof fn lemma_sq_len_shape(a: V3)
    ensures
        sumsq(a) >= 0,
        sq_len_v3(a) == sumsq(a) / 65536,
        sq_len_v3(a) >= 0,
        sq_len_v3(a) * 65536 <= sumsq(a),
        sumsq(a) < (sq_len_v3(a) + 1) * 65536,
{
    assert(a.x * a.x >= 0 && a.y * a.y >= 0 && a.z * a.z >= 0) by (nonlinear_arith);
    vstd::arithmetic::div_mod::lemma_div_pos_is_pos(sumsq(a), 65536);
    vstd::arithmetic::div_mod::lemma_fundamental_div_mod(sumsq(a), 65536);
    vstd::arithmetic::div_mod::lemma_mod_division_less_than_divisor(sumsq(a), 65536);
    assert(sq_len_v3(a) == sumsq(a) / 65536);
    assert(sq_len_v3(a) * 65536 <= sumsq(a) && sumsq(a) < (sq_len_v3(a) + 1) * 65536)
        by (nonlinear_arith)
        requires
            sumsq(a) == 65536 * (sumsq(a) / 65536) + sumsq(a) % 65536,
            0 <= sumsq(a) % 65536 < 65536,
            sq_len_v3(a) == sumsq(a) / 65536,
    ;
}

/// A vector with nonzero squared length has fixed-point length at least 256.
proof fn lemma_len_lower(a: V3)
    requires
        sq_len_v3(a) >= 1,
    ensures
        len_v3(a) >= 256,
{
    let l = len_v3(a);
    lemma_isqrt_bounds((sq_len_v3(a) * 65536) as nat);
    assert(l >= 256) by (nonlinear_arith)
        requires
            sq_len_v3(a) * 65536 >= 65536,
            sq_len_v3(a) * 65536 < (l + 1) * (l + 1),
            l >= 0,
    ;
}

/// One component of a normalization: bounded by 2.0 in fixed point.
proof fn lemma_unit_comp(c: int, ss: int, sq: int, l: int)
    requires
        c * c <= ss,
        ss < (sq + 1) * 65536,
        l * l <= sq * 65536,
        sq * 65536 < (l + 1) * (l + 1),
        l >= 256,
        sq >= 1,
    ensures
        absi(tdiv(c * 65536, l)) <= 131072,
{
    assert(absi(c) <= 2 * l) by (nonlinear_arith)
        requires
            c * c <= ss,
            ss < (sq + 1) * 65536,
            sq * 65536 < (l + 1) * (l + 1),
            l >= 256,
    ;
    lemma_prod_bound(c, 65536, 2 * l, 65536);
    lemma_tdiv_bound(c * 65536, l, 2 * l * 65536);
    vstd::arithmetic::div_mod::lemma_div_by_multiple((2 * 65536) as int, l);
    assert((2 * l * 65536) == (2 * 65536) * l) by (nonlinear_arith);
}

/// Normalizing a vector of nonzero squared length gives components bounded
/// by 2.0 whose squared length is in turn well away from zero.
pub proof fn lemma_unit_bounds(a: V3)
    requires
        bounded(a, VEC_LIMIT as int),
        sq_len_v3(a) >= 1,
    ensures
        bounded(unit_v3(a), UNIT_LIMIT as int),
        sq_len_v3(unit_v3(a)) >= 16384,
{
    let sq = sq_len_v3(a);
    let l = len_v3(a);
    let u = unit_v3(a);
    lemma_sq_len_shape(a);
    lemma_isqrt_bounds((sq * 65536) as nat);
    lemma_len_lower(a);

    // Upper bound on each component.
    assert(a.x * a.x <= sumsq(a) && a.y * a.y <= sumsq(a) && a.z * a.z <= sumsq(a))
        by (nonlinear_arith)
        requires
            sumsq(a) == a.x * a.x + a.y * a.y + a.z * a.z,
    ;
    lemma_unit_comp(a.x, sumsq(a), sq, l);
    lemma_unit_comp(a.y, sumsq(a), sq, l);
    lemma_unit_comp(a.z, sumsq(a), sq, l);
    assert(u.x == tdiv(a.x * 65536, l));
    assert(u.y == tdiv(a.y * 65536, l));
    assert(u.z == tdiv(a.z * 65536, l));

    // Lower bound on the squared length, through the largest component.
    let mx = if absi(a.x) >= absi(a.y) && absi(a.x) >= absi(a.z) {
        absi(a.x)
    } else if absi(a.y) >= absi(a.z) {
        absi(a.y)
    } else {
        absi(a.z)
    };
    assert(sumsq(a) <= 3 * (mx * mx)) by (nonlinear_arith)
        requires
            mx >= absi(a.x) && mx >= absi(a.y) && mx >= absi(a.z),
            mx == absi(a.x) || mx == absi(a.y) || mx == absi(a.z),
            absi(a.x) >= 0 && absi(a.y) >= 0 && absi(a.z) >= 0,
            (absi(a.x) == a.x || absi(a.x) == -a.x)
                && (absi(a.y) == a.y || absi(a.y) == -a.y)
                && (absi(a.z) == a.z || absi(a.z) == -a.z),
            sumsq(a) == a.x * a.x + a.y * a.y + a.z * a.z,
    ;
    assert(l <= 2 * mx) by (nonlinear_arith)
        requires
            l * l <= sq * 65536,
            sq * 65536 <= sumsq(a),
            sumsq(a) <= 3 * (mx * mx),
            l >= 0,
            mx >= 0,
    ;
    assert(mx >= 1) by (nonlinear_arith)
        requires
            sq * 65536 <= sumsq(a),
            sumsq(a) <= 3 * (mx * mx),
            sq >= 1,
            mx >= 0,
    ;
    // The largest component of the unit vector is at least 0.5.
    let um = tdiv(mx * 65536, l);
    vstd::arithmetic::div_mod::lemma_div_is_ordered_by_denominator(mx * 65536, l, 2 * mx);
    vstd::arithmetic::div_mod::lemma_div_by_multiple(32768, 2 * mx);
    assert(mx * 65536 == 32768 * (2 * mx)) by (nonlinear_arith);
    assert((mx * 65536) / l >= 32768);
    assert(um >= 32768) by {
        assert(mx * 65536 >= 0) by (nonlinear_arith)
            requires
                mx >= 0,
        ;
    }
    // And so the squared length of the unit vector is at least 0.25.
    let us = sumsq(u);
    assert(us >= um * um) by (nonlinear_arith)
        requires
            um == tdiv(mx * 65536, l),
            (mx == absi(a.x) || mx == absi(a.y) || mx == absi(a.z)),
            u.x == tdiv(a.x * 65536, l) && u.y == tdiv(a.y * 65536, l) && u.z == tdiv(
                a.z * 65536,
                l,
            ),
            (absi(a.x) == a.x || absi(a.x) == -a.x)
                && (absi(a.y) == a.y || absi(a.y) == -a.y)
                && (absi(a.z) == a.z || absi(a.z) == -a.z),
            tdiv(-a.x * 65536, l) == -tdiv(a.x * 65536, l),
            tdiv(-a.y * 65536, l) == -tdiv(a.y * 65536, l),
            tdiv(-a.z * 65536, l) == -tdiv(a.z * 65536, l),
            us == u.x * u.x + u.y * u.y + u.z * u.z,
    ;
    assert(us >= 32768 * 32768) by (nonlinear_arith)
        requires
            us >= um * um,
            um >= 32768,
    ;
    lemma_sq_len_shape(u);
    vstd::arithmetic::div_mod::lemma_div_is_ordered((32768 * 32768) as int, us, 65536);
    assert(sq_len_v3(u) >= (32768 * 32768) / 65536);
}

} // verus!
