//! Random sampling: a seedable sampler around `rand`'s standard generator,
//! a uniform range primitive, and rejection sampling of unit vectors.
//!
//! Nothing is assumed about the values a generator produces; every function
//! that consumes randomness states what holds of every possible outcome.

use vstd::prelude::*;
use crate::vector::{bounded, lemma_sq_len_shape, sq_len_v3, sumsq, unit_v3};
use crate::vector::{Vector, V3, UNIT_LIMIT};

verus! {

#[verifier::external_type_specification]
#[verifier::external_body]
pub struct ExStdRng(rand::rngs::StdRng);

/// Relies on rand::SeedableRng::seed_from_u64 to build a StdRng from a
/// 64-bit seed; nothing is assumed of the generator's state.
#[verifier::external_body]
fn seed_rng(seed: u64) -> rand::rngs::StdRng {
    <rand::rngs::StdRng as rand::SeedableRng>::seed_from_u64(seed)
}

/// Relies on rand::RngCore::next_u32 for StdRng; the result is an
/// arbitrary u32, and nothing more is assumed of it.
#[verifier::external_body]
fn next_u32_rng(r: &mut rand::rngs::StdRng) -> u32 {
    rand::RngCore::next_u32(r)
}

/// An explicit random-number stream. Each render worker or test owns one,
/// seeded deterministically, so runs are reproducible.
pub struct Sampler {
    rng: rand::rngs::StdRng,
}

impl Sampler {
    pub fn from_seed(seed: u64) -> Sampler {
        Sampler { rng: seed_rng(seed) }
    }

    fn next_u32(&mut self) -> u32 {
        next_u32_rng(&mut self.rng)
    }
}

/// A value uniformly drawn from `[min, max)`, in fixed point.
pub fn random_in_range(s: &mut Sampler, min: i64, max: i64) -> (r: i64)
    requires
        min < max,
        -0x1_0000_0000 <= min,
        max <= 0x1_0000_0000,
    ensures
        min <= r < max,
{
    let u = s.next_u32();
    let span: u64 = (max - min) as u64;
    proof {
        assert((u as int) * (span as int) < 0x1_0000_0000 * (span as int)) by (nonlinear_arith)
            requires
                0 <= (u as int) < 0x1_0000_0000,
                (span as int) > 0,
        ;
        assert((u as int) * (span as int) >= 0) by (nonlinear_arith)
            requires
                0 <= (u as int),
                0 <= (span as int),
        ;
        assert(0x1_0000_0000 * (span as int) <= 0x1_0000_0000 * 0x2_0000_0000)
            by (nonlinear_arith)
            requires
                (span as int) <= 0x2_0000_0000,
        ;
        vstd::arithmetic::div_mod::lemma_div_pos_is_pos((u as int) * (span as int), 0x1_0000_0000);
        vstd::arithmetic::div_mod::lemma_multiply_divide_lt(
            (u as int) * (span as int),
            0x1_0000_0000,
            span as int,
        );
    }
    let prod: u128 = (u as u128) * (span as u128);
    let off: u64 = (prod / 0x1_0000_0000) as u64;
    min + (off as i64)
}

/// What holds of every vector the unit-sphere sampler can hand out: it is
/// the normalization of a vector of at least unit scale, so it lies on
/// the unit sphere within tolerance (squared length in [65524, 65552],
/// unit length up to about 1.2e-4).
pub open spec fn unit_sample(rv: V3) -> bool {
    &&& bounded(rv, UNIT_LIMIT as int)
    &&& 65524 <= sq_len_v3(rv) <= 65552
    &&& exists|v: V3| bounded(v, 131072) && 65536 <= sq_len_v3(v) <= 262148 && rv == unit_v3(v)
}

/// A direction drawn by rejection: sample components uniformly in
/// [-1, 1), retry until the vector lies within the unit sphere and no
/// shorter than half a unit (rejecting the inner ball leaves the
/// direction distribution exactly isotropic), then normalize onto the
/// unit sphere. The accepted draw is doubled first — its direction is
/// unchanged, but at unit scale normalization carries the tight accuracy
/// bracket. The number of draws is capped so the loop provably
/// terminates; the chance of exhausting the cap (and falling back to the
/// z axis) is below 2^-40 per call.
pub fn random_vector_in_unit_sphere(s: &mut Sampler) -> (r: Vector)
    ensures
        unit_sample(r@),
{
    let mut tries: u32 = 0;
    while tries < 64
        invariant
            true,
        decreases 64 - tries,
    {
        let x = random_in_range(s, -65536, 65536);
        let y = random_in_range(s, -65536, 65536);
        let z = random_in_range(s, -65536, 65536);
        let vec = Vector::new(x, y, z);
        let sq = vec.squared_length();
        if 16384 <= sq && sq <= 65536 {
            let scaled = vec.add(vec);
            proof {
                lemma_sq_len_shape(vec@);
                lemma_sq_len_shape(scaled@);
                assert(scaled@.x == 2 * vec@.x && scaled@.y == 2 * vec@.y && scaled@.z == 2
                    * vec@.z);
                assert(sumsq(scaled@) == 4 * sumsq(vec@)) by (nonlinear_arith)
                    requires
                        scaled@.x == 2 * vec@.x,
                        scaled@.y == 2 * vec@.y,
                        scaled@.z == 2 * vec@.z,
                        sumsq(scaled@) == scaled@.x * scaled@.x + scaled@.y * scaled@.y + scaled@.z
                            * scaled@.z,
                        sumsq(vec@) == vec@.x * vec@.x + vec@.y * vec@.y + vec@.z * vec@.z,
                ;
                assert(sumsq(scaled@) >= 65536 * 65536);
                vstd::arithmetic::div_mod::lemma_div_is_ordered(
                    (65536 * 65536) as int,
                    sumsq(scaled@),
                    65536,
                );
                vstd::arithmetic::div_mod::lemma_div_by_multiple(65536, 65536);
                assert(sq_len_v3(scaled@) >= 65536);
                assert(4 * (65537 * 65536) == 262148 * 65536) by (nonlinear_arith);
                assert(sumsq(scaled@) < 262148 * 65536);
                vstd::arithmetic::div_mod::lemma_multiply_divide_lt(
                    sumsq(scaled@),
                    65536,
                    262148,
                );
                assert(sq_len_v3(scaled@) <= 262148);
            }
            let u = scaled.to_unit_vector();
            proof {
                assert(bounded(scaled@, 131072) && 65536 <= sq_len_v3(scaled@) <= 262148 && u@
                    == unit_v3(scaled@));
                assert(unit_sample(u@));
            }
            return u;
        }
        tries = tries + 1;
    }
    let w = Vector::new(0, 0, 65536);
    proof {
        let w3 = w@;
        assert(w3.x == 0 && w3.y == 0 && w3.z == 65536);
        assert(w3.x * w3.x + w3.y * w3.y + w3.z * w3.z == 4294967296int) by (nonlinear_arith)
            requires
                w3.x == 0,
                w3.y == 0,
                w3.z == 65536,
        ;
        assert((65536int) * (65536int) == 4294967296int) by (nonlinear_arith);
        assert((65537int) * (65537int) == 4295098369int) by (nonlinear_arith);
        vstd::arithmetic::div_mod::lemma_div_by_multiple(65536int, 65536int);
        assert(4294967296int / 65536int == 65536int);
        assert(sq_len_v3(w3) == 65536);
        crate::fixed::lemma_isqrt_unique(4294967296nat, 65536nat);
        assert(crate::vector::len_v3(w3) == 65536);
        vstd::arithmetic::div_mod::lemma_div_of0(65536int);
        assert(crate::fixed::fxdiv(0, 65536) == 0);
        assert(crate::fixed::fxdiv(65536, 65536) == 65536);
        assert(w3 == unit_v3(w3));
    }
    w
}

} // verus!
