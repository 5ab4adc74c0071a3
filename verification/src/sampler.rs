//! The random-number stream used by the stochastic sampling.
//!
//! The generator is an explicit, owned value threaded through the render
//! call, seeded per run, so renders are reproducible under a fixed seed.
//! The draws come from the `rand` crate through the two trusted wrappers
//! below; every contract downstream states only what holds of every
//! possible outcome of a draw.

use vstd::prelude::*;
use crate::fixed::SCALE;
use crate::vec3::{Vec3, Vec3i, vdot, vbounded, UNIT_LIMIT, lemma_vdot_neg, lemma_vdot_neg_self};

verus! {

#[verifier::external_type_specification]
#[verifier::external_body]
pub struct ExStdRng(rand::rngs::StdRng);

/// An owned, seeded pseudo-random generator.
pub struct Sampler {
    rng: rand::rngs::StdRng,
}

impl Sampler {
    /// Relies on rand's `SeedableRng::seed_from_u64` for `StdRng`: builds a
    /// generator whose stream is a function of the seed alone.
    #[verifier::external_body]
    pub fn from_seed(seed: u64) -> (r: Sampler) {
        Sampler { rng: <rand::rngs::StdRng as rand::SeedableRng>::seed_from_u64(seed) }
    }

    /// Relies on rand's `RngExt::random_range` over `lo..hi`: a draw from
    /// the half-open range, which panics only when the range is empty.
    #[verifier::external_body]
    pub fn gen_in(&mut self, lo: i64, hi: i64) -> (r: i64)
        requires
            lo < hi,
        ensures
            lo <= r < hi,
    {
        rand::RngExt::random_range(&mut self.rng, lo..hi)
    }
}

/// A random point strictly inside the unit sphere, by rejection sampling:
/// uniform components in `[-1, 1]` are drawn until the squared length is
/// below one. The number of attempts is capped (the chance of exhausting
/// the cap is astronomically small); if it is ever reached, the origin --
/// itself a point of the unit sphere -- is returned.
pub fn random_in_unit_sphere(sampler: &mut Sampler) -> (r: Vec3)
    ensures
        vbounded(r@, SCALE as int),
        vdot(r@, r@) < SCALE as int,
{
    let mut p: Vec3 = Vec3::new(0, 0, 0);
    let mut found: bool = false;
    let mut attempts: u32 = 0;
    while !found && attempts < 64
        invariant
            attempts <= 64,
            found ==> vbounded(p@, SCALE as int) && vdot(p@, p@) < SCALE as int,
            !found ==> p@ == (Vec3i { x: 0, y: 0, z: 0 }),
        decreases 64 - attempts,
    {
        let x: i64 = sampler.gen_in(-65536, 65537);
        let y: i64 = sampler.gen_in(-65536, 65537);
        let z: i64 = sampler.gen_in(-65536, 65537);
        let candidate: Vec3 = Vec3::new(x, y, z);
        if candidate.length_squared() < 65536 {
            p = candidate;
            found = true;
        }
        attempts = attempts + 1;
    }
    proof {
        if !found {
            vstd::arithmetic::div_mod::lemma_div_of0(SCALE as int);
            assert(vdot(p@, p@) == 0);
        }
    }
    p
}

/// A random point in the unit sphere flipped, if needed, into the
/// hemisphere of `normal`: the result stays strictly inside the unit
/// sphere (negation preserves the squared length) and its dot product
/// with `normal` is never negative.
pub fn random_in_hemisphere(normal: Vec3, sampler: &mut Sampler) -> (r: Vec3)
    requires
        vbounded(normal@, UNIT_LIMIT as int),
    ensures
        vbounded(r@, SCALE as int),
        vdot(r@, r@) < SCALE as int,
        vdot(r@, normal@) >= 0,
{
    let in_unit_sphere: Vec3 = random_in_unit_sphere(sampler);
    let d: i64 = in_unit_sphere.dot(normal);
    if d > 0 {
        in_unit_sphere
    } else {
        proof {
            lemma_vdot_neg(in_unit_sphere@, normal@);
            lemma_vdot_neg_self(in_unit_sphere@);
        }
        in_unit_sphere.neg()
    }
}

} // verus!
