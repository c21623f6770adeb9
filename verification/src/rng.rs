//! Randomness for stochastic sampling.
//!
//! All random draws come from `rand`'s standard generator, seeded explicitly
//! so that a render is reproducible and every parallel worker owns an
//! independent stream. Nothing is assumed about the drawn words; verified
//! code reduces them to bounded fixed-point fractions.

use vstd::prelude::*;
use rand::SeedableRng;
use rand::RngCore;

verus! {

/// rand's standard pseudo-random generator.
#[verifier::external_type_specification]
#[verifier::external_body]
pub struct ExStdRng(rand::rngs::StdRng);

/// Relies on rand::SeedableRng::seed_from_u64: builds a generator from a word
/// seed; never panics.
#[verifier::external_body]
fn rng_from_seed(seed: u64) -> (r: rand::rngs::StdRng) {
    rand::rngs::StdRng::seed_from_u64(seed)
}

/// Relies on rand::RngCore::next_u64: yields the generator's next word; never
/// panics. Nothing can be promised of a random value.
#[verifier::external_body]
fn rng_next(rng: &mut rand::rngs::StdRng) -> (r: u64) {
    rng.next_u64()
}

/// A seeded generator. Equal seeds give equal draw sequences.
pub fn new_rng(seed: u64) -> rand::rngs::StdRng {
    rng_from_seed(seed)
}

/// A uniform fixed-point fraction in `[0, SCALE)`.
pub fn next_fraction(rng: &mut rand::rngs::StdRng) -> (r: i64)
    ensures
        0 <= r < 65536,
{
    let w = rng_next(rng);
    (w % 65536) as i64
}

/// A uniform fixed-point value in `[-SCALE, SCALE)`.
pub fn next_symmetric(rng: &mut rand::rngs::StdRng) -> (r: i64)
    ensures
        -65536 <= r < 65536,
{
    let w = rng_next(rng);
    (w % 131072) as i64 - 65536
}

} // verus!
