//! The source of randomness owned by a simulation: a ChaCha generator that can
//! be seeded for reproducible runs.
use rand::Rng;
use rand::SeedableRng;
use rand_chacha::ChaCha12Rng;
use crate::error::SimulationError;
use vstd::prelude::*;

verus! {

/// The ChaCha generator of rand_chacha, carried opaquely.
#[verifier::external_type_specification]
#[verifier::external_body]
pub struct ExChaCha12Rng(ChaCha12Rng);

/// The error type of rand_core (`rand::Error`), carried opaquely.
#[verifier::external_type_specification]
#[verifier::external_body]
pub struct ExRandError(rand::Error);

/// Relies on `ChaCha12Rng::from_rng` (rand_core's `SeedableRng`) over
/// `rand::rngs::OsRng`: a generator seeded from the operating system's
/// entropy source, or the error that source reported. Nothing is promised of
/// the generator.
#[verifier::external_body]
fn chacha_from_os_rng() -> (r: Result<ChaCha12Rng, rand::Error>) {
    ChaCha12Rng::from_rng(rand::rngs::OsRng)
}

/// Relies on `ChaCha12Rng::seed_from_u64` (rand_core's `SeedableRng`): a
/// generator whose whole output stream is fixed by `seed`. Nothing is promised
/// of the stream itself.
#[verifier::external_body]
fn chacha_from_seed(seed: u64) -> (r: ChaCha12Rng) {
    ChaCha12Rng::seed_from_u64(seed)
}

/// Relies on rand's `Rng::gen_range` over a half-open `usize` range: a value
/// in `[start, end)`; it panics on an empty range, which `requires` excludes.
#[verifier::external_body]
fn chacha_gen_range_usize(rng: &mut ChaCha12Rng, start: usize, end: usize) -> (r: usize)
    requires
        start < end,
    ensures
        start <= r < end,
{
    rng.gen_range(start..end)
}

/// Relies on rand's `Rng::gen_range` over a half-open `u64` range: a value in
/// `[start, end)`; it panics on an empty range, which `requires` excludes.
#[verifier::external_body]
fn chacha_gen_range_u64(rng: &mut ChaCha12Rng, start: u64, end: u64) -> (r: u64)
    requires
        start < end,
    ensures
        start <= r < end,
{
    rng.gen_range(start..end)
}

/// A random number generator handed explicitly to every operation that draws.
pub struct Random {
    rng: ChaCha12Rng,
}

impl Random {
    /// A generator seeded from the operating system, or
    /// `EntropyUnavailable` when the operating system cannot supply a seed.
    pub fn new() -> (r: Result<Random, SimulationError>)
        ensures
            r is Err ==> r->Err_0 == SimulationError::EntropyUnavailable,
    {
        match chacha_from_os_rng() {
            Ok(rng) => Ok(Random { rng }),
            Err(_) => Err(SimulationError::EntropyUnavailable),
        }
    }

    /// A generator whose draws are fully determined by `seed`.
    pub fn with_seed(seed: u64) -> (r: Random) {
        Random { rng: chacha_from_seed(seed) }
    }

    /// A uniformly drawn index in `range`.
    pub fn gen_range_usize(&mut self, range: std::ops::Range<usize>) -> (r: usize)
        requires
            range.start < range.end,
        ensures
            range.start <= r < range.end,
    {
        chacha_gen_range_usize(&mut self.rng, range.start, range.end)
    }

    /// A uniformly drawn value in `[start, end)`.
    pub fn gen_range_u64(&mut self, start: u64, end: u64) -> (r: u64)
        requires
            start < end,
        ensures
            start <= r < end,
    {
        chacha_gen_range_u64(&mut self.rng, start, end)
    }
}

} // verus!
