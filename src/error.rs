//! Errors the simulation reports to its caller.
use vstd::prelude::*;

verus! {

/// Why a simulation could not be built or advanced.
#[derive(Debug, Clone, Copy, PartialEq, Eq, Structural)]
pub enum SimulationError {
    /// A population of zero candidates leaves nothing to select from.
    EmptyPopulation,
    /// The mutation rate is a percentage and cannot exceed 100.
    MutationRateOutOfRange,
    /// The bias table needs one weight per fitness value `0..=target.len()`.
    BiasLengthMismatch,
    /// A sampler needs at least one weight.
    EmptyWeights,
    /// The offset weights add up past `u64::MAX`.
    WeightOverflow,
    /// The operating system could not supply a seed for a generator.
    EntropyUnavailable,
}

} // verus!
