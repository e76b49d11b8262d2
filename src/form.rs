//! Starting a simulation from the values a user enters.
use crate::error::SimulationError;
use crate::population::Population;
use crate::random::Random;
use crate::sampler::WEIGHT_UNIT;
use crate::store::PopulationStore;
use vstd::prelude::*;

verus! {

/// The weight of raw fitness `f` with no bias: `f` units, saturating at
/// `u64::MAX`.
pub open spec fn linear_weight(f: int) -> u64 {
    if f <= (u64::MAX / WEIGHT_UNIT) as int {
        (f * WEIGHT_UNIT) as u64
    } else {
        u64::MAX
    }
}

/// The bias table that weighs each raw fitness `0..=max_fitness` by itself.
pub fn unbiased_weights(max_fitness: usize) -> (r: Vec<u64>)
    ensures
        r@.len() == max_fitness + 1,
        forall|f: int| 0 <= f <= max_fitness ==> #[trigger] r@[f] == linear_weight(f),
{
    let mut weights: Vec<u64> = Vec::new();
    let mut f: usize = 0;
    loop
        invariant
            f <= max_fitness,
            weights@.len() == f,
            forall|k: int| 0 <= k < f ==> #[trigger] weights@[k] == linear_weight(k),
        decreases max_fitness - f,
    {
        let w: u64 = if (f as u64) <= u64::MAX / WEIGHT_UNIT {
            f as u64 * WEIGHT_UNIT
        } else {
            u64::MAX
        };
        weights.push(w);
        if f == max_fitness {
            return weights;
        }
        f = f + 1;
    }
}

/// The values a user enters to start a simulation.
#[derive(Default)]
pub struct PopulationForm {
    pub target_term: String,
    pub mutation_rate: usize,
    pub population_size: usize,
}

impl PopulationForm {
    /// Whether the entered values are ones a front end accepts: a non-empty
    /// target, a rate of at most 100 percent and between 10 and 1000
    /// candidates.
    pub fn is_valid_form_state(&self) -> (r: bool)
        ensures
            r == (self.mutation_rate <= 100 && 10 <= self.population_size <= 1000
                && self.target_term@.len() > 0),
    {
        self.mutation_rate <= 100 && 10 <= self.population_size && self.population_size <= 1000
            && self.target_term.as_str().unicode_len() > 0
    }

    /// A fresh simulation of the entered values, weighing candidates by their
    /// raw fitness.
    pub fn create_simulation(&self, rng: &mut Random) -> (r: Result<PopulationStore, SimulationError>)
        ensures
            self.population_size == 0 <==> r == Err::<PopulationStore, SimulationError>(
                SimulationError::EmptyPopulation,
            ),
            self.population_size > 0 && self.mutation_rate > 100 <==> r == Err::<
                PopulationStore,
                SimulationError,
            >(SimulationError::MutationRateOutOfRange),
            self.population_size > 0 && self.mutation_rate <= 100 <==> r is Ok,
            r is Ok ==> {
                let s = r->Ok_0;
                &&& s.wf()
                &&& s.pop().target() == self.target_term@
                &&& s.pop().rate() == self.mutation_rate
                &&& s.pop().candidates().len() == self.population_size
                &&& s.pop().bias().len() == self.target_term@.len() + 1
                &&& forall|f: int|
                    0 <= f <= self.target_term@.len() ==> #[trigger] s.pop().bias()[f]
                        == linear_weight(f)
                &&& s.generations() == 0
                &&& s.best() == 0
                &&& s.history() == Seq::<usize>::empty()
                &&& !s.finished()
            },
    {
        let len = self.target_term.as_str().unicode_len();
        let weights = unbiased_weights(len);
        match Population::new(
            self.target_term.clone(),
            self.mutation_rate,
            self.population_size,
            weights,
            rng,
        ) {
            Ok(population) => Ok(PopulationStore::from_population(population)),
            Err(e) => Err(e),
        }
    }
}

} // verus!
