//! Running simulations to completion, as a bulk experiment does.
use crate::dna::{fitness_of, lemma_fitness_in_range};
use crate::error::SimulationError;
use crate::population::{genes_of, lemma_scored_solves, scored_weights, solves, Population};
use crate::sampler::{lemma_offset_total_at_most, offset_total, WEIGHT_OFFSET};
use crate::store::PopulationStore;
use crate::random::Random;
use vstd::prelude::*;

verus! {

/// Every gene sequence trivially matches an empty target.
pub proof fn lemma_empty_target_solved(pool: Seq<Seq<char>>)
    requires
        pool.len() > 0,
    ensures
        solves(pool, Seq::<char>::empty()),
{
    assert(fitness_of(pool[0], Seq::<char>::empty()) == 0);
}

/// The (mutation rate, population size) pairs with the rate below `rate_end`,
/// rate-major, each rate paired with every size of `population_range`.
pub open spec fn configurations_below(
    mutation_range: (usize, usize),
    population_range: (usize, usize),
    rate_end: int,
) -> Seq<(usize, usize)>
    decreases rate_end - mutation_range.0,
{
    if rate_end <= mutation_range.0 {
        Seq::empty()
    } else {
        configurations_below(mutation_range, population_range, rate_end - 1) + sizes_for(
            (rate_end - 1) as usize,
            population_range,
            population_range.1 as int,
        )
    }
}

/// `rate` paired with each size of `population_range` below `size_end`.
pub open spec fn sizes_for(rate: usize, population_range: (usize, usize), size_end: int) -> Seq<
    (usize, usize),
> {
    if size_end <= population_range.0 {
        Seq::empty()
    } else {
        Seq::new(
            (size_end - population_range.0) as nat,
            |k: int| (rate, (population_range.0 + k) as usize),
        )
    }
}

/// Every (mutation rate, population size) pair of the half-open ranges, in
/// rate-major order.
pub fn sweep_configurations(mutation_range: (usize, usize), population_range: (usize, usize)) -> (r:
    Vec<(usize, usize)>)
    ensures
        r@ == configurations_below(mutation_range, population_range, mutation_range.1 as int),
{
    let mut dataset: Vec<(usize, usize)> = Vec::new();
    let mut rate = mutation_range.0;
    while rate < mutation_range.1
        invariant
            mutation_range.0 <= rate <= mutation_range.1 || (rate == mutation_range.0
                && mutation_range.1 < mutation_range.0),
            dataset@ == configurations_below(mutation_range, population_range, rate as int),
        decreases mutation_range.1 - rate,
    {
        let mut size = population_range.0;
        while size < population_range.1
            invariant
                mutation_range.0 <= rate < mutation_range.1,
                population_range.0 <= size,
                size <= population_range.1 || size == population_range.0,
                dataset@ == configurations_below(mutation_range, population_range, rate as int)
                    + sizes_for(rate, population_range, size as int),
            decreases population_range.1 - size,
        {
            dataset.push((rate, size));
            size = size + 1;
            assert(dataset@ =~= configurations_below(mutation_range, population_range, rate as int)
                + sizes_for(rate, population_range, size as int));
        }
        if population_range.1 < population_range.0 {
            assert(sizes_for(rate, population_range, size as int) =~= Seq::empty());
            assert(sizes_for(rate, population_range, population_range.1 as int) =~= Seq::empty());
        }
        rate = rate + 1;
        assert(dataset@ =~= configurations_below(mutation_range, population_range, rate as int));
    }
    if mutation_range.1 < mutation_range.0 {
        assert(configurations_below(mutation_range, population_range, mutation_range.1 as int)
            =~= Seq::empty());
    }
    dataset
}

/// No cohort of `size` candidates scored with the table `bias` can have
/// offset weights that add up past `u64::MAX`.
pub open spec fn bias_fits(bias: Seq<u64>, size: int) -> bool {
    forall|f: int| 0 <= f < bias.len() ==> size * (#[trigger] bias[f] + WEIGHT_OFFSET) <= u64::MAX
}

/// Under a fitting bias table the scored weights of a cohort never overflow.
pub proof fn lemma_scored_total_fits(pool: Seq<Seq<char>>, target: Seq<char>, bias: Seq<u64>)
    requires
        pool.len() > 0,
        bias.len() == target.len() + 1,
        bias_fits(bias, pool.len() as int),
    ensures
        offset_total(scored_weights(pool, target, bias), pool.len() as int) <= u64::MAX,
{
    let n = pool.len() as int;
    let w = scored_weights(pool, target, bias);
    let b = (u64::MAX as int) / n;
    assert forall|k: int| 0 <= k < n implies #[trigger] w[k] + WEIGHT_OFFSET <= b by {
        let f = fitness_of(pool[k], target) as int;
        lemma_fitness_in_range(pool[k], target);
        let x = bias[f] + WEIGHT_OFFSET;
        assert(n * x <= u64::MAX);
        assert(x <= b) by (nonlinear_arith)
            requires
                n * x <= u64::MAX,
                n > 0,
                b == (u64::MAX as int) / n,
        ;
    }
    lemma_offset_total_at_most(w, n, b);
    assert(n * b <= u64::MAX) by (nonlinear_arith)
        requires
            n > 0,
            b == (u64::MAX as int) / n,
    ;
}

/// Evolves a fresh population until a candidate matches the target or
/// `max_generations` generations have been bred, and returns the simulation.
/// The count is `Some(n)` when a candidate matched, `n` being the number of
/// generations bred; the best fitness recorded for each of the `n` earlier
/// generations is below the target's length.
pub fn total_generations_taken_to_simulate(
    target_term: &str,
    mutation_rate: usize,
    population_size: usize,
    bias_weights: Vec<u64>,
    max_generations: usize,
    rng: &mut Random,
) -> (r: Result<(Option<usize>, PopulationStore), SimulationError>)
    ensures
        population_size == 0 <==> r is Err && r->Err_0 == SimulationError::EmptyPopulation,
        population_size > 0 && mutation_rate > 100 <==> r is Err && r->Err_0
            == SimulationError::MutationRateOutOfRange,
        population_size > 0 && mutation_rate <= 100 && bias_weights@.len() != target_term@.len()
            + 1 <==> r is Err && r->Err_0 == SimulationError::BiasLengthMismatch,
        r is Err ==> r->Err_0 != SimulationError::EmptyWeights,
        population_size > 0 && mutation_rate <= 100 && bias_weights@.len() == target_term@.len()
            + 1 && bias_fits(bias_weights@, population_size as int) ==> r is Ok,
        r is Ok ==> {
            let (g, s) = r->Ok_0;
            &&& s.wf()
            &&& s.pop().scored()
            &&& s.pop().target() == target_term@
            &&& s.pop().rate() == mutation_rate
            &&& s.pop().bias() == bias_weights@
            &&& s.pop().candidates().len() == population_size
            &&& s.generations() <= max_generations
            &&& (g is Some <==> s.finished())
            &&& (g is Some <==> s.pop().solved())
            &&& (g matches Some(n) ==> n == s.generations())
            &&& s.history().len() >= s.generations()
            &&& forall|k: int|
                0 <= k < s.generations() ==> #[trigger] s.history()[k] < target_term@.len()
        },
        population_size > 0 && mutation_rate <= 100 && bias_weights@.len() == 1
            && target_term@.len() == 0 ==> r is Ok && r->Ok_0.0 == Some(0usize),
{
    let population = match Population::new(
        target_term.to_owned(),
        mutation_rate,
        population_size,
        bias_weights,
        rng,
    ) {
        Ok(p) => p,
        Err(e) => {
            return Err(e);
        },
    };
    let mut store = PopulationStore::from_population(population);
    let ghost len = target_term@.len();
    while !store.has_finished() && store.generation_counter() < max_generations
        invariant
            store.wf(),
            store.pop().target() == target_term@,
            store.pop().rate() == mutation_rate,
            store.pop().bias() == bias_weights@,
            store.pop().candidates().len() == population_size,
            len == target_term@.len(),
            store.generations() <= max_generations,
            !store.finished() ==> store.history().len() == store.generations(),
            store.finished() ==> store.history().len() == store.generations() + 1,
            forall|k: int| 0 <= k < store.generations() ==> #[trigger] store.history()[k] < len,
            store.finished() ==> store.pop().scored(),
            target_term@.len() == 0 ==> store.generations() == 0,
        decreases (max_generations - store.generations()) * 2 + (if store.finished() {
            0int
        } else {
            1int
        }),
    {
        let ghost pool = genes_of(store.pop().candidates());
        proof {
            if target_term@.len() == 0 {
                lemma_empty_target_solved(pool);
            }
            if bias_fits(bias_weights@, population_size as int) {
                lemma_scored_total_fits(pool, target_term@, bias_weights@);
            }
        }
        match store.simulate_generation(rng) {
            Ok(()) => {},
            Err(e) => {
                return Err(e);
            },
        }
        proof {
            let b = store.best() as int;
            lemma_fitness_in_range(pool[b], target_term@);
            if !solves(pool, target_term@) {
                assert(fitness_of(pool[b], target_term@) != target_term@.len());
            }
        }
    }
    if !store.has_finished() {
        proof {
            if target_term@.len() == 0 {
                lemma_empty_target_solved(genes_of(store.pop().candidates()));
            }
        }
        store.compute_biased_fitness();
        proof {
            lemma_scored_solves(store.pop(), genes_of(store.pop().candidates()));
        }
    }
    if store.has_finished() {
        let n = store.generation_counter();
        Ok((Some(n), store))
    } else {
        Ok((None, store))
    }
}

} // verus!
