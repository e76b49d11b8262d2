//! A population together with what a front end observes of it: the
//! generation count, the best candidate, the best fitness of each generation
//! and whether the target has been reached.
use crate::dna::{fitness_of, lemma_full_fitness_iff_equal, Dna};
use crate::error::SimulationError;
use crate::population::{
    bred_from, genes_of, lemma_scored_solves, lemma_scored_weights, scored_weights, solves, weights_of,
    Population,
};
use crate::random::Random;
use crate::sampler::offset_total;
use vstd::prelude::*;

verus! {

/// `best` indexes a candidate of greatest fitness, the first such one.
pub open spec fn is_first_best(candidates: Seq<Dna>, best: int) -> bool {
    &&& 0 <= best < candidates.len()
    &&& forall|k: int|
        0 <= k < candidates.len() ==> (#[trigger] candidates[k]).fitness
            <= candidates[best].fitness
    &&& forall|k: int| 0 <= k < best ==> (#[trigger] candidates[k]).fitness < candidates[best].fitness
}

/// `best` indexes a gene sequence of `pool` of greatest fitness against
/// `target`, the first such one.
pub open spec fn is_first_fittest(pool: Seq<Seq<char>>, target: Seq<char>, best: int) -> bool {
    &&& 0 <= best < pool.len()
    &&& forall|k: int|
        0 <= k < pool.len() ==> fitness_of(#[trigger] pool[k], target) <= fitness_of(
            pool[best],
            target,
        )
    &&& forall|k: int|
        0 <= k < best ==> fitness_of(#[trigger] pool[k], target) < fitness_of(pool[best], target)
}

/// A running simulation: the population and the state a front end reads.
pub struct PopulationStore {
    store: Population,
    generation_counter: usize,
    best_candidate: usize,
    best_generation_fitness: Vec<usize>,
    has_finished: bool,
}

impl PopulationStore {
    /// The simulated population.
    pub closed spec fn pop(&self) -> Population {
        self.store
    }

    /// Number of generations bred so far.
    pub closed spec fn generations(&self) -> usize {
        self.generation_counter
    }

    /// Index of the best candidate at the last scoring.
    pub closed spec fn best(&self) -> usize {
        self.best_candidate
    }

    /// Whether the last scoring found a candidate equal to the target.
    pub closed spec fn finished(&self) -> bool {
        self.has_finished
    }

    /// The best fitness recorded for each simulated generation, in order.
    pub closed spec fn history(&self) -> Seq<usize> {
        self.best_generation_fitness@
    }

    /// A well-formed population, a best index inside it, and a finished flag
    /// that is only set when the best candidate equals the target.
    pub open spec fn wf(&self) -> bool {
        &&& self.pop().wf()
        &&& self.best() < self.pop().candidates().len()
        &&& self.finished() ==> self.pop().solved()
        &&& self.finished() ==> self.pop().candidates()[self.best() as int].genes@
            == self.pop().target()
    }

    /// A fresh simulation around `population`, at generation zero.
    pub fn from_population(population: Population) -> (r: PopulationStore)
        requires
            population.wf(),
        ensures
            r.wf(),
            r.pop() == population,
            r.generations() == 0,
            r.best() == 0,
            !r.finished(),
            r.history() == Seq::<usize>::empty(),
    {
        PopulationStore {
            store: population,
            generation_counter: 0,
            best_candidate: 0,
            best_generation_fitness: Vec::new(),
            has_finished: false,
        }
    }

    /// Scores every candidate, then records the first candidate of greatest
    /// fitness and whether some candidate matches the target exactly.
    pub fn compute_biased_fitness(&mut self)
        requires
            old(self).wf(),
        ensures
            final(self).wf(),
            final(self).pop().scored(),
            final(self).pop().target() == old(self).pop().target(),
            final(self).pop().rate() == old(self).pop().rate(),
            final(self).pop().bias() == old(self).pop().bias(),
            final(self).pop().candidates().len() == old(self).pop().candidates().len(),
            forall|i: int|
                0 <= i < final(self).pop().candidates().len() ==> (#[trigger] final(self).pop().candidates()[i]).genes == old(self).pop().candidates()[i].genes,
            genes_of(final(self).pop().candidates()) == genes_of(old(self).pop().candidates()),
            is_first_best(final(self).pop().candidates(), final(self).best() as int),
            final(self).finished() == final(self).pop().solved(),
            old(self).finished() ==> final(self).finished(),
            final(self).finished() ==> final(self).pop().candidates()[final(self).best() as int].genes@
                == final(self).pop().target(),
            final(self).generations() == old(self).generations(),
            final(self).history() == old(self).history(),
    {
        let ghost old_best = self.best_candidate as int;
        self.store.compute_biased_fitness();
        proof {
            if old(self).has_finished {
                let c = self.store.candidates()[old_best];
                assert(c.genes == old(self).store.candidates()[old_best].genes);
                lemma_full_fitness_iff_equal(c.genes@, self.store.target());
                assert(c.fitness == self.store.target().len());
            }
        }
        let pop = self.store.population();
        let len = self.store.target_chars().len();
        let n = pop.len();
        let mut best: usize = 0;
        let mut finished = false;
        let mut idx: usize = 0;
        while idx < n
            invariant
                n == pop@.len(),
                n > 0,
                len == self.store.target().len(),
                pop@ == self.store.candidates(),
                idx <= n,
                best < n,
                best <= idx,
                forall|k: int| 0 <= k < idx ==> (#[trigger] pop@[k]).fitness <= pop@[best as int].fitness,
                forall|k: int| 0 <= k < best ==> (#[trigger] pop@[k]).fitness < pop@[best as int].fitness,
                finished == exists|k: int| 0 <= k < idx && #[trigger] pop@[k].fitness == len,
            decreases n - idx,
        {
            if pop[idx].fitness > pop[best].fitness {
                best = idx;
            }
            if pop[idx].fitness == len {
                finished = true;
            }
            idx = idx + 1;
        }
        proof {
            if finished {
                let k = choose|k: int| 0 <= k < idx && #[trigger] pop@[k].fitness == len;
                assert(pop@[k].fitness <= pop@[best as int].fitness);
                let c = pop@[best as int];
                assert(c.fitness <= len);
                assert(c.fitness == fitness_of(c.genes@, self.store.target()));
                lemma_full_fitness_iff_equal(c.genes@, self.store.target());
            }
        }
        self.best_candidate = best;
        self.has_finished = finished;
    }

    /// Advances one generation unless the target has been reached, in which
    /// case nothing changes.
    pub fn update_generation(&mut self, rng: &mut Random) -> (r: Result<(), SimulationError>)
        requires
            old(self).wf(),
            !old(self).finished() ==> old(self).generations() < usize::MAX,
        ensures
            final(self).wf(),
            old(self).finished() ==> r is Ok && *final(self) == *old(self),
            !old(self).finished() ==> {
                &&& r is Err <==> offset_total(
                    weights_of(old(self).pop().candidates()),
                    old(self).pop().candidates().len() as int,
                ) > u64::MAX
                &&& r is Err ==> r == Err::<(), SimulationError>(SimulationError::WeightOverflow)
                    && *final(self) == *old(self)
                &&& r is Ok ==> final(self).generations() == old(self).generations() + 1
                &&& r is Ok ==> forall|i: int|
                    0 <= i < final(self).pop().candidates().len() ==> bred_from(
                        (#[trigger] final(self).pop().candidates()[i]).genes@,
                        genes_of(old(self).pop().candidates()),
                        weights_of(old(self).pop().candidates()),
                        old(self).pop().rate(),
                    )
                &&& r is Ok ==> forall|i: int|
                    0 <= i < final(self).pop().candidates().len() ==> (#[trigger] final(self).pop().candidates()[i]).fitness == 0
                        && final(self).pop().candidates()[i].biased_fitness == 0
            },
            final(self).pop().target() == old(self).pop().target(),
            final(self).pop().rate() == old(self).pop().rate(),
            final(self).pop().bias() == old(self).pop().bias(),
            final(self).pop().candidates().len() == old(self).pop().candidates().len(),
            final(self).finished() == old(self).finished(),
            final(self).best() == old(self).best(),
            final(self).history() == old(self).history(),
    {
        if self.has_finished {
            return Ok(());
        }
        match self.store.update_generation(rng) {
            Ok(()) => {
                self.generation_counter = self.generation_counter + 1;
                Ok(())
            },
            Err(e) => Err(e),
        }
    }

    /// Runs one step of the simulation. Once the target has been reached this
    /// changes nothing. Otherwise it scores the cohort, records the best
    /// fitness and whether the target is reached, and, if it is not, breeds the
    /// next generation.
    pub fn simulate_generation(&mut self, rng: &mut Random) -> (r: Result<(), SimulationError>)
        requires
            old(self).wf(),
            !old(self).finished() ==> old(self).generations() < usize::MAX,
        ensures
            final(self).wf(),
            old(self).finished() ==> r is Ok && *final(self) == *old(self),
            !old(self).finished() ==> {
                let pool = genes_of(old(self).pop().candidates());
                let target = old(self).pop().target();
                &&& final(self).finished() == solves(pool, target)
                &&& is_first_fittest(pool, target, final(self).best() as int)
                &&& r is Err <==> !solves(pool, target) && offset_total(
                    scored_weights(pool, target, old(self).pop().bias()),
                    pool.len() as int,
                ) > u64::MAX
                &&& r is Err ==> r == Err::<(), SimulationError>(SimulationError::WeightOverflow)
                &&& r is Err ==> !final(self).finished()
                &&& r is Err ==> final(self).history() == old(self).history()
                &&& r is Err ==> final(self).generations() == old(self).generations()
                &&& r is Err ==> genes_of(final(self).pop().candidates()) == pool
                &&& r is Ok ==> final(self).history() == old(self).history().push(
                    fitness_of(pool[final(self).best() as int], target) as usize,
                )
                &&& final(self).finished() ==> pool[final(self).best() as int] == target
                &&& final(self).finished() ==> r is Ok
                    && final(self).generations() == old(self).generations()
                    && genes_of(final(self).pop().candidates()) == pool
                    && final(self).pop().scored()
                &&& r is Ok && !final(self).finished() ==> final(self).generations()
                    == old(self).generations() + 1 && forall|i: int|
                    0 <= i < final(self).pop().candidates().len() ==> bred_from(
                        (#[trigger] final(self).pop().candidates()[i]).genes@,
                        pool,
                        scored_weights(pool, target, old(self).pop().bias()),
                        old(self).pop().rate(),
                    )
            },
            final(self).pop().target() == old(self).pop().target(),
            final(self).pop().rate() == old(self).pop().rate(),
            final(self).pop().bias() == old(self).pop().bias(),
            final(self).pop().candidates().len() == old(self).pop().candidates().len(),
    {
        if self.has_finished {
            return Ok(());
        }
        let ghost pool = genes_of(self.store.candidates());
        let ghost target = self.store.target();
        self.compute_biased_fitness();
        proof {
            lemma_scored_fittest(self.store, pool, self.best_candidate as int);
            lemma_scored_solves(self.store, pool);
            lemma_scored_weights(self.store);
        }
        let best_fitness = self.store.population()[self.best_candidate].fitness;
        if !self.has_finished {
            match self.store.update_generation(rng) {
                Ok(()) => {
                    self.generation_counter = self.generation_counter + 1;
                },
                Err(e) => {
                    return Err(e);
                },
            }
        }
        self.best_generation_fitness.push(best_fitness);
        Ok(())
    }

    /// The current population.
    pub fn population(&self) -> (r: &Population)
        ensures
            *r == self.pop(),
    {
        &self.store
    }

    /// The current candidates.
    pub fn candidates(&self) -> (r: &Vec<Dna>)
        ensures
            r@ == self.pop().candidates(),
    {
        self.store.population()
    }

    /// Number of generations bred so far.
    pub fn generation_counter(&self) -> (r: usize)
        ensures
            r == self.generations(),
    {
        self.generation_counter
    }

    /// Index of the first candidate of greatest fitness at the last scoring.
    pub fn best_candidate(&self) -> (r: usize)
        ensures
            r == self.best(),
    {
        self.best_candidate
    }

    /// Whether the last scoring found a candidate equal to the target.
    pub fn has_finished(&self) -> (r: bool)
        ensures
            r == self.finished(),
    {
        self.has_finished
    }

    /// The best fitness of each simulated generation, in order.
    pub fn best_generation_fitness(&self) -> (r: &Vec<usize>)
        ensures
            r@ == self.history(),
    {
        &self.best_generation_fitness
    }
}

/// In a scored population, the first candidate of greatest recorded fitness is
/// the first of greatest fitness against the target.
proof fn lemma_scored_fittest(p: Population, pool: Seq<Seq<char>>, best: int)
    requires
        p.scored(),
        genes_of(p.candidates()) == pool,
        is_first_best(p.candidates(), best),
    ensures
        is_first_fittest(pool, p.target(), best),
{
    assert forall|k: int| 0 <= k < pool.len() implies #[trigger] pool[k] == p.candidates()[k].genes@
        && p.candidates()[k].fitness == fitness_of(pool[k], p.target()) by {
        assert(genes_of(p.candidates())[k] == p.candidates()[k].genes@);
    }
}

/// Once a simulation has finished, its best candidate equals the target.
pub proof fn lemma_finished_best_is_target(s: PopulationStore)
    requires
        s.wf(),
    ensures
        s.finished() ==> s.pop().candidates()[s.best() as int].genes@ == s.pop().target(),
{
}

} // verus!
