//! The generation engine: scoring a cohort of candidates and breeding the next
//! one by weighted selection, crossover and mutation.
use crate::dna::{
    crossed, draw_mutation, fitness_of, is_gene_char, mutated, mutation_draws_fit, Dna,
};
use crate::error::SimulationError;
use crate::random::Random;
use crate::sampler::{offset_total, pick, WeightedIndices};
use vstd::prelude::*;

verus! {

/// The gene sequences of `candidates`, in order.
pub open spec fn genes_of(candidates: Seq<Dna>) -> Seq<Seq<char>> {
    candidates.map_values(|c: Dna| c.genes@)
}

/// The random values that breed one child: two draws in `[0, total)` that
/// select the parents through the sampler, the crossover cut point, and the
/// mutation draws.
pub struct BreedingDraws {
    pub parent_a: u64,
    pub parent_b: u64,
    pub cut: usize,
    pub rolls: Vec<usize>,
    pub fresh: Vec<char>,
}

/// `d` fits breeding a child of length `len` from a cohort with `weights`.
pub open spec fn draws_fit(d: BreedingDraws, weights: Seq<u64>, len: nat) -> bool {
    &&& d.parent_a < offset_total(weights, weights.len() as int)
    &&& d.parent_b < offset_total(weights, weights.len() as int)
    &&& (d.cut < len || d.cut == 0)
    &&& mutation_draws_fit(d.rolls@, d.fresh@, len)
}

/// The child bred by `d` from `pool` weighted by `weights`: the crossover of
/// the two selected parents at `d.cut`, mutated by `d.rolls` and `d.fresh`.
pub open spec fn child_of(pool: Seq<Seq<char>>, weights: Seq<u64>, d: BreedingDraws, rate: usize) -> Seq<
    char,
> {
    mutated(
        crossed(pool[pick(weights, d.parent_a as int)], pool[pick(weights, d.parent_b as int)], d.cut as int),
        d.rolls@,
        d.fresh@,
        rate,
    )
}

/// `child` is what some fitting draws breed from `pool` weighted by `weights`.
pub open spec fn bred_from(child: Seq<char>, pool: Seq<Seq<char>>, weights: Seq<u64>, rate: usize) -> bool {
    exists|d: BreedingDraws|
        draws_fit(d, weights, child.len()) && #[trigger] child_of(pool, weights, d, rate) == child
}

/// The weight of each gene sequence of `pool` under the bias table `bias`.
pub open spec fn scored_weights(pool: Seq<Seq<char>>, target: Seq<char>, bias: Seq<u64>) -> Seq<u64> {
    Seq::new(pool.len(), |i: int| bias[fitness_of(pool[i], target) as int])
}

/// Some gene sequence of `pool` matches `target` at every position.
pub open spec fn solves(pool: Seq<Seq<char>>, target: Seq<char>) -> bool {
    exists|i: int| 0 <= i < pool.len() && fitness_of(#[trigger] pool[i], target) == target.len()
}

/// The selection weights held by `candidates`, in order.
pub open spec fn weights_of(candidates: Seq<Dna>) -> Seq<u64> {
    candidates.map_values(|c: Dna| c.biased_fitness)
}

/// A cohort of candidates evolving towards a target string.
pub struct Population {
    next_gen_population: Vec<Dna>,
    population: Vec<Dna>,
    target_term: String,
    target: Vec<char>,
    mutation_rate: usize,
    bias_weights: Vec<u64>,
}

impl Population {
    /// The current candidates.
    pub closed spec fn candidates(&self) -> Seq<Dna> {
        self.population@
    }

    /// The characters of the target string.
    pub closed spec fn target(&self) -> Seq<char> {
        self.target@
    }

    /// Per-gene mutation probability, in percent.
    pub closed spec fn rate(&self) -> usize {
        self.mutation_rate
    }

    /// The selection weight given to each raw fitness `0..=target.len()`.
    pub closed spec fn bias(&self) -> Seq<u64> {
        self.bias_weights@
    }

    /// The breeding buffer is as large as the cohort, and the target string
    /// and its characters agree.
    pub closed spec fn buffers_match(&self) -> bool {
        &&& self.next_gen_population@.len() == self.population@.len()
        &&& self.target_term@ == self.target@
    }

    /// The population's invariant: a non-empty cohort whose candidates are all
    /// as long as the target, made of alphabet characters and never fitter
    /// than its length, a rate of at
    /// most 100 percent and a bias weight for every possible fitness.
    pub open spec fn wf(&self) -> bool {
        &&& self.buffers_match()
        &&& self.candidates().len() > 0
        &&& self.rate() <= 100
        &&& self.bias().len() == self.target().len() + 1
        &&& forall|i: int|
            0 <= i < self.candidates().len() ==> #[trigger] self.candidates()[i].genes@.len()
                == self.target().len()
        &&& forall|i: int|
            0 <= i < self.candidates().len() ==> #[trigger] self.candidates()[i].fitness
                <= self.target().len()
        &&& forall|i: int, j: int|
            0 <= i < self.candidates().len() && 0 <= j < self.target().len() ==> is_gene_char(
                #[trigger] self.candidates()[i].genes@[j],
            )
    }

    /// Every candidate's fitness and weight are those of its current genes.
    pub open spec fn scored(&self) -> bool {
        forall|i: int|
            0 <= i < self.candidates().len() ==> {
                let c = #[trigger] self.candidates()[i];
                &&& c.fitness == fitness_of(c.genes@, self.target())
                &&& c.biased_fitness == self.bias()[c.fitness as int]
            }
    }

    /// Some candidate matches the target at every position.
    pub open spec fn solved(&self) -> bool {
        exists|i: int|
            0 <= i < self.candidates().len() && #[trigger] self.candidates()[i].fitness
                == self.target().len()
    }

    /// A population of `population_size` random candidates, each as long as
    /// `target_term`. `bias_weights[f]` is the selection weight, in
    /// `WEIGHT_UNIT`s, of a candidate of raw fitness `f`.
    pub fn new(
        target_term: String,
        mutation_rate: usize,
        population_size: usize,
        bias_weights: Vec<u64>,
        rng: &mut Random,
    ) -> (r: Result<Population, SimulationError>)
        ensures
            population_size == 0 <==> r == Err::<Population, SimulationError>(
                SimulationError::EmptyPopulation,
            ),
            population_size > 0 && mutation_rate > 100 <==> r == Err::<
                Population,
                SimulationError,
            >(SimulationError::MutationRateOutOfRange),
            population_size > 0 && mutation_rate <= 100 && bias_weights@.len()
                != target_term@.len() + 1 <==> r == Err::<Population, SimulationError>(
                SimulationError::BiasLengthMismatch,
            ),
            r is Ok <==> population_size > 0 && mutation_rate <= 100 && bias_weights@.len()
                == target_term@.len() + 1,
            r is Ok ==> {
                let p = r->Ok_0;
                &&& p.wf()
                &&& p.target() == target_term@
                &&& p.rate() == mutation_rate
                &&& p.bias() == bias_weights@
                &&& p.candidates().len() == population_size
                &&& forall|i: int|
                    0 <= i < population_size ==> (#[trigger] p.candidates()[i]).fitness == 0
                        && p.candidates()[i].biased_fitness == 0
            },
    {
        if population_size == 0 {
            return Err(SimulationError::EmptyPopulation);
        }
        if mutation_rate > 100 {
            return Err(SimulationError::MutationRateOutOfRange);
        }
        let len = target_term.as_str().unicode_len();
        if bias_weights.len() == 0 || bias_weights.len() - 1 != len {
            return Err(SimulationError::BiasLengthMismatch);
        }
        let mut target: Vec<char> = Vec::with_capacity(len);
        let mut i: usize = 0;
        while i < len
            invariant
                i <= len,
                len == target_term@.len(),
                target@ == target_term@.take(i as int),
            decreases len - i,
        {
            target.push(target_term.as_str().get_char(i));
            i = i + 1;
            assert(target@ =~= target_term@.take(i as int));
        }
        assert(target@ =~= target_term@);
        let mut population: Vec<Dna> = Vec::with_capacity(population_size);
        let mut next_gen_population: Vec<Dna> = Vec::with_capacity(population_size);
        let mut k: usize = 0;
        while k < population_size
            invariant
                k <= population_size,
                len == target@.len(),
                population@.len() == k,
                next_gen_population@.len() == k,
                forall|a: int|
                    0 <= a < k ==> (#[trigger] population@[a]).genes@.len() == len
                        && population@[a].fitness == 0 && population@[a].biased_fitness == 0,
                forall|a: int, j: int|
                    0 <= a < k && 0 <= j < len ==> is_gene_char(
                        #[trigger] population@[a].genes@[j],
                    ),
            decreases population_size - k,
        {
            population.push(Dna::crate_random_genes(len, rng));
            next_gen_population.push(Dna { genes: Vec::new(), fitness: 0, biased_fitness: 0 });
            k = k + 1;
        }
        Ok(Population { next_gen_population, population, target_term, target, mutation_rate, bias_weights })
    }

    /// Recomputes every candidate's raw fitness against the target and sets its
    /// selection weight from the bias table.
    pub fn compute_biased_fitness(&mut self)
        requires
            old(self).wf(),
        ensures
            final(self).wf(),
            final(self).scored(),
            final(self).target() == old(self).target(),
            final(self).rate() == old(self).rate(),
            final(self).bias() == old(self).bias(),
            final(self).candidates().len() == old(self).candidates().len(),
            forall|i: int|
                0 <= i < final(self).candidates().len() ==> (#[trigger] final(self).candidates()[i]).genes
                    == old(self).candidates()[i].genes,
            genes_of(final(self).candidates()) == genes_of(old(self).candidates()),
    {
        let ghost start = self.population@;
        let n = self.population.len();
        let mut i: usize = 0;
        while i < n
            invariant
                self.wf(),
                n == self.candidates().len(),
                i <= n,
                self.target() == old(self).target(),
                self.rate() == old(self).rate(),
                self.bias() == old(self).bias(),
                forall|k: int| 0 <= k < n ==> #[trigger] self.candidates()[k].genes == start[k].genes,
                forall|k: int|
                    0 <= k < i ==> {
                        let c = #[trigger] self.candidates()[k];
                        &&& c.fitness == fitness_of(c.genes@, self.target())
                        &&& c.biased_fitness == self.bias()[c.fitness as int]
                    },
            decreases n - i,
        {
            let fitness = self.population[i].compute_fitness(&self.target);
            let weight = self.bias_weights[fitness];
            self.population[i].biased_fitness = weight;
            i = i + 1;
        }
        assert(genes_of(self.candidates()) =~= genes_of(start));
    }

    /// Scores every candidate and reports whether one matches the target.
    pub fn compute_biased_fitness_if_not_finished(&mut self) -> (r: bool)
        requires
            old(self).wf(),
        ensures
            final(self).wf(),
            final(self).scored(),
            r == final(self).solved(),
            r == solves(genes_of(old(self).candidates()), old(self).target()),
            final(self).target() == old(self).target(),
            final(self).rate() == old(self).rate(),
            final(self).bias() == old(self).bias(),
            final(self).candidates().len() == old(self).candidates().len(),
            genes_of(final(self).candidates()) == genes_of(old(self).candidates()),
    {
        self.compute_biased_fitness();
        let len = self.target.len();
        let mut i: usize = 0;
        while i < self.population.len()
            invariant
                self.wf(),
                self.scored(),
                len == self.target().len(),
                i <= self.candidates().len(),
                forall|k: int| 0 <= k < i ==> (#[trigger] self.candidates()[k]).fitness != len,
                genes_of(self.candidates()) == genes_of(old(self).candidates()),
                self.target() == old(self).target(),
                self.rate() == old(self).rate(),
                self.bias() == old(self).bias(),
                self.candidates().len() == old(self).candidates().len(),
            decreases self.candidates().len() - i,
        {
            if self.population[i].fitness == len {
                proof {
                    lemma_scored_solves(*self, genes_of(old(self).candidates()));
                }
                return true;
            }
            i = i + 1;
        }
        proof {
            lemma_scored_solves(*self, genes_of(old(self).candidates()));
        }
        false
    }

    /// The selection weight of every candidate, in order.
    fn selection_weights(&self) -> (r: Vec<u64>)
        ensures
            r@ == weights_of(self.candidates()),
    {
        let mut weights: Vec<u64> = Vec::with_capacity(self.population.len());
        let mut i: usize = 0;
        while i < self.population.len()
            invariant
                i <= self.candidates().len(),
                weights@ == weights_of(self.candidates()).take(i as int),
            decreases self.candidates().len() - i,
        {
            weights.push(self.population[i].biased_fitness);
            i = i + 1;
            assert(weights@ =~= weights_of(self.candidates()).take(i as int));
        }
        assert(weights@ =~= weights_of(self.candidates()));
        weights
    }

    /// Breeds one child with the given draws: the parents are the candidates
    /// `sampler` selects for `draws.parent_a` and `draws.parent_b`, crossed at
    /// `draws.cut` and mutated by `draws.rolls` and `draws.fresh`.
    pub fn breed(&self, sampler: &WeightedIndices, draws: &BreedingDraws) -> (r: Dna)
        requires
            self.wf(),
            sampler.wf(),
            sampler.len() == self.candidates().len(),
            forall|k: int|
                0 <= k < sampler.len() ==> #[trigger] sampler.cumulative()[k] == offset_total(
                    weights_of(self.candidates()),
                    k + 1,
                ),
            draws_fit(*draws, weights_of(self.candidates()), self.target().len()),
        ensures
            r.genes@ == child_of(
                genes_of(self.candidates()),
                weights_of(self.candidates()),
                *draws,
                self.rate(),
            ),
            r.genes@.len() == self.target().len(),
            forall|j: int| 0 <= j < self.target().len() ==> is_gene_char(#[trigger] r.genes@[j]),
            r.fitness == 0,
            r.biased_fitness == 0,
    {
        let ghost w = weights_of(self.candidates());
        let n = self.population.len();
        assert(sampler.total() == offset_total(w, n as int));
        let a = sampler.index_for(draws.parent_a);
        let b = sampler.index_for(draws.parent_b);
        proof {
            sampler.lemma_index_for_picks(w, draws.parent_a as int, a as int);
            sampler.lemma_index_for_picks(w, draws.parent_b as int, b as int);
        }
        let mut child = Dna::crossover_at(&self.population[a], &self.population[b], draws.cut);
        let ghost cross = child.genes@;
        child.mutate_with(&draws.rolls, &draws.fresh, self.mutation_rate);
        proof {
            let ga = self.candidates()[a as int].genes@;
            let gb = self.candidates()[b as int].genes@;
            assert(genes_of(self.candidates())[a as int] == ga);
            assert(genes_of(self.candidates())[b as int] == gb);
            assert forall|j: int| 0 <= j < self.target().len() implies is_gene_char(
                #[trigger] child.genes@[j],
            ) by {
                assert(draws.rolls@[j] < 100 && is_gene_char(draws.fresh@[j]));
                assert(is_gene_char(ga[j]) && is_gene_char(gb[j]));
                assert(cross[j] == ga[j] || cross[j] == gb[j]);
            }
        }
        child
    }

    /// Replaces the cohort by a new one of the same size: each child is bred
    /// by `breed` from two parents drawn with probability proportional to
    /// their offset selection weights. Fails, changing nothing, when the
    /// offset weights add up past `u64::MAX`.
    pub fn update_generation(&mut self, rng: &mut Random) -> (r: Result<(), SimulationError>)
        requires
            old(self).wf(),
        ensures
            r is Err <==> offset_total(
                weights_of(old(self).candidates()),
                old(self).candidates().len() as int,
            ) > u64::MAX,
            r is Err ==> r == Err::<(), SimulationError>(SimulationError::WeightOverflow)
                && *final(self) == *old(self),
            final(self).wf(),
            final(self).target() == old(self).target(),
            final(self).rate() == old(self).rate(),
            final(self).bias() == old(self).bias(),
            final(self).candidates().len() == old(self).candidates().len(),
            r is Ok ==> forall|i: int|
                0 <= i < final(self).candidates().len() ==> {
                    let c = #[trigger] final(self).candidates()[i];
                    &&& bred_from(
                        c.genes@,
                        genes_of(old(self).candidates()),
                        weights_of(old(self).candidates()),
                        old(self).rate(),
                    )
                    &&& c.fitness == 0
                    &&& c.biased_fitness == 0
                },
    {
        let weights = self.selection_weights();
        assert(weights@.len() == self.candidates().len());
        let sampler = match WeightedIndices::create(&weights) {
            Ok(s) => s,
            Err(e) => {
                return Err(e);
            },
        };
        let n = self.population.len();
        let len = self.target.len();
        let rate = self.mutation_rate;
        let ghost parents = self.candidates();
        let ghost w = weights_of(parents);
        let total = sampler.total_weight();
        assert(total > 0) by {
            if n > 1 {
                assert(sampler.cumulative()[0] < sampler.cumulative()[n - 1]);
            }
        }
        assert(total == offset_total(w, n as int));
        let mut i: usize = 0;
        while i < n
            invariant
                self.wf(),
                sampler.wf(),
                sampler.len() == n,
                forall|k: int|
                    0 <= k < n ==> #[trigger] sampler.cumulative()[k] == offset_total(w, k + 1),
                total == offset_total(w, n as int),
                total > 0,
                n == self.candidates().len(),
                len == self.target().len(),
                i <= n,
                rate == self.rate(),
                self.candidates() == parents,
                w == weights_of(parents),
                self.target() == old(self).target(),
                self.rate() == old(self).rate(),
                self.bias() == old(self).bias(),
                self.next_gen_population@.len() == n,
                forall|k: int|
                    0 <= k < i ==> {
                        let c = #[trigger] self.next_gen_population@[k];
                        &&& bred_from(c.genes@, genes_of(parents), w, rate)
                        &&& c.genes@.len() == len
                        &&& c.fitness == 0
                        &&& c.biased_fitness == 0
                    },
                forall|k: int, j: int|
                    0 <= k < i && 0 <= j < len ==> is_gene_char(
                        #[trigger] self.next_gen_population@[k].genes@[j],
                    ),
            decreases n - i,
        {
            let parent_a = rng.gen_range_u64(0, total);
            let parent_b = rng.gen_range_u64(0, total);
            let cut = if len == 0 {
                0
            } else {
                rng.gen_range_usize(0..len)
            };
            let (rolls, fresh) = draw_mutation(len, rng);
            let draws = BreedingDraws { parent_a, parent_b, cut, rolls, fresh };
            let child = self.breed(&sampler, &draws);
            assert(bred_from(child.genes@, genes_of(parents), w, rate));
            self.next_gen_population.set(i, child);
            i = i + 1;
        }
        std::mem::swap(&mut self.population, &mut self.next_gen_population);
        Ok(())
    }

    /// The current candidates.
    pub fn population(&self) -> (r: &Vec<Dna>)
        ensures
            r@ == self.candidates(),
    {
        &self.population
    }

    /// The target string.
    pub fn target_term(&self) -> (r: &String)
        requires
            self.wf(),
        ensures
            r@ == self.target(),
    {
        &self.target_term
    }

    /// The characters of the target string.
    pub fn target_chars(&self) -> (r: &Vec<char>)
        ensures
            r@ == self.target(),
    {
        &self.target
    }

    /// Per-gene mutation probability, in percent.
    pub fn mutation_rate(&self) -> (r: usize)
        ensures
            r == self.rate(),
    {
        self.mutation_rate
    }

    /// The selection weight given to each raw fitness.
    pub fn bias_weights(&self) -> (r: &Vec<u64>)
        ensures
            r@ == self.bias(),
    {
        &self.bias_weights
    }
}

/// In a scored population, a candidate of full fitness exists exactly when
/// some gene sequence matches the target.
pub proof fn lemma_scored_solves(p: Population, pool: Seq<Seq<char>>)
    requires
        p.scored(),
        genes_of(p.candidates()) == pool,
    ensures
        p.solved() == solves(pool, p.target()),
{
    if p.solved() {
        let i = choose|i: int|
            0 <= i < p.candidates().len() && #[trigger] p.candidates()[i].fitness
                == p.target().len();
        assert(pool[i] == p.candidates()[i].genes@);
        assert(p.candidates()[i].fitness == fitness_of(pool[i], p.target()));
    }
    if solves(pool, p.target()) {
        let i = choose|i: int|
            0 <= i < pool.len() && fitness_of(#[trigger] pool[i], p.target()) == p.target().len();
        assert(pool[i] == p.candidates()[i].genes@);
        assert(p.candidates()[i].fitness == fitness_of(pool[i], p.target()));
    }
}

/// In a scored population the candidates' weights are those the bias table
/// gives their gene sequences.
pub proof fn lemma_scored_weights(p: Population)
    requires
        p.scored(),
    ensures
        weights_of(p.candidates()) == scored_weights(genes_of(p.candidates()), p.target(), p.bias()),
{
    assert(weights_of(p.candidates()) =~= scored_weights(genes_of(p.candidates()), p.target(), p.bias()));
}

/// Throughout a simulation every candidate is exactly as long as the target.
pub proof fn lemma_gene_lengths_match_target(p: Population)
    requires
        p.wf(),
    ensures
        forall|i: int|
            0 <= i < p.candidates().len() ==> #[trigger] p.candidates()[i].genes@.len()
                == p.target().len(),
{
}

} // verus!
