//! Candidates: fixed-length gene strings over a fixed alphabet, with the
//! operations that score and breed them.
use crate::random::Random;
use vstd::prelude::*;

verus! {

/// Number of characters in the alphabet genes are drawn from.
pub const CHARSET_LEN: usize = 66;

/// The punctuation and space characters of the alphabet, in order.
pub open spec fn special_symbols() -> Seq<char> {
    seq![' ', '-', '(', ')', '[', ']', '"', '\'', '/', '.', ',', '_', '!', ':']
}

/// The alphabet: the special symbols, then `a`..=`z`, then `A`..=`Z`.
pub open spec fn charset() -> Seq<char> {
    special_symbols() + Seq::new(26, |i: int| ((97 + i) as u8) as char) + Seq::new(
        26,
        |i: int| ((65 + i) as u8) as char,
    )
}

/// A character genes may hold.
pub open spec fn is_gene_char(c: char) -> bool {
    charset().contains(c)
}

/// Builds the alphabet in order.
pub fn generate_charset() -> (r: Vec<char>)
    ensures
        r@ == charset(),
        r@.len() == CHARSET_LEN,
{
    let mut set: Vec<char> = vec![' ', '-', '(', ')', '[', ']', '"', '\'', '/', '.', ',', '_', '!', ':'];
    assert(set@ == special_symbols());
    let mut i: u8 = 0;
    while i < 26
        invariant
            i <= 26,
            set@ == special_symbols() + Seq::new(i as nat, |k: int| ((97 + k) as u8) as char),
        decreases 26 - i,
    {
        set.push((97u8 + i) as char);
        i = i + 1;
        assert(set@ =~= special_symbols() + Seq::new(i as nat, |k: int| ((97 + k) as u8) as char));
    }
    let ghost lower = Seq::new(26, |k: int| ((97 + k) as u8) as char);
    let mut i: u8 = 0;
    while i < 26
        invariant
            i <= 26,
            set@ == special_symbols() + lower + Seq::new(i as nat, |k: int| ((65 + k) as u8) as char),
        decreases 26 - i,
    {
        set.push((65u8 + i) as char);
        i = i + 1;
        assert(set@ =~= special_symbols() + lower + Seq::new(
            i as nat,
            |k: int| ((65 + k) as u8) as char,
        ));
    }
    set
}

/// A character drawn uniformly from the alphabet.
pub fn gen_random_char(rng: &mut Random) -> (c: char)
    ensures
        is_gene_char(c),
{
    let k = rng.gen_range_usize(0..CHARSET_LEN);
    let c = gene_char_at(k);
    assert(charset().contains(c)) by {
        assert(charset()[k as int] == c);
    }
    c
}

/// The alphabet character at position `k`.
pub fn gene_char_at(k: usize) -> (c: char)
    requires
        k < CHARSET_LEN,
    ensures
        c == charset()[k as int],
{
    if k < 14 {
        let symbols: Vec<char> = vec![' ', '-', '(', ')', '[', ']', '"', '\'', '/', '.', ',', '_', '!', ':'];
        assert(symbols@ == special_symbols());
        symbols[k]
    } else if k < 40 {
        (97u8 + (k - 14) as u8) as char
    } else {
        (65u8 + (k - 40) as u8) as char
    }
}


/// Number of positions below `n` where `genes` and `target` hold the same character.
pub open spec fn matches_below(genes: Seq<char>, target: Seq<char>, n: int) -> nat
    decreases n,
{
    if n <= 0 {
        0
    } else {
        matches_below(genes, target, n - 1) + (if genes[n - 1] == target[n - 1] {
            1nat
        } else {
            0nat
        })
    }
}

/// The fitness of `genes` against `target`: the count of index-wise matches.
pub open spec fn fitness_of(genes: Seq<char>, target: Seq<char>) -> nat {
    matches_below(genes, target, target.len() as int)
}

/// A match count never exceeds the number of positions counted.
pub proof fn lemma_matches_below_bounded(genes: Seq<char>, target: Seq<char>, n: int)
    requires
        0 <= n,
    ensures
        matches_below(genes, target, n) <= n,
    decreases n,
{
    if n > 0 {
        lemma_matches_below_bounded(genes, target, n - 1);
    }
}

/// A fitness lies between zero and the target's length.
pub proof fn lemma_fitness_in_range(genes: Seq<char>, target: Seq<char>)
    ensures
        0 <= fitness_of(genes, target) <= target.len(),
{
    lemma_matches_below_bounded(genes, target, target.len() as int);
}

/// Every position matches when the genes equal the target.
pub proof fn lemma_matches_below_equal(target: Seq<char>, n: int)
    requires
        0 <= n,
    ensures
        matches_below(target, target, n) == n,
    decreases n,
{
    if n > 0 {
        lemma_matches_below_equal(target, n - 1);
    }
}

/// All `n` positions match only when the first `n` genes equal the target's.
pub proof fn lemma_matches_below_full(genes: Seq<char>, target: Seq<char>, n: int)
    requires
        0 <= n,
        matches_below(genes, target, n) == n,
    ensures
        forall|i: int| 0 <= i < n ==> genes[i] == target[i],
    decreases n,
{
    if n > 0 {
        lemma_matches_below_bounded(genes, target, n - 1);
        lemma_matches_below_full(genes, target, n - 1);
    }
}

/// A candidate has full fitness exactly when its genes equal the target.
pub proof fn lemma_full_fitness_iff_equal(genes: Seq<char>, target: Seq<char>)
    requires
        genes.len() == target.len(),
    ensures
        fitness_of(genes, target) == target.len() <==> genes == target,
{
    if fitness_of(genes, target) == target.len() {
        lemma_matches_below_full(genes, target, target.len() as int);
        assert(genes =~= target);
    }
    if genes == target {
        lemma_matches_below_equal(target, target.len() as int);
    }
}

/// The child of single-point crossover with cut point `m`: positions after `m`
/// come from `a`, the others from `b`.
pub open spec fn crossed(a: Seq<char>, b: Seq<char>, m: int) -> Seq<char> {
    Seq::new(a.len(), |i: int| if i > m { a[i] } else { b[i] })
}

/// `child` is `genes` after mutation at rate `rate`: each gene is kept or
/// replaced by an alphabet character; nothing changes at rate 0 and every gene
/// is a fresh alphabet character at rate 100 or more.
pub open spec fn mutation_of(child: Seq<char>, genes: Seq<char>, rate: usize) -> bool {
    &&& child.len() == genes.len()
    &&& forall|i: int| 0 <= i < child.len() ==> child[i] == genes[i] || is_gene_char(child[i])
    &&& rate == 0 ==> child == genes
    &&& rate >= 100 ==> forall|i: int| 0 <= i < child.len() ==> is_gene_char(#[trigger] child[i])
}

/// `genes` after mutation with the given draws: gene `i` becomes `fresh[i]`
/// when `rolls[i] < rate` and is kept otherwise.
pub open spec fn mutated(genes: Seq<char>, rolls: Seq<usize>, fresh: Seq<char>, rate: usize) -> Seq<
    char,
> {
    Seq::new(genes.len(), |i: int| if rolls[i] < rate { fresh[i] } else { genes[i] })
}

/// Draws fit for mutating `len` genes: one roll in `[0, 100)` and one alphabet
/// character per gene.
pub open spec fn mutation_draws_fit(rolls: Seq<usize>, fresh: Seq<char>, len: nat) -> bool {
    &&& rolls.len() == len
    &&& fresh.len() == len
    &&& forall|i: int| 0 <= i < len ==> #[trigger] rolls[i] < 100 && is_gene_char(fresh[i])
}

/// Mutation with fitting draws keeps the length, changes nothing at rate 0
/// and replaces every gene by a drawn alphabet character at rate 100.
pub proof fn lemma_mutated_is_mutation(
    genes: Seq<char>,
    rolls: Seq<usize>,
    fresh: Seq<char>,
    rate: usize,
)
    requires
        mutation_draws_fit(rolls, fresh, genes.len()),
    ensures
        mutation_of(mutated(genes, rolls, fresh, rate), genes, rate),
        rate >= 100 ==> mutated(genes, rolls, fresh, rate) == fresh,
{
    let child = mutated(genes, rolls, fresh, rate);
    assert forall|i: int| 0 <= i < child.len() implies child[i] == genes[i] || is_gene_char(
        child[i],
    ) by {
        assert(rolls[i] < 100);
    }
    assert forall|i: int| 0 <= i < child.len() implies rate >= 100 ==> is_gene_char(
        #[trigger] child[i],
    ) by {
        assert(rolls[i] < 100);
    }
    if rate == 0 {
        assert(child =~= genes);
    }
    if rate >= 100 {
        assert forall|i: int| 0 <= i < child.len() implies child[i] == fresh[i] by {
            assert(rolls[i] < 100);
        }
        assert(child =~= fresh);
    }
}

/// Draws the mutation of `len` genes: a roll in `[0, 100)` and a uniformly
/// drawn alphabet character for each gene.
pub fn draw_mutation(len: usize, rng: &mut Random) -> (r: (Vec<usize>, Vec<char>))
    ensures
        mutation_draws_fit(r.0@, r.1@, len as nat),
{
    let mut rolls: Vec<usize> = Vec::with_capacity(len);
    let mut fresh: Vec<char> = Vec::with_capacity(len);
    let mut i: usize = 0;
    while i < len
        invariant
            i <= len,
            mutation_draws_fit(rolls@, fresh@, i as nat),
        decreases len - i,
    {
        rolls.push(rng.gen_range_usize(0..100));
        fresh.push(gen_random_char(rng));
        i = i + 1;
    }
    (rolls, fresh)
}

/// One candidate solution.
pub struct Dna {
    pub genes: Vec<char>,
    /// Count of positions matching the target, as last computed.
    pub fitness: usize,
    /// Selection weight derived from `fitness`, as last computed.
    pub biased_fitness: u64,
}

impl Dna {
    /// A candidate of `num_genes` uniformly drawn alphabet characters, with
    /// zero fitness.
    pub fn crate_random_genes(num_genes: usize, rng: &mut Random) -> (r: Dna)
        ensures
            r.genes@.len() == num_genes,
            forall|i: int| 0 <= i < num_genes ==> is_gene_char(#[trigger] r.genes@[i]),
            r.fitness == 0,
            r.biased_fitness == 0,
    {
        let mut genes: Vec<char> = Vec::with_capacity(num_genes);
        let mut i: usize = 0;
        while i < num_genes
            invariant
                i <= num_genes,
                genes@.len() == i,
                forall|k: int| 0 <= k < i ==> is_gene_char(#[trigger] genes@[k]),
            decreases num_genes - i,
        {
            let c = gen_random_char(rng);
            genes.push(c);
            i = i + 1;
        }
        Dna { genes, fitness: 0, biased_fitness: 0 }
    }

    /// Counts the positions where the genes match `target_term`, stores the
    /// count as the fitness and returns it.
    pub fn compute_fitness(&mut self, target_term: &Vec<char>) -> (r: usize)
        requires
            old(self).genes@.len() == target_term@.len(),
        ensures
            r == fitness_of(old(self).genes@, target_term@),
            r <= target_term@.len(),
            final(self).fitness == r,
            final(self).genes == old(self).genes,
            final(self).biased_fitness == old(self).biased_fitness,
    {
        let mut count: usize = 0;
        let mut i: usize = 0;
        while i < target_term.len()
            invariant
                i <= target_term@.len(),
                self.genes@.len() == target_term@.len(),
                count == matches_below(self.genes@, target_term@, i as int),
            decreases target_term@.len() - i,
        {
            proof {
                lemma_matches_below_bounded(self.genes@, target_term@, i as int);
            }
            if self.genes[i] == target_term[i] {
                count = count + 1;
            }
            i = i + 1;
        }
        proof {
            lemma_matches_below_bounded(self.genes@, target_term@, i as int);
        }
        self.fitness = count;
        count
    }

    /// The child of `partner_a` and `partner_b` cut after position `midpoint`:
    /// genes after the cut come from `partner_a`, the rest from `partner_b`.
    pub fn crossover_at(partner_a: &Dna, partner_b: &Dna, midpoint: usize) -> (r: Dna)
        requires
            partner_a.genes@.len() == partner_b.genes@.len(),
        ensures
            r.genes@ == crossed(partner_a.genes@, partner_b.genes@, midpoint as int),
            r.fitness == 0,
            r.biased_fitness == 0,
    {
        let len = partner_a.genes.len();
        let mut genes: Vec<char> = Vec::with_capacity(len);
        let mut i: usize = 0;
        while i < len
            invariant
                i <= len,
                len == partner_a.genes@.len(),
                len == partner_b.genes@.len(),
                genes@ == crossed(partner_a.genes@, partner_b.genes@, midpoint as int).take(i as int),
            decreases len - i,
        {
            if i > midpoint {
                genes.push(partner_a.genes[i]);
            } else {
                genes.push(partner_b.genes[i]);
            }
            i = i + 1;
            assert(genes@ =~= crossed(partner_a.genes@, partner_b.genes@, midpoint as int).take(
                i as int,
            ));
        }
        assert(genes@ =~= crossed(partner_a.genes@, partner_b.genes@, midpoint as int));
        Dna { genes, fitness: 0, biased_fitness: 0 }
    }

    /// Single-point crossover with a uniformly drawn cut point in
    /// `[0, length)`; every child gene comes from one of the parents at the
    /// same position.
    pub fn crossover(partner_a: &Dna, partner_b: &Dna, rng: &mut Random) -> (r: Dna)
        requires
            partner_a.genes@.len() == partner_b.genes@.len(),
        ensures
            exists|m: int|
                0 <= m && (m < partner_a.genes@.len() || m == 0) && r.genes@ == crossed(
                    partner_a.genes@,
                    partner_b.genes@,
                    m,
                ),
            r.genes@.len() == partner_a.genes@.len(),
            forall|i: int|
                0 <= i < r.genes@.len() ==> #[trigger] r.genes@[i] == partner_a.genes@[i]
                    || r.genes@[i] == partner_b.genes@[i],
            r.fitness == 0,
            r.biased_fitness == 0,
    {
        let len = partner_a.genes.len();
        let midpoint = if len == 0 {
            0
        } else {
            rng.gen_range_usize(0..len)
        };
        let child = Dna::crossover_at(partner_a, partner_b, midpoint);
        assert(child.genes@ == crossed(partner_a.genes@, partner_b.genes@, midpoint as int));
        child
    }

    /// Mutation with the given draws: gene `i` becomes `fresh[i]` when
    /// `rolls[i] < mutation_rate` and is kept otherwise.
    pub fn mutate_with(&mut self, rolls: &Vec<usize>, fresh: &Vec<char>, mutation_rate: usize)
        requires
            rolls@.len() == old(self).genes@.len(),
            fresh@.len() == old(self).genes@.len(),
        ensures
            final(self).genes@ == mutated(old(self).genes@, rolls@, fresh@, mutation_rate),
            final(self).fitness == old(self).fitness,
            final(self).biased_fitness == old(self).biased_fitness,
    {
        let ghost start = self.genes@;
        let mut i: usize = 0;
        while i < self.genes.len()
            invariant
                i <= self.genes@.len(),
                self.genes@.len() == start.len(),
                rolls@.len() == start.len(),
                fresh@.len() == start.len(),
                self.fitness == old(self).fitness,
                self.biased_fitness == old(self).biased_fitness,
                forall|k: int| i <= k < start.len() ==> self.genes@[k] == start[k],
                forall|k: int|
                    0 <= k < i ==> self.genes@[k] == mutated(start, rolls@, fresh@, mutation_rate)[k],
            decreases start.len() - i,
        {
            if rolls[i] < mutation_rate {
                self.genes.set(i, fresh[i]);
            }
            i = i + 1;
        }
        assert(self.genes@ =~= mutated(start, rolls@, fresh@, mutation_rate));
    }

    /// Replaces each gene, independently with probability `mutation_rate / 100`,
    /// by a uniformly drawn alphabet character.
    pub fn mutate(&mut self, mutation_rate: usize, rng: &mut Random)
        ensures
            mutation_of(final(self).genes@, old(self).genes@, mutation_rate),
            exists|rolls: Seq<usize>, fresh: Seq<char>|
                mutation_draws_fit(rolls, fresh, old(self).genes@.len()) && final(self).genes@
                    == #[trigger] mutated(old(self).genes@, rolls, fresh, mutation_rate),
            final(self).fitness == old(self).fitness,
            final(self).biased_fitness == old(self).biased_fitness,
    {
        let (rolls, fresh) = draw_mutation(self.genes.len(), rng);
        self.mutate_with(&rolls, &fresh, mutation_rate);
        proof {
            lemma_mutated_is_mutation(old(self).genes@, rolls@, fresh@, mutation_rate);
        }
    }
}

} // verus!
