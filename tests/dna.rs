use monkey_evolution::dna::{gen_random_char, gene_char_at, generate_charset, Dna, CHARSET_LEN};
use monkey_evolution::random::Random;

fn dna(s: &str) -> Dna {
    Dna { genes: s.chars().collect(), fitness: 0, biased_fitness: 0 }
}

fn text(d: &Dna) -> String {
    d.genes.iter().collect()
}

#[test]
fn charset_holds_symbols_then_lower_then_upper() {
    let set = generate_charset();
    assert_eq!(set.len(), CHARSET_LEN);
    assert_eq!(set.len(), 66);
    assert_eq!(set[0], ' ');
    assert_eq!(set[13], ':');
    assert_eq!(set[14], 'a');
    assert_eq!(set[39], 'z');
    assert_eq!(set[40], 'A');
    assert_eq!(set[65], 'Z');
}

#[test]
fn random_char_is_in_charset() {
    let set = generate_charset();
    let mut rng = Random::with_seed(7);
    for _ in 0..500 {
        assert!(set.contains(&gen_random_char(&mut rng)));
    }
}

#[test]
fn random_genes_have_requested_length() {
    let set = generate_charset();
    let mut rng = Random::with_seed(1);
    let d = Dna::crate_random_genes(25, &mut rng);
    assert_eq!(d.genes.len(), 25);
    assert!(d.genes.iter().all(|c| set.contains(c)));
    assert_eq!(d.fitness, 0);
    assert_eq!(d.biased_fitness, 0);
    assert_eq!(Dna::crate_random_genes(0, &mut rng).genes.len(), 0);
}

#[test]
fn fitness_counts_matching_positions() {
    let target: Vec<char> = "Hello".chars().collect();
    let mut d = dna("Hxllo");
    assert_eq!(d.compute_fitness(&target), 4);
    assert_eq!(d.fitness, 4);
    let mut none = dna("aaaaa");
    assert_eq!(none.compute_fitness(&target), 0);
    let mut all = dna("Hello");
    assert_eq!(all.compute_fitness(&target), 5);
    let mut empty = dna("");
    assert_eq!(empty.compute_fitness(&Vec::new()), 0);
}

#[test]
fn crossover_at_takes_tail_from_first_parent() {
    let a = dna("AAAA");
    let b = dna("BBBB");
    assert_eq!(text(&Dna::crossover_at(&a, &b, 1)), "BBAA");
    assert_eq!(text(&Dna::crossover_at(&a, &b, 0)), "BAAA");
    assert_eq!(text(&Dna::crossover_at(&a, &b, 3)), "BBBB");
}

#[test]
fn crossover_genes_come_from_either_parent() {
    let a = dna("abcdefgh");
    let b = dna("ABCDEFGH");
    let mut rng = Random::with_seed(3);
    let mut cuts = std::collections::HashSet::new();
    for _ in 0..200 {
        let child = Dna::crossover(&a, &b, &mut rng);
        assert_eq!(child.genes.len(), 8);
        for i in 0..8 {
            assert!(child.genes[i] == a.genes[i] || child.genes[i] == b.genes[i]);
        }
        assert_eq!(child.genes[0], 'A');
        cuts.insert(text(&child));
    }
    assert!(cuts.len() > 1);
}

#[test]
fn mutate_at_rate_zero_keeps_genes() {
    let mut rng = Random::with_seed(11);
    let mut d = dna("unchanged genes here");
    d.mutate(0, &mut rng);
    assert_eq!(text(&d), "unchanged genes here");
}

#[test]
fn mutate_at_rate_hundred_redraws_every_gene() {
    let set = generate_charset();
    let mut rng = Random::with_seed(12);
    let original = "~".repeat(200);
    let mut d = dna(&original);
    d.mutate(100, &mut rng);
    assert_eq!(d.genes.len(), 200);
    assert!(d.genes.iter().all(|c| set.contains(c)));
}

#[test]
fn mutate_at_partial_rate_changes_some_genes() {
    let mut rng = Random::with_seed(13);
    let mut d = dna(&"~".repeat(1000));
    d.mutate(50, &mut rng);
    let changed = d.genes.iter().filter(|c| **c != '~').count();
    assert!(changed > 350 && changed < 650);
}

#[test]
fn gene_char_at_matches_the_charset() {
    let set = generate_charset();
    for k in 0..CHARSET_LEN {
        assert_eq!(gene_char_at(k), set[k]);
    }
    assert_eq!(gene_char_at(7), '\'');
    assert_eq!(gene_char_at(20), 'g');
    assert_eq!(gene_char_at(45), 'F');
}

#[test]
fn mutate_with_replaces_genes_whose_roll_is_below_the_rate() {
    let mut d = dna("abcd");
    d.fitness = 3;
    d.mutate_with(&vec![0, 40, 39, 99], &vec!['W', 'X', 'Y', 'Z'], 40);
    assert_eq!(text(&d), "WbYd");
    assert_eq!(d.fitness, 3);
    let mut e = dna("abcd");
    e.mutate_with(&vec![0, 40, 39, 99], &vec!['W', 'X', 'Y', 'Z'], 100);
    assert_eq!(text(&e), "WXYZ");
    let mut f = dna("abcd");
    f.mutate_with(&vec![0, 0, 0, 0], &vec!['W', 'X', 'Y', 'Z'], 0);
    assert_eq!(text(&f), "abcd");
}
