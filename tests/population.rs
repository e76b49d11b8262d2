use monkey_evolution::error::SimulationError;
use monkey_evolution::form::{unbiased_weights, PopulationForm};
use monkey_evolution::population::{BreedingDraws, Population};
use monkey_evolution::sampler::WeightedIndices;
use monkey_evolution::random::Random;
use monkey_evolution::store::PopulationStore;
use monkey_evolution::sweep::{sweep_configurations, total_generations_taken_to_simulate};

fn genes(s: &PopulationStore, i: usize) -> String {
    s.candidates()[i].genes.iter().collect()
}

fn build(target: &str, rate: usize, size: usize, seed: u64) -> PopulationStore {
    let form = PopulationForm { target_term: target.to_string(), mutation_rate: rate, population_size: size };
    form.create_simulation(&mut Random::with_seed(seed)).ok().unwrap()
}

#[test]
fn new_population_has_requested_shape() {
    let mut rng = Random::with_seed(5);
    let p = Population::new("Hello World".to_string(), 4, 50, unbiased_weights(11), &mut rng)
        .ok()
        .unwrap();
    assert_eq!(p.population().len(), 50);
    assert!(p.population().iter().all(|c| c.genes.len() == 11));
    assert_eq!(p.target_term(), "Hello World");
    assert_eq!(p.mutation_rate(), 4);
    assert_eq!(p.bias_weights().len(), 12);
}

#[test]
fn new_population_reports_invalid_configuration() {
    let mut rng = Random::with_seed(5);
    assert!(matches!(
        Population::new("ab".to_string(), 4, 0, unbiased_weights(2), &mut rng),
        Err(SimulationError::EmptyPopulation)
    ));
    assert!(matches!(
        Population::new("ab".to_string(), 101, 3, unbiased_weights(2), &mut rng),
        Err(SimulationError::MutationRateOutOfRange)
    ));
    assert!(matches!(
        Population::new("ab".to_string(), 4, 3, unbiased_weights(3), &mut rng),
        Err(SimulationError::BiasLengthMismatch)
    ));
    let form = PopulationForm { target_term: "x".to_string(), mutation_rate: 1, population_size: 0 };
    assert!(matches!(form.create_simulation(&mut rng), Err(SimulationError::EmptyPopulation)));
}

#[test]
fn unbiased_weights_are_fitness_units() {
    assert_eq!(unbiased_weights(3), vec![0, 1000, 2000, 3000]);
    assert_eq!(unbiased_weights(0), vec![0]);
}

#[test]
fn scoring_sets_fitness_and_weight() {
    let mut rng = Random::with_seed(8);
    let mut p = Population::new("abc".to_string(), 0, 6, vec![7, 70, 700, 7000], &mut rng)
        .ok()
        .unwrap();
    p.compute_biased_fitness();
    let target: Vec<char> = "abc".chars().collect();
    for c in p.population() {
        let f = (0..3).filter(|&i| c.genes[i] == target[i]).count();
        assert_eq!(c.fitness, f);
        assert_eq!(c.biased_fitness, [7, 70, 700, 7000][f]);
    }
}

#[test]
fn generation_keeps_size_and_gene_length() {
    let mut rng = Random::with_seed(9);
    let mut p = Population::new("Hello".to_string(), 5, 20, unbiased_weights(5), &mut rng)
        .ok()
        .unwrap();
    for _ in 0..30 {
        p.compute_biased_fitness();
        assert!(p.population().iter().all(|c| c.fitness <= 5));
        assert!(p.update_generation(&mut rng).is_ok());
        assert_eq!(p.population().len(), 20);
        assert!(p.population().iter().all(|c| c.genes.len() == 5 && c.fitness == 0));
    }
}

#[test]
fn generation_without_mutation_only_recombines_parents() {
    let mut rng = Random::with_seed(10);
    let mut p = Population::new("abcdef".to_string(), 0, 5, unbiased_weights(6), &mut rng)
        .ok()
        .unwrap();
    p.compute_biased_fitness();
    let before: Vec<Vec<char>> = p.population().iter().map(|c| c.genes.clone()).collect();
    assert!(p.update_generation(&mut rng).is_ok());
    for child in p.population() {
        for i in 0..6 {
            assert!(before.iter().any(|g| g[i] == child.genes[i]));
        }
    }
}

#[test]
fn generation_reports_weight_overflow_and_keeps_state() {
    let mut rng = Random::with_seed(11);
    let mut p = Population::new("ab".to_string(), 0, 3, vec![u64::MAX, u64::MAX, u64::MAX], &mut rng)
        .ok()
        .unwrap();
    p.compute_biased_fitness();
    let before: Vec<Vec<char>> = p.population().iter().map(|c| c.genes.clone()).collect();
    assert!(matches!(p.update_generation(&mut rng), Err(SimulationError::WeightOverflow)));
    let after: Vec<Vec<char>> = p.population().iter().map(|c| c.genes.clone()).collect();
    assert_eq!(before, after);
}

#[test]
fn finished_flag_matches_a_perfect_candidate() {
    let mut s = build("ab", 3, 30, 12);
    for _ in 0..200 {
        s.compute_biased_fitness();
        let perfect = s.candidates().iter().any(|c| c.fitness == 2);
        assert_eq!(s.has_finished(), perfect);
        let best = s.best_candidate();
        let top = s.candidates().iter().map(|c| c.fitness).max().unwrap();
        assert_eq!(s.candidates()[best].fitness, top);
        assert!(s.candidates()[..best].iter().all(|c| c.fitness < top));
        if perfect {
            return;
        }
        assert!(s.update_generation(&mut Random::with_seed(13)).is_ok());
    }
}

#[test]
fn empty_target_finishes_at_once() {
    let mut s = build("", 10, 4, 1);
    let mut rng = Random::with_seed(1);
    assert!(s.simulate_generation(&mut rng).is_ok());
    assert!(s.has_finished());
    assert_eq!(s.generation_counter(), 0);
    assert_eq!(s.best_generation_fitness(), &vec![0]);
    let r = total_generations_taken_to_simulate("", 10, 4, unbiased_weights(0), 100, &mut rng);
    assert!(matches!(r, Ok((Some(0), _))));
}

#[test]
fn two_letter_target_is_reached_without_mutation() {
    // With no mutation only genes present at the start can spread, so look for
    // starting populations that hold an 'A' first and a 'B' second.
    let mut solved = 0;
    for seed in 0..20000u64 {
        let mut s = build("AB", 0, 4, seed);
        let has_a = (0..4).any(|i| s.candidates()[i].genes[0] == 'A');
        let has_b = (0..4).any(|i| s.candidates()[i].genes[1] == 'B');
        if !(has_a && has_b) {
            continue;
        }
        let mut rng = Random::with_seed(seed);
        for _ in 0..2000 {
            assert!(s.simulate_generation(&mut rng).is_ok());
            if s.has_finished() {
                break;
            }
        }
        if s.has_finished() {
            assert_eq!(genes(&s, s.best_candidate()), "AB");
            solved += 1;
        }
        if solved == 3 {
            break;
        }
    }
    assert_eq!(solved, 3);
}

#[test]
fn finished_simulation_does_not_change() {
    let mut s = build("", 0, 3, 2);
    let mut rng = Random::with_seed(3);
    assert!(s.simulate_generation(&mut rng).is_ok());
    assert!(s.has_finished());
    let observe = |s: &PopulationStore| {
        (
            s.generation_counter(),
            s.has_finished(),
            s.best_candidate(),
            s.best_generation_fitness().clone(),
            s.candidates().iter().map(|c| (c.genes.clone(), c.fitness)).collect::<Vec<_>>(),
        )
    };
    let first = observe(&s);
    assert!(s.simulate_generation(&mut rng).is_ok());
    let second = observe(&s);
    assert!(s.simulate_generation(&mut rng).is_ok());
    assert!(s.update_generation(&mut rng).is_ok());
    assert_eq!(first, second);
    assert_eq!(second, observe(&s));
}

#[test]
fn simulation_records_best_fitness_per_generation() {
    let bias: Vec<u64> = (0..6u32).map(|f| 1000 * 4u64.pow(f)).collect();
    let mut rng = Random::with_seed(21);
    let p = Population::new("Hello".to_string(), 2, 100, bias, &mut rng).ok().unwrap();
    let mut s = PopulationStore::from_population(p);
    let mut steps = 0;
    while !s.has_finished() && steps < 3000 {
        assert!(s.simulate_generation(&mut rng).is_ok());
        steps += 1;
    }
    assert!(s.has_finished());
    assert_eq!(genes(&s, s.best_candidate()), "Hello");
    assert_eq!(s.best_generation_fitness().len(), steps);
    assert_eq!(*s.best_generation_fitness().last().unwrap(), 5);
    assert_eq!(s.generation_counter(), steps - 1);
}

#[test]
fn run_to_completion_counts_generations() {
    let mut rng = Random::with_seed(4);
    let (g, s) = total_generations_taken_to_simulate("monkey", 3, 60, unbiased_weights(6), 5000, &mut rng)
        .ok()
        .unwrap();
    let n = g.unwrap();
    assert!(n <= 5000);
    assert!(s.has_finished());
    assert_eq!(s.generation_counter(), n);
    assert_eq!(genes(&s, s.best_candidate()), "monkey");
    assert_eq!(s.best_generation_fitness().len(), n + 1);
    assert!(s.best_generation_fitness()[..n].iter().all(|&f| f < 6));
    let (g, s) = total_generations_taken_to_simulate("monkey", 3, 60, unbiased_weights(6), 0, &mut rng)
        .ok()
        .unwrap();
    let solved = s.candidates().iter().any(|c| c.fitness == 6);
    assert_eq!(g.is_some(), solved);
    assert_eq!(s.generation_counter(), 0);
    assert!(matches!(g, None | Some(0)));
    let r = total_generations_taken_to_simulate("monkey", 3, 0, unbiased_weights(6), 10, &mut rng);
    assert!(matches!(r, Err(SimulationError::EmptyPopulation)));
}

#[test]
fn sweep_lists_every_configuration_rate_major() {
    assert_eq!(sweep_configurations((1, 3), (5, 7)), vec![(1, 5), (1, 6), (2, 5), (2, 6)]);
    assert_eq!(sweep_configurations((3, 3), (5, 7)), vec![]);
    assert_eq!(sweep_configurations((4, 2), (5, 7)), vec![]);
    assert_eq!(sweep_configurations((0, 2), (7, 5)), vec![]);
}

#[test]
fn form_validity_follows_the_entry_rules() {
    let form = |t: &str, r: usize, n: usize| PopulationForm { target_term: t.to_string(), mutation_rate: r, population_size: n };
    assert!(form("Hello World", 4, 50).is_valid_form_state());
    assert!(form("a", 100, 10).is_valid_form_state());
    assert!(form("a", 0, 1000).is_valid_form_state());
    assert!(!form("", 4, 50).is_valid_form_state());
    assert!(!form("a", 101, 50).is_valid_form_state());
    assert!(!form("a", 4, 9).is_valid_form_state());
    assert!(!form("a", 4, 1001).is_valid_form_state());
}

#[test]
fn breed_follows_the_given_draws() {
    let mut rng = Random::with_seed(30);
    let mut p = Population::new("abcd".to_string(), 50, 3, vec![0, 0, 0, 0, 0], &mut rng).ok().unwrap();
    p.compute_biased_fitness();
    // all weights are 0, so the offset weights are 100 each: draws 0..100 pick 0, 100..200 pick 1, 200..300 pick 2
    let weights: Vec<u64> = p.population().iter().map(|c| c.biased_fitness).collect();
    let sampler = WeightedIndices::create(&weights).ok().unwrap();
    let draws = BreedingDraws {
        parent_a: 250,
        parent_b: 120,
        cut: 1,
        rolls: vec![99, 99, 10, 60],
        fresh: vec!['W', 'X', 'Y', 'Z'],
    };
    let child = p.breed(&sampler, &draws);
    let a = &p.population()[2].genes;
    let b = &p.population()[1].genes;
    assert_eq!(child.genes, vec![b[0], b[1], 'Y', a[3]]);
    assert_eq!(child.fitness, 0);
}

#[test]
fn step_reports_weight_overflow_of_an_unsolved_cohort() {
    let mut rng = Random::with_seed(40);
    let p = Population::new("abcdefgh".to_string(), 1, 3, vec![u64::MAX; 9], &mut rng).ok().unwrap();
    let mut s = PopulationStore::from_population(p);
    let r = s.simulate_generation(&mut rng);
    assert!(matches!(r, Err(SimulationError::WeightOverflow)));
    assert!(!s.has_finished());
    assert_eq!(s.generation_counter(), 0);
    assert!(s.best_generation_fitness().is_empty());
    let r = total_generations_taken_to_simulate("abcdefgh", 1, 3, vec![u64::MAX; 9], 10, &mut rng);
    assert!(matches!(r, Err(SimulationError::WeightOverflow)));
}

#[test]
fn new_simulation_starts_at_index_zero_with_empty_history() {
    let s = build("Hello", 4, 20, 41);
    assert_eq!(s.best_candidate(), 0);
    assert!(s.best_generation_fitness().is_empty());
    assert_eq!(s.generation_counter(), 0);
    assert!(s.candidates().iter().all(|c| c.fitness == 0 && c.biased_fitness == 0));
}
