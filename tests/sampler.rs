use monkey_evolution::error::SimulationError;
use monkey_evolution::random::Random;
use monkey_evolution::sampler::{WeightedIndices, WEIGHT_OFFSET, WEIGHT_UNIT};

#[test]
fn sampler_rejects_empty_weights() {
    assert!(matches!(WeightedIndices::create(&vec![]), Err(SimulationError::EmptyWeights)));
}

#[test]
fn sampler_rejects_overflowing_weights() {
    assert!(matches!(
        WeightedIndices::create(&vec![u64::MAX - 50, 0]),
        Err(SimulationError::WeightOverflow)
    ));
    assert!(WeightedIndices::create(&vec![u64::MAX - 2 * WEIGHT_OFFSET, 0]).is_ok());
}

#[test]
fn index_for_finds_the_interval_of_a_draw() {
    // offset weights 1100, 100, 300
    let s = WeightedIndices::create(&vec![1000, 0, 200]).ok().unwrap();
    assert_eq!(s.index_for(0), 0);
    assert_eq!(s.index_for(1099), 0);
    assert_eq!(s.index_for(1100), 1);
    assert_eq!(s.index_for(1199), 1);
    assert_eq!(s.index_for(1200), 2);
    assert_eq!(s.index_for(1499), 2);
}

#[test]
fn zero_weight_keeps_a_small_share() {
    let s = WeightedIndices::create(&vec![WEIGHT_UNIT, 0]).ok().unwrap();
    let mut rng = Random::with_seed(2024);
    let draws = 20000;
    let mut ones = 0;
    for _ in 0..draws {
        let i = s.sample(&mut rng);
        assert!(i < 2);
        if i == 1 {
            ones += 1;
        }
    }
    let share = ones as f64 / draws as f64;
    assert!(ones > 0);
    assert!((share - 0.1 / 1.2).abs() < 0.015, "share {share}");
}

#[test]
fn seeded_generators_repeat_their_draws() {
    let mut a = Random::with_seed(99);
    let mut b = Random::with_seed(99);
    let xs: Vec<usize> = (0..20).map(|_| a.gen_range_usize(0..1000)).collect();
    let ys: Vec<usize> = (0..20).map(|_| b.gen_range_usize(0..1000)).collect();
    assert_eq!(xs, ys);
}

#[test]
fn generator_draws_spread_over_the_range() {
    let mut rng = Random::new().ok().unwrap();
    let mut seen = std::collections::HashSet::new();
    for _ in 0..200 {
        let v = rng.gen_range_usize(3..10);
        assert!((3..10).contains(&v));
        seen.insert(v);
        let w = rng.gen_range_u64(5, 8);
        assert!((5..8).contains(&w));
    }
    assert!(seen.len() > 1);
}
