use dscale::jiffies::Jiffies;
use dscale::random::Distributions;
use dscale::random::Probability;
use dscale::random::Randomizer;

#[test]
fn uniform_over_one_point_gives_that_point() {
    let mut randomizer = Randomizer::new(1);
    for a in [0usize, 1, 7, 1_000_000] {
        for _ in 0..50 {
            let d = Distributions::Uniform(Jiffies(a), Jiffies(a));
            assert_eq!(randomizer.random_usize(d), Some(a));
        }
    }
}

#[test]
fn uniform_samples_stay_in_range_and_vary() {
    let mut randomizer = Randomizer::new(42);
    let d = Distributions::Uniform(Jiffies(10), Jiffies(20));
    let mut seen = std::collections::BTreeSet::new();
    for _ in 0..500 {
        let sample = randomizer.random_usize(d).expect("an integer distribution");
        assert!((10..=20).contains(&sample));
        seen.insert(sample);
    }
    assert!(seen.len() > 1);
    assert!(seen.contains(&10) || seen.contains(&20) || seen.len() > 5);
}

#[test]
fn bernoulli_with_probability_one_gives_the_value() {
    let mut randomizer = Randomizer::new(3);
    let d = Distributions::Bernoulli(Probability::always(), Jiffies(50));
    for _ in 0..200 {
        assert_eq!(randomizer.random_usize(d), Some(50));
    }
    let whole = Probability::new(7, 7).expect("a probability");
    for _ in 0..200 {
        assert_eq!(randomizer.random_usize(Distributions::Bernoulli(whole, Jiffies(9))), Some(9));
    }
}

#[test]
fn bernoulli_with_probability_zero_gives_zero() {
    let mut randomizer = Randomizer::new(3);
    let d = Distributions::Bernoulli(Probability::never(), Jiffies(50));
    for _ in 0..200 {
        assert_eq!(randomizer.random_usize(d), Some(0));
    }
}

#[test]
fn bernoulli_in_between_gives_both() {
    let mut randomizer = Randomizer::new(11);
    let half = Probability::new(1, 2).expect("a probability");
    let d = Distributions::Bernoulli(half, Jiffies(8));
    let mut hits = 0;
    let mut misses = 0;
    for _ in 0..400 {
        match randomizer.random_usize(d) {
            Some(8) => hits += 1,
            Some(0) => misses += 1,
            other => panic!("unexpected sample {:?}", other),
        }
    }
    assert!(hits > 0 && misses > 0);
}

#[test]
fn probability_must_lie_between_zero_and_one() {
    assert!(Probability::new(1, 0).is_none());
    assert!(Probability::new(3, 2).is_none());
    assert_eq!(
        Probability::new(2, 3),
        Some(Probability { numerator: 2, denominator: 3 })
    );
    assert!(Distributions::Uniform(Jiffies(1), Jiffies(2)).is_well_formed());
    assert!(!Distributions::Uniform(Jiffies(2), Jiffies(1)).is_well_formed());
    assert!(!Distributions::Bernoulli(
        Probability { numerator: 2, denominator: 1 },
        Jiffies(1)
    )
    .is_well_formed());
    assert!(Distributions::Normal(Jiffies(2), Jiffies(1)).is_well_formed());
}

#[test]
fn normal_is_not_drawn_by_the_library() {
    let mut first = Randomizer::new(9);
    let mut second = Randomizer::new(9);
    let normal = Distributions::Normal(Jiffies(50), Jiffies(10));
    assert_eq!(first.random_usize(normal), None);
    let d = Distributions::Uniform(Jiffies(0), Jiffies(1_000_000));
    assert_eq!(first.random_usize(d), second.random_usize(d));
}

#[test]
fn same_seed_same_stream() {
    let mut first = Randomizer::new(2024);
    let mut second = Randomizer::new(2024);
    let d = Distributions::Uniform(Jiffies(0), Jiffies(1_000_000));
    let a: Vec<Option<usize>> = (0..100).map(|_| first.random_usize(d)).collect();
    let b: Vec<Option<usize>> = (0..100).map(|_| second.random_usize(d)).collect();
    assert_eq!(a, b);
    let mut third = Randomizer::new(2025);
    let c: Vec<Option<usize>> = (0..100).map(|_| third.random_usize(d)).collect();
    assert_ne!(a, c);
}

#[test]
fn choose_picks_an_element_of_the_slice() {
    let mut randomizer = Randomizer::new(5);
    let from = [3usize, 5, 8];
    let mut seen = std::collections::BTreeSet::new();
    for _ in 0..200 {
        let chosen = randomizer.choose_from_slice(&from);
        assert!(from.contains(&chosen));
        seen.insert(chosen);
    }
    assert_eq!(seen.len(), 3);
    assert_eq!(randomizer.choose_from_slice(&[77u8]), 77);
}
