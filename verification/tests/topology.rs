use dscale::jiffies::Jiffies;
use dscale::random::Distributions;
use dscale::topology::LatencyDescription;
use dscale::topology::Topology;
use dscale::topology::TopologyError;
use dscale::topology::GLOBAL_POOL;

fn uniform(low: usize, high: usize) -> Distributions {
    Distributions::Uniform(Jiffies(low), Jiffies(high))
}

#[test]
fn fresh_topology_has_no_pool_and_no_link() {
    let topology = Topology::new(3);
    assert_eq!(topology.proc_num(), 3);
    assert!(topology.list_pool("anything").is_none());
    for from in 0..5 {
        for to in 0..5 {
            assert!(!topology.has_distribution(from, to));
        }
    }
}

#[test]
fn within_pool_covers_every_ordered_pair_and_self_pairs() {
    let mut topology = Topology::new(4);
    topology.add_pool("left", vec![1, 2]);
    topology.add_pool("right", vec![3, 4]);
    let d = uniform(1, 5);
    assert_eq!(topology.configure(&LatencyDescription::WithinPool("left", d)), Ok(()));
    for from in 1..=4usize {
        for to in 1..=4usize {
            assert_eq!(topology.has_distribution(from, to), from <= 2 && to <= 2);
            if from <= 2 && to <= 2 {
                assert_eq!(topology.get_distribution(from, to), d);
            }
        }
    }
    assert!(topology.has_distribution(1, 1));
    assert_eq!(topology.get_distribution(1, 1), d);
}

#[test]
fn between_pools_is_symmetric() {
    let mut topology = Topology::new(4);
    topology.add_pool("left", vec![1, 2]);
    topology.add_pool("right", vec![3, 4]);
    let d = uniform(10, 20);
    assert_eq!(
        topology.configure(&LatencyDescription::BetweenPools("left", "right", d)),
        Ok(())
    );
    assert!(topology.has_distribution(1, 3));
    assert_eq!(topology.get_distribution(1, 3), d);
    assert!(topology.has_distribution(3, 1));
    assert_eq!(topology.get_distribution(3, 1), d);
    assert!(topology.has_distribution(2, 4));
    assert_eq!(topology.get_distribution(2, 4), d);
    assert!(topology.has_distribution(4, 2));
    assert_eq!(topology.get_distribution(4, 2), d);
    assert!(!topology.has_distribution(1, 2));
    assert!(!topology.has_distribution(3, 4));
    assert!(!topology.has_distribution(1, 1));
}

#[test]
fn later_description_overrides_earlier() {
    let mut topology = Topology::new(2);
    topology.add_pool("all", vec![1, 2]);
    assert_eq!(topology.configure(&LatencyDescription::WithinPool("all", uniform(1, 1))), Ok(()));
    assert_eq!(topology.configure(&LatencyDescription::WithinPool("all", uniform(2, 2))), Ok(()));
    assert!(topology.has_distribution(1, 2));
    assert_eq!(topology.get_distribution(1, 2), uniform(2, 2));
}

#[test]
fn unknown_pool_and_bad_distribution_are_turned_down() {
    let mut topology = Topology::new(2);
    topology.add_pool("all", vec![1, 2]);
    assert_eq!(
        topology.configure(&LatencyDescription::WithinPool("nobody", uniform(1, 1))),
        Err(TopologyError::UnknownPool)
    );
    assert_eq!(
        topology.configure(&LatencyDescription::BetweenPools("all", "nobody", uniform(1, 1))),
        Err(TopologyError::UnknownPool)
    );
    assert_eq!(
        topology.configure(&LatencyDescription::WithinPool("all", uniform(5, 1))),
        Err(TopologyError::InvalidDistribution)
    );
    assert!(!topology.has_distribution(1, 2));
}

#[test]
fn pools_are_listed_by_name() {
    let mut topology = Topology::new(3);
    topology.add_pool(GLOBAL_POOL, vec![1, 2, 3]);
    topology.add_pool("pair", vec![2, 3]);
    assert_eq!(topology.list_pool(GLOBAL_POOL), Some(&vec![1, 2, 3]));
    assert_eq!(topology.list_pool("global_pool"), Some(&vec![1, 2, 3]));
    assert_eq!(topology.list_pool("pair"), Some(&vec![2, 3]));
    assert_eq!(topology.list_pool("pai"), None);
    topology.add_pool("pair", vec![1]);
    assert_eq!(topology.list_pool("pair"), Some(&vec![1]));
}
