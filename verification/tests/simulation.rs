use std::cell::RefCell;
use std::rc::Rc;

use dscale::bandwidth::BandwidthType;
use dscale::context::Access;
use dscale::context::Context;
use dscale::jiffies::Jiffies;
use dscale::message::Message;
use dscale::process::ProcessHandle;
use dscale::random::Distributions;
use dscale::random::Probability;
use dscale::simulation::Actor;
use dscale::simulation::Simulation;
use dscale::simulation::Status;
use dscale::simulation_builder::BuildError;
use dscale::simulation_builder::SimulationBuilder;
use dscale::topology::LatencyDescription;
use rand::Rng;

/// (instant, receiver, what happened)
type Log = Rc<RefCell<Vec<(usize, usize, String)>>>;

#[derive(Clone, Copy, PartialEq, Eq, Debug)]
struct Data {
    size: usize,
    tag: usize,
}

impl Message for Data {
    fn virtual_size(&self) -> usize {
        self.size
    }
}

/// A process that only writes down what happens to it.
struct Quiet {
    log: Log,
}

impl ProcessHandle<Data> for Quiet {
    fn start(&mut self, ctx: &mut Context<Data>) {
        self.log.borrow_mut().push((ctx.now().0, ctx.rank(), "start".to_string()));
    }

    fn on_message(&mut self, ctx: &mut Context<Data>, from: usize, message: Rc<Data>) {
        self.log
            .borrow_mut()
            .push((ctx.now().0, ctx.rank(), format!("message {} from {}", message.tag, from)));
    }

    fn on_timer(&mut self, ctx: &mut Context<Data>, id: usize) {
        self.log.borrow_mut().push((ctx.now().0, ctx.rank(), format!("timer {}", id)));
    }
}

fn quiet(log: &Log, count: usize) -> Vec<Quiet> {
    (0..count).map(|_| Quiet { log: log.clone() }).collect()
}

fn uniform(low: usize, high: usize) -> Distributions {
    Distributions::Uniform(Jiffies(low), Jiffies(high))
}

#[test]
fn self_ping_deadlock() {
    let log: Log = Log::default();
    let mut sim = SimulationBuilder::new()
        .add_pool_with("solo", quiet(&log, 1))
        .time_budget(Jiffies(10))
        .build::<Data>()
        .expect("a valid configuration");
    assert_eq!(sim.peek_closest(), None);
    assert_eq!(sim.run(), Status::Deadlock);
    assert_eq!(sim.now(), Jiffies(0));
    assert_eq!(sim.metrics().events_total, 0);
    assert_eq!(*log.borrow(), vec![(0, 1, "start".to_string())]);
}

#[test]
fn zero_budget_returns_before_any_event() {
    let log: Log = Log::default();
    let mut sim = SimulationBuilder::new()
        .add_pool_with("solo", vec![Sender { log: log.clone(), every: 1, to: 1, size: 0, left: 5 }])
        .latency_topology(&[LatencyDescription::WithinPool("solo", uniform(1, 1))])
        .time_budget(Jiffies(0))
        .build::<Data>()
        .expect("a valid configuration");
    assert_eq!(sim.run(), Status::BudgetReached);
    assert_eq!(sim.now(), Jiffies(0));
    assert_eq!(sim.metrics().events_total, 0);
    assert!(log.borrow().is_empty());
    assert_eq!(sim.peek_closest(), Some((Jiffies(1), Actor::Timers)));
}

/// Sends a message of `size` bytes to `to` every `every` jiffies.
struct Sender {
    log: Log,
    every: usize,
    to: usize,
    size: usize,
    left: usize,
}

impl ProcessHandle<Data> for Sender {
    fn start(&mut self, ctx: &mut Context<Data>) {
        if self.left > 0 {
            ctx.schedule_timer_after(Jiffies(self.every));
        }
    }

    fn on_message(&mut self, ctx: &mut Context<Data>, from: usize, message: Rc<Data>) {
        self.log
            .borrow_mut()
            .push((ctx.now().0, ctx.rank(), format!("message {} from {}", message.tag, from)));
    }

    fn on_timer(&mut self, ctx: &mut Context<Data>, _id: usize) {
        ctx.send_to(self.to, Data { size: self.size, tag: self.left });
        self.left -= 1;
        if self.left > 0 {
            ctx.schedule_timer_after(Jiffies(self.every));
        }
    }
}

fn saturation(bandwidth: BandwidthType, budget: usize) -> usize {
    let log: Log = Log::default();
    let mut sim = SimulationBuilder::new()
        .add_pool_with(
            "senders",
            vec![Sender { log: log.clone(), every: 1, to: 2, size: 1000, left: usize::MAX }],
        )
        .add_pool_with(
            "receivers",
            vec![Sender { log: log.clone(), every: 1, to: 2, size: 0, left: 0 }],
        )
        .nic_bandwidth(bandwidth)
        .latency_topology(&[LatencyDescription::BetweenPools(
            "senders",
            "receivers",
            uniform(10, 10),
        )])
        .time_budget(Jiffies(budget))
        .seed(42)
        .build::<Data>()
        .expect("a valid configuration");
    assert_eq!(sim.run(), Status::BudgetReached);
    let received = log.borrow().iter().filter(|entry| entry.1 == 2).count();
    received
}

#[test]
fn bandwidth_saturation() {
    let budget = 10_000;
    let bounded = saturation(BandwidthType::Bounded(1), budget);
    let unbounded = saturation(BandwidthType::Unbounded, budget);
    assert!(bounded.abs_diff(budget / 1000) <= 1, "bounded = {}", bounded);
    assert!(unbounded.abs_diff(budget) <= 12, "unbounded = {}", unbounded);
    assert!(bounded < unbounded);
}

#[test]
fn message_sent_at_t_arrives_after_t() {
    let log: Log = Log::default();
    let mut sim = SimulationBuilder::new()
        .add_pool_with(
            "pair",
            vec![
                Sender { log: log.clone(), every: 7, to: 2, size: 0, left: 1 },
                Sender { log: log.clone(), every: 7, to: 1, size: 0, left: 0 },
            ],
        )
        .latency_topology(&[LatencyDescription::WithinPool("pair", uniform(0, 0))])
        .time_budget(Jiffies(100))
        .build::<Data>()
        .expect("a valid configuration");
    assert_eq!(sim.run(), Status::Deadlock);
    assert_eq!(*log.borrow(), vec![(8, 2, "message 1 from 1".to_string())]);
    assert_eq!(sim.now(), Jiffies(8));
    assert_eq!(sim.metrics().events_total, 2);
}

/// Broadcasts `rounds` times, once per jiffy, if it is the origin.
struct Broadcaster {
    log: Log,
    origin: bool,
    rounds: usize,
}

impl ProcessHandle<Data> for Broadcaster {
    fn start(&mut self, ctx: &mut Context<Data>) {
        if self.origin {
            ctx.schedule_timer_after(Jiffies(1));
        }
    }

    fn on_message(&mut self, ctx: &mut Context<Data>, from: usize, message: Rc<Data>) {
        self.log
            .borrow_mut()
            .push((ctx.now().0, ctx.rank(), format!("message {} from {}", message.tag, from)));
    }

    fn on_timer(&mut self, ctx: &mut Context<Data>, _id: usize) {
        ctx.broadcast(Data { size: 10, tag: self.rounds });
        self.rounds -= 1;
        if self.rounds > 0 {
            ctx.schedule_timer_after(Jiffies(1));
        }
    }
}

fn normal_draw(sim: &mut Simulation<Data, Broadcaster>, mean: Jiffies, std_dev: Jiffies) -> usize {
    let distribution =
        rand_distr::Normal::new(mean.0 as f64, std_dev.0 as f64).expect("valid parameters");
    let real: f64 = sim.randomizer().generator().sample(distribution);
    real.max(0.0).round() as usize
}

fn broadcast_run(seed: u64, d: Distributions) -> (Vec<(usize, usize, String)>, Status, usize) {
    let log: Log = Log::default();
    let mut procs = vec![Broadcaster { log: log.clone(), origin: true, rounds: 10 }];
    for _ in 0..4 {
        procs.push(Broadcaster { log: log.clone(), origin: false, rounds: 0 });
    }
    let mut sim = SimulationBuilder::new()
        .add_pool_with("ring", procs)
        .latency_topology(&[LatencyDescription::WithinPool("ring", d)])
        .nic_bandwidth(BandwidthType::Bounded(5))
        .time_budget(Jiffies(1_000_000))
        .seed(seed)
        .build::<Data>()
        .expect("a valid configuration");
    let mut draws = 0;
    let status = loop {
        match sim.run() {
            Status::NeedsRealDraw { mean, std_dev } => {
                let latency = normal_draw(&mut sim, mean, std_dev);
                assert!(sim.supply_latency(latency));
                draws += 1;
            }
            other => break other,
        }
    };
    let entries = log.borrow().clone();
    (entries, status, draws)
}

#[test]
fn broadcast_determinism() {
    let normal = Distributions::Normal(Jiffies(50), Jiffies(10));
    let (first, status, draws) = broadcast_run(123, normal);
    let (second, _, _) = broadcast_run(123, normal);
    assert_eq!(status, Status::Deadlock);
    assert_eq!(draws, 50);
    assert_eq!(first.len(), 50);
    assert_eq!(first, second);
    for rank in 1..=5usize {
        assert_eq!(first.iter().filter(|entry| entry.1 == rank).count(), 10);
    }
    let mut previous = 0;
    for entry in &first {
        assert!(previous <= entry.0);
        previous = entry.0;
    }
    let (other, _, _) = broadcast_run(124, normal);
    assert_ne!(first, other);
}

#[test]
fn uniform_runs_with_the_same_seed_agree() {
    let d = uniform(0, 40);
    let (first, status, draws) = broadcast_run(9, d);
    let (second, _, _) = broadcast_run(9, d);
    assert_eq!(status, Status::Deadlock);
    assert_eq!(draws, 0);
    assert_eq!(first.len(), 50);
    assert_eq!(first, second);
}

#[test]
fn rank_deterministic_iteration() {
    let log: Log = Log::default();
    let mut sim = SimulationBuilder::new()
        .add_pool_with("zebras", quiet(&log, 60))
        .add_pool_with("apes", quiet(&log, 40))
        .time_budget(Jiffies(1))
        .build::<Data>()
        .expect("a valid configuration");
    sim.start();
    let started: Vec<usize> = log.borrow().iter().map(|entry| entry.1).collect();
    assert_eq!(started, (1..=100).collect::<Vec<usize>>());
    sim.start();
    assert_eq!(log.borrow().len(), 100);
}

#[test]
fn clock_never_moves_back() {
    let log: Log = Log::default();
    let half = Probability::new(1, 2).expect("a probability");
    let mut procs = vec![Broadcaster { log: log.clone(), origin: true, rounds: 30 }];
    for _ in 0..6 {
        procs.push(Broadcaster { log: log.clone(), origin: false, rounds: 0 });
    }
    let mut sim = SimulationBuilder::new()
        .add_pool_with("all", procs)
        .latency_topology(&[LatencyDescription::WithinPool(
            "all",
            Distributions::Bernoulli(half, Jiffies(13)),
        )])
        .nic_bandwidth(BandwidthType::Bounded(3))
        .time_budget(Jiffies(10_000))
        .seed(77)
        .build::<Data>()
        .expect("a valid configuration");
    sim.start();
    let mut previous = sim.now();
    let mut steps = 0;
    loop {
        let status = sim.step();
        assert!(previous <= sim.now());
        previous = sim.now();
        match status {
            Status::Running => steps += 1,
            Status::Deadlock => break,
            other => panic!("unexpected status {:?}", other),
        }
    }
    assert_eq!(log.borrow().len(), 30 * 7);
    assert_eq!(sim.metrics().events_total, 30 * 7 + 30);
    assert_eq!(steps, 30 * 7 * 2 + 30);
}

#[test]
fn network_goes_before_timers_at_the_same_instant() {
    struct Racer {
        log: Log,
    }
    impl ProcessHandle<Data> for Racer {
        fn start(&mut self, ctx: &mut Context<Data>) {
            ctx.schedule_timer_after(Jiffies(5));
            ctx.send_self(Data { size: 0, tag: 1 });
        }
        fn on_message(&mut self, ctx: &mut Context<Data>, _from: usize, _message: Rc<Data>) {
            self.log.borrow_mut().push((ctx.now().0, ctx.rank(), "message".to_string()));
        }
        fn on_timer(&mut self, ctx: &mut Context<Data>, _id: usize) {
            self.log.borrow_mut().push((ctx.now().0, ctx.rank(), "timer".to_string()));
        }
    }
    let log: Log = Log::default();
    let mut sim = SimulationBuilder::new()
        .add_pool_with("solo", vec![Racer { log: log.clone() }])
        .latency_topology(&[LatencyDescription::WithinPool("solo", uniform(4, 4))])
        .time_budget(Jiffies(100))
        .build::<Data>()
        .expect("a valid configuration");
    sim.start();
    assert_eq!(sim.settle(), Status::Running);
    assert_eq!(sim.peek_closest(), Some((Jiffies(5), Actor::Network)));
    assert_eq!(sim.run(), Status::Deadlock);
    assert_eq!(
        *log.borrow(),
        vec![(5, 1, "message".to_string()), (5, 1, "timer".to_string())]
    );
}

#[test]
fn message_over_a_missing_link_stops_the_run() {
    let log: Log = Log::default();
    let mut sim = SimulationBuilder::new()
        .add_pool_with(
            "one",
            vec![Sender { log: log.clone(), every: 1, to: 2, size: 0, left: 1 }],
        )
        .add_pool_with("two", quiet_sender(&log))
        .latency_topology(&[LatencyDescription::WithinPool("one", uniform(1, 1))])
        .time_budget(Jiffies(100))
        .build::<Data>()
        .expect("a valid configuration");
    assert_eq!(sim.run(), Status::Unroutable { from: 1, to: 2 });
    assert_eq!(sim.run(), Status::Unroutable { from: 1, to: 2 });
    assert!(!sim.supply_latency(3));
    assert!(log.borrow().is_empty());
}

fn quiet_sender(log: &Log) -> Vec<Sender> {
    vec![Sender { log: log.clone(), every: 1, to: 1, size: 0, left: 0 }]
}

#[test]
fn builder_reports_configuration_errors() {
    let log: Log = Log::default();
    let unknown = SimulationBuilder::new()
        .add_pool_with("one", quiet(&log, 1))
        .latency_topology(&[LatencyDescription::WithinPool("two", uniform(1, 1))])
        .build::<Data>();
    assert_eq!(unknown.err(), Some(BuildError::UnknownPool));
    let invalid = SimulationBuilder::new()
        .add_pool_with("one", quiet(&log, 1))
        .latency_topology(&[LatencyDescription::WithinPool("one", uniform(2, 1))])
        .build::<Data>();
    assert_eq!(invalid.err(), Some(BuildError::InvalidDistribution));
    let zero = SimulationBuilder::new()
        .add_pool_with("one", quiet(&log, 1))
        .nic_bandwidth(BandwidthType::Bounded(0))
        .build::<Data>();
    assert_eq!(zero.err(), Some(BuildError::ZeroBandwidth));
    let seed = SimulationBuilder::new()
        .add_pool_with("one", quiet(&log, 1))
        .seed(u64::MAX)
        .build::<Data>();
    assert_eq!(seed.err(), Some(BuildError::SeedTooLarge));
    let first_error_wins = SimulationBuilder::new()
        .add_pool_with("one", quiet(&log, 1))
        .latency_topology(&[
            LatencyDescription::WithinPool("one", uniform(2, 1)),
            LatencyDescription::WithinPool("two", uniform(1, 1)),
        ])
        .build::<Data>();
    assert_eq!(first_error_wins.err(), Some(BuildError::InvalidDistribution));
}

#[test]
fn builder_defaults_and_global_pool() {
    #[derive(Default)]
    struct Asker {
        seen: usize,
    }
    impl ProcessHandle<Data> for Asker {
        fn start(&mut self, ctx: &mut Context<Data>) {
            let everyone = ctx.list_pool("global_pool").expect("the pool of all").clone();
            assert_eq!(everyone, vec![1, 2, 3, 4, 5]);
            assert_eq!(ctx.list_pool("front"), Some(&vec![1, 2]));
            assert_eq!(ctx.list_pool("back"), Some(&vec![3, 4, 5]));
            assert!(ctx.list_pool("side").is_none());
            assert_eq!(ctx.process_number(), 5);
            assert_eq!(ctx.seed(), 69 + ctx.rank() as u64);
            assert_eq!(ctx.configuration().proc_num, 5);
            assert_eq!(ctx.configuration().seed, 69 + ctx.rank() as u64);
            assert_eq!(ctx.current_time(), Jiffies(0));
            let id = ctx.global_unique_id();
            assert_eq!(id, ctx.rank() - 1);
            assert!(ctx.has_unique_id());
            self.seen = id;
        }
        fn on_message(&mut self, _ctx: &mut Context<Data>, _from: usize, _message: Rc<Data>) {}
        fn on_timer(&mut self, _ctx: &mut Context<Data>, _id: usize) {}
    }
    let mut sim = SimulationBuilder::<Asker>::new()
        .add_pool("front", 2)
        .add_pool("back", 3)
        .build::<Data>()
        .expect("a valid configuration");
    assert_eq!(sim.time_budget(), Jiffies(1_000_000));
    assert_eq!(dscale::configuration::process_number(sim.kv()), 5);
    assert_eq!(dscale::configuration::seed(sim.kv(), 4), 73);
    assert_eq!(sim.run(), Status::Deadlock);
}

#[test]
fn send_random_from_pool_reaches_a_member() {
    struct Picker {
        log: Log,
    }
    impl ProcessHandle<Data> for Picker {
        fn start(&mut self, ctx: &mut Context<Data>) {
            if ctx.rank() == 1 {
                for tag in 0..40 {
                    ctx.send_random_from_pool("targets", Data { size: 0, tag });
                }
            }
        }
        fn on_message(&mut self, ctx: &mut Context<Data>, from: usize, _message: Rc<Data>) {
            assert_eq!(from, 1);
            self.log.borrow_mut().push((ctx.now().0, ctx.rank(), "hit".to_string()));
        }
        fn on_timer(&mut self, _ctx: &mut Context<Data>, _id: usize) {}
    }
    let log: Log = Log::default();
    let mut sim = SimulationBuilder::new()
        .add_pool_with("source", vec![Picker { log: log.clone() }])
        .add_pool_with(
            "targets",
            vec![
                Picker { log: log.clone() },
                Picker { log: log.clone() },
                Picker { log: log.clone() },
            ],
        )
        .latency_topology(&[LatencyDescription::BetweenPools("source", "targets", uniform(2, 2))])
        .time_budget(Jiffies(100))
        .build::<Data>()
        .expect("a valid configuration");
    assert_eq!(sim.run(), Status::Deadlock);
    let hits: Vec<usize> = log.borrow().iter().map(|entry| entry.1).collect();
    assert_eq!(hits.len(), 40);
    assert!(hits.iter().all(|rank| (2..=4).contains(rank)));
    assert!(hits.iter().any(|rank| *rank != hits[0]));
}

#[test]
fn teardown_leaves_an_empty_run() {
    let log: Log = Log::default();
    let mut sim = SimulationBuilder::new()
        .add_pool_with(
            "pair",
            vec![
                Sender { log: log.clone(), every: 3, to: 2, size: 0, left: 4 },
                Sender { log: log.clone(), every: 3, to: 1, size: 0, left: 4 },
            ],
        )
        .latency_topology(&[LatencyDescription::WithinPool("pair", uniform(1, 9))])
        .time_budget(Jiffies(10))
        .build::<Data>()
        .expect("a valid configuration");
    dscale::kv::set::<usize>(sim.kv_mut(), "mark", 1);
    assert_eq!(sim.run(), Status::BudgetReached);
    assert!(sim.now() >= Jiffies(10));
    assert!(sim.peek_closest().is_some());
    sim.teardown();
    assert_eq!(sim.now(), Jiffies(0));
    assert_eq!(sim.metrics().events_total, 0);
    assert_eq!(sim.peek_closest(), None);
    assert!(!sim.kv().holds::<usize>("mark"));
    assert!(!sim.kv().holds::<usize>("proc_num"));
    assert_eq!(sim.run(), Status::Deadlock);
}
