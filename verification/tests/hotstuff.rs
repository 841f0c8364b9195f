use std::rc::Rc;

use dscale::context::Context;
use dscale::hotstuff::ChainedHotstuff;
use dscale::hotstuff::HSMessage;
use dscale::hotstuff::Node;
use dscale::hotstuff::HOTSTUFF_POOL;
use dscale::hotstuff::LATENCY_TOTAL;
use dscale::hotstuff::ORDERED_TOTAL;
use dscale::jiffies::Jiffies;
use dscale::message::Destination;
use dscale::message::Message;
use dscale::random::Distributions;
use dscale::simulation::Status;
use dscale::simulation_builder::SimulationBuilder;
use dscale::topology::LatencyDescription;
use dscale::topology::Topology;

fn node(id: usize, parent: Option<&Rc<Node>>, creator: usize, at: usize) -> Rc<Node> {
    Rc::new(Node {
        id,
        parent: parent.cloned(),
        height: parent.map(|p| p.height + 1).unwrap_or(0),
        creator,
        creation_time: Jiffies(at),
    })
}

fn context(ranks: usize, rank: usize, now: usize) -> Context<HSMessage> {
    Context::for_process(Rc::new(Topology::new(ranks)), 1, rank, Jiffies(now))
}

#[test]
fn quorum_is_more_than_two_thirds() {
    assert_eq!(ChainedHotstuff::quorum_size(1), 1);
    assert_eq!(ChainedHotstuff::quorum_size(3), 3);
    assert_eq!(ChainedHotstuff::quorum_size(4), 3);
    assert_eq!(ChainedHotstuff::quorum_size(7), 5);
    assert_eq!(ChainedHotstuff::quorum_size(53), 36);
}

#[test]
fn proposal_on_top_of_the_lock_gets_a_vote() {
    let genesis = node(0, None, 0, 0);
    let mut process = ChainedHotstuff::new(genesis.clone());
    let mut ctx = context(4, 3, 10);
    let first = node(7, Some(&genesis), 1, 2);
    assert!(process.extends(&first));
    process.on_propose(&mut ctx, first.clone());
    let sent = ctx.drain_messages();
    assert_eq!(sent.len(), 1);
    assert_eq!(sent[0].destination, Destination::To(1 % 4 + 1));
    assert!(matches!(&*sent[0].message, HSMessage::Vote(n) if n.id == 7));
    assert_eq!(process.get_next_leader(4), 2);
    assert_eq!(sent[0].size, 0);
    assert_eq!(HSMessage::Propose(first.clone()).virtual_size(), 0);

    process.on_propose(&mut ctx, first.clone());
    assert!(ctx.drain_messages().is_empty());
    let stranger = node(99, None, 1, 2);
    assert!(!process.extends(&stranger));
    process.on_propose(&mut ctx, stranger);
    assert!(ctx.drain_messages().is_empty());
}

#[test]
fn third_node_on_top_makes_a_node_final() {
    let genesis = node(0, None, 0, 0);
    let mut process = ChainedHotstuff::new(genesis.clone());
    let mut ctx = context(4, 2, 100);
    let a = node(1, Some(&genesis), 2, 10);
    let b = node(2, Some(&a), 3, 20);
    let c = node(3, Some(&b), 2, 30);
    let d = node(4, Some(&c), 2, 40);
    for proposed in [&a, &b, &c] {
        process.on_propose(&mut ctx, proposed.clone());
        assert!(!ctx.kv().holds::<usize>(ORDERED_TOTAL));
    }
    process.on_propose(&mut ctx, d.clone());
    assert_eq!(dscale::kv::get::<usize>(ctx.kv(), ORDERED_TOTAL), 1);
    assert_eq!(dscale::kv::get::<usize>(ctx.kv(), LATENCY_TOTAL), 90);
    let e = node(5, Some(&d), 2, 50);
    let f = node(6, Some(&e), 2, 60);
    let g = node(7, Some(&f), 2, 70);
    assert_eq!(ctx.drain_messages().len(), 4);
    let mut later = context(4, 2, 200);
    dscale::kv::set::<usize>(later.kv_mut(), ORDERED_TOTAL, 1);
    dscale::kv::set::<usize>(later.kv_mut(), LATENCY_TOTAL, 90);
    process.on_propose(&mut later, g.clone());
    assert_eq!(dscale::kv::get::<usize>(later.kv(), ORDERED_TOTAL), 3);
    assert_eq!(dscale::kv::get::<usize>(later.kv(), LATENCY_TOTAL), 90 + 170 + 160);
    assert_eq!(later.drain_messages().len(), 1);
}

#[test]
fn quorum_of_votes_brings_the_next_proposal() {
    let genesis = node(0, None, 0, 0);
    let mut process = ChainedHotstuff::new(genesis.clone());
    let mut ctx = context(4, 2, 50);
    let a = node(1, Some(&genesis), 1, 10);
    process.on_vote(&mut ctx, a.clone());
    process.on_vote(&mut ctx, a.clone());
    assert!(ctx.drain_messages().is_empty());
    process.on_vote(&mut ctx, a.clone());
    let sent = ctx.drain_messages();
    assert_eq!(sent.len(), 1);
    assert_eq!(sent[0].destination, Destination::Broadcast);
    match &*sent[0].message {
        HSMessage::Propose(leaf) => {
            assert_eq!(leaf.height, 2);
            assert_eq!(leaf.creator, 2);
            assert_eq!(leaf.creation_time, Jiffies(50));
            assert_eq!(leaf.id, 0);
            assert_eq!(leaf.parent.as_ref().map(|p| p.id), Some(1));
        }
        HSMessage::Vote(_) => panic!("a proposal was expected"),
    }
    process.on_vote(&mut ctx, a.clone());
    assert!(ctx.drain_messages().is_empty());
    let other = node(9, Some(&genesis), 1, 10);
    process.on_vote(&mut ctx, other);
    assert!(ctx.drain_messages().is_empty());
}

#[test]
fn cluster_orders_nodes() {
    let mut sim = SimulationBuilder::<ChainedHotstuff>::new()
        .add_pool(HOTSTUFF_POOL, 4)
        .latency_topology(&[LatencyDescription::WithinPool(
            HOTSTUFF_POOL,
            Distributions::Uniform(Jiffies(5), Jiffies(5)),
        )])
        .seed(123)
        .time_budget(Jiffies(10_000))
        .build::<HSMessage>()
        .expect("a valid configuration");
    assert_eq!(sim.run(), Status::BudgetReached);
    let ordered = dscale::kv::get::<usize>(sim.kv(), ORDERED_TOTAL);
    let latency = dscale::kv::get::<usize>(sim.kv(), LATENCY_TOTAL);
    assert!(ordered.abs_diff(10_000 / 12) <= 5, "ordered = {}", ordered);
    assert_eq!(latency, ordered * 42);
}
