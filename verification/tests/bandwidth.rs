use std::rc::Rc;

use dscale::bandwidth::BandwidthQueue;
use dscale::bandwidth::BandwidthQueueOptions;
use dscale::bandwidth::BandwidthType;
use dscale::jiffies::Jiffies;
use dscale::latency::LatencyQueue;
use dscale::message::Letter;
use dscale::message::RoutedMessage;
use dscale::random::Distributions;
use dscale::random::Randomizer;
use dscale::topology::LatencyDescription;
use dscale::topology::Topology;

fn topology(ranks: usize, d: Distributions) -> Rc<Topology> {
    let mut topology = Topology::new(ranks);
    topology.add_pool("all", (1..=ranks).collect());
    assert_eq!(topology.configure(&LatencyDescription::WithinPool("all", d)), Ok(()));
    Rc::new(topology)
}

fn network(bandwidth: BandwidthType, ranks: usize) -> BandwidthQueue<u32> {
    let d = Distributions::Uniform(Jiffies(0), Jiffies(0));
    let latency = LatencyQueue::new(Randomizer::new(7), topology(ranks, d));
    BandwidthQueue::new(bandwidth, ranks, latency)
}

fn message(at: usize, source: usize, dest: usize, size: usize, tag: u32) -> RoutedMessage<u32> {
    RoutedMessage {
        arrival_time: Jiffies(at),
        step: Letter { source, dest, size, message: Rc::new(tag) },
    }
}

/// Runs the queue dry and returns what it handed out: (instant, dest, tag).
fn deliveries(queue: &mut BandwidthQueue<u32>) -> Vec<(usize, usize, u32)> {
    let mut out = Vec::new();
    loop {
        match queue.pop() {
            BandwidthQueueOptions::Idle => break,
            BandwidthQueueOptions::MessageArrivedByLatency => {}
            BandwidthQueueOptions::Delivered(m) => {
                out.push((m.arrival_time.0, m.step.dest, *m.step.message));
            }
        }
    }
    out
}

#[test]
fn unbounded_delivers_at_the_arrival_instant() {
    let mut queue = network(BandwidthType::Unbounded, 2);
    queue.push_with_latency(message(5, 1, 2, 1000, 1), 10);
    queue.push_with_latency(message(5, 1, 2, 1_000_000, 2), 3);
    queue.push_with_latency(message(0, 2, 1, 0, 3), 0);
    assert_eq!(queue.peek_closest(), Some(Jiffies(0)));
    assert_eq!(deliveries(&mut queue), vec![(0, 1, 3), (8, 2, 2), (15, 2, 1)]);
    assert_eq!(queue.peek_closest(), None);
}

#[test]
fn burst_leaves_at_i_times_size_over_rate() {
    let (t, s, b, k) = (100usize, 7usize, 3usize, 6usize);
    let mut queue = network(BandwidthType::Bounded(b), 2);
    for i in 0..k {
        queue.push_with_latency(message(t, 1, 2, s, i as u32), 0);
    }
    let expected: Vec<(usize, usize, u32)> =
        (1..=k).map(|i| (t + (i * s) / b, 2, (i - 1) as u32)).collect();
    assert_eq!(deliveries(&mut queue), expected);
    assert_eq!(queue.buffered_bytes(2), 0);
}

#[test]
fn rate_equal_to_size_spaces_messages_one_jiffy_apart() {
    let mut queue = network(BandwidthType::Bounded(1000), 2);
    for i in 0..5 {
        queue.push_with_latency(message(50, 1, 2, 1000, i), 0);
    }
    let out = deliveries(&mut queue);
    assert_eq!(out, vec![(51, 2, 0), (52, 2, 1), (53, 2, 2), (54, 2, 3), (55, 2, 4)]);
    for pair in out.windows(2) {
        assert_eq!(pair[1].0 - pair[0].0, 1);
    }
}

#[test]
fn small_message_does_not_overtake_large_one() {
    let mut queue = network(BandwidthType::Bounded(10), 2);
    queue.push_with_latency(message(0, 1, 2, 1000, 1), 0);
    queue.push_with_latency(message(1, 1, 2, 1, 2), 0);
    assert_eq!(deliveries(&mut queue), vec![(100, 2, 1), (101, 2, 2)]);
}

#[test]
fn interfaces_do_not_share_their_buffers() {
    let mut queue = network(BandwidthType::Bounded(10), 3);
    queue.push_with_latency(message(0, 1, 2, 100, 1), 0);
    queue.push_with_latency(message(0, 1, 3, 20, 2), 0);
    assert!(matches!(queue.pop(), BandwidthQueueOptions::MessageArrivedByLatency));
    assert_eq!(queue.buffered_bytes(2), 100);
    assert_eq!(queue.buffered_bytes(3), 0);
    assert!(matches!(queue.pop(), BandwidthQueueOptions::MessageArrivedByLatency));
    assert_eq!(queue.buffered_bytes(3), 20);
    assert_eq!(deliveries(&mut queue), vec![(2, 3, 2), (10, 2, 1)]);
    assert_eq!(queue.buffered_bytes(2), 0);
    assert_eq!(queue.buffered_bytes(3), 0);
}

#[test]
fn arrival_goes_before_delivery_at_the_same_instant() {
    let mut queue = network(BandwidthType::Bounded(1), 2);
    queue.push_with_latency(message(0, 1, 2, 5, 1), 0);
    queue.push_with_latency(message(5, 1, 2, 0, 2), 0);
    assert!(matches!(queue.pop(), BandwidthQueueOptions::MessageArrivedByLatency));
    assert_eq!(queue.peek_closest(), Some(Jiffies(5)));
    assert!(matches!(queue.pop(), BandwidthQueueOptions::MessageArrivedByLatency));
    assert_eq!(queue.buffered_bytes(2), 5);
    assert_eq!(deliveries(&mut queue), vec![(5, 2, 1), (10, 2, 2)]);
}

#[test]
fn a_later_arrival_can_leave_before_an_earlier_one() {
    let mut queue = network(BandwidthType::Bounded(1), 2);
    queue.push_with_latency(message(0, 1, 2, 100, 0), 0);
    queue.push_with_latency(message(99, 1, 2, 1, 1), 0);
    queue.push_with_latency(message(101, 1, 2, 1, 2), 0);
    assert_eq!(deliveries(&mut queue), vec![(100, 2, 0), (103, 2, 2), (200, 2, 1)]);
}

#[test]
fn drawn_latency_lies_in_the_range_of_the_link() {
    let d = Distributions::Uniform(Jiffies(10), Jiffies(20));
    let mut latency: LatencyQueue<u32> = LatencyQueue::new(Randomizer::new(1), topology(2, d));
    for i in 0..100 {
        assert!(latency.push(message(1000, 1, 2, 0, i)).is_none());
    }
    let mut previous = 0;
    let mut sizes = 0;
    while let Some(m) = latency.pop() {
        assert!((1010..=1020).contains(&m.arrival_time.0));
        assert!(previous <= m.arrival_time.0);
        previous = m.arrival_time.0;
        sizes += 1;
    }
    assert_eq!(sizes, 100);
    assert_eq!(latency.peek(), None);
}

#[test]
fn message_without_a_link_comes_back() {
    let d = Distributions::Uniform(Jiffies(1), Jiffies(1));
    let mut latency: LatencyQueue<u32> = LatencyQueue::new(Randomizer::new(1), topology(2, d));
    let back = latency.push(message(0, 1, 3, 0, 9)).expect("no link to rank 3");
    assert_eq!(back.step.dest, 3);
    assert_eq!(*back.step.message, 9);
    assert_eq!(latency.peek(), None);
    let normal = Distributions::Normal(Jiffies(5), Jiffies(1));
    let mut real: LatencyQueue<u32> = LatencyQueue::new(Randomizer::new(1), topology(2, normal));
    assert!(real.push(message(0, 1, 2, 0, 9)).is_some());
    real.push_with_latency(message(0, 1, 2, 0, 9), 4);
    assert_eq!(real.peek(), Some(Jiffies(4)));
}

#[test]
fn latency_is_capped_at_the_largest_instant() {
    let mut queue = network(BandwidthType::Unbounded, 2);
    queue.push_with_latency(message(usize::MAX - 1, 1, 2, 0, 1), 5);
    assert_eq!(deliveries(&mut queue), vec![(usize::MAX, 2, 1)]);
}

#[test]
fn timers_fire_in_order_of_their_instants() {
    let mut timers = dscale::timer::TimerManager::new();
    timers.start();
    assert_eq!(timers.peek_closest(), None);
    let mut events = vec![(1, 10, Jiffies(30)), (2, 11, Jiffies(5)), (1, 12, Jiffies(5))];
    timers.submit(&mut events, Jiffies(100));
    assert!(events.is_empty());
    assert_eq!(timers.peek_closest(), Some(Jiffies(105)));
    assert_eq!(timers.step(), Some((2, 11)));
    assert_eq!(timers.step(), Some((1, 12)));
    assert_eq!(timers.peek_closest(), Some(Jiffies(130)));
    assert_eq!(timers.step(), Some((1, 10)));
    assert_eq!(timers.step(), None);
}
