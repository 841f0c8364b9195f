use std::rc::Rc;

use dscale::bandwidth::BandwidthType;
use dscale::context::Context;
use dscale::jiffies::Jiffies;
use dscale::message::Message;
use dscale::process::ProcessHandle;
use dscale::random::Distributions;
use dscale::simulation::Status;
use dscale::simulation_builder::SimulationBuilder;
use dscale::topology::LatencyDescription;

#[derive(Clone, Copy, PartialEq, Eq, Debug)]
enum PingPong {
    Ping,
    Pong,
}

impl Message for PingPong {}

#[derive(Default)]
struct Player {
    timer: usize,
}

fn bump(ctx: &mut Context<PingPong>, key: &str) {
    dscale::kv::modify::<usize, _>(ctx.kv_mut(), key, |n| n + 1);
}

impl ProcessHandle<PingPong> for Player {
    fn start(&mut self, ctx: &mut Context<PingPong>) {
        if ctx.rank() == 1 {
            self.timer = ctx.schedule_timer_after(Jiffies(100));
        }
    }

    fn on_message(&mut self, ctx: &mut Context<PingPong>, from: usize, message: Rc<PingPong>) {
        if from == 1 && ctx.rank() == 2 {
            assert_eq!(*message, PingPong::Ping);
            bump(ctx, "pings");
            ctx.send_to(1, PingPong::Pong);
        } else if from == 2 && ctx.rank() == 1 {
            assert_eq!(*message, PingPong::Pong);
            bump(ctx, "pongs");
            ctx.send_to(2, PingPong::Ping);
        }
    }

    fn on_timer(&mut self, ctx: &mut Context<PingPong>, id: usize) {
        assert_eq!(id, self.timer);
        ctx.send_to(2, PingPong::Ping);
    }
}

#[test]
fn ping_pong_round_trip_takes_twenty_two_jiffies() {
    let mut sim = SimulationBuilder::<Player>::new()
        .add_pool("players", 2)
        .latency_topology(&[LatencyDescription::WithinPool(
            "players",
            Distributions::Uniform(Jiffies(10), Jiffies(10)),
        )])
        .nic_bandwidth(BandwidthType::Unbounded)
        .time_budget(Jiffies(100_000))
        .seed(5)
        .build::<PingPong>()
        .expect("a valid configuration");
    dscale::kv::set::<usize>(sim.kv_mut(), "pings", 0);
    dscale::kv::set::<usize>(sim.kv_mut(), "pongs", 0);

    let status = sim.run();
    assert_eq!(status, Status::BudgetReached);

    let pings = dscale::kv::get::<usize>(sim.kv(), "pings");
    let pongs = dscale::kv::get::<usize>(sim.kv(), "pongs");
    let expected = (100_000 - 100) / 22;
    assert!(pings.abs_diff(expected) <= 1, "pings = {}", pings);
    assert!(pongs.abs_diff(expected) <= 1, "pongs = {}", pongs);
    assert!(pings.abs_diff(pongs) <= 1);
    assert!(sim.now() >= Jiffies(100_000));
}
