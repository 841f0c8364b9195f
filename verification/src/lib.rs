//! A deterministic discrete-event simulator for distributed protocols.
//!
//! Processes exchange messages over a simulated network with a latency
//! topology and a per-node bandwidth limit. Simulated time only ever jumps
//! to the instant of the next scheduled event.

pub mod bandwidth;
pub mod bcb;
pub mod clock;
pub mod combiner;
pub mod configuration;
pub mod context;
pub mod dag;
pub mod hotstuff;
pub mod jiffies;
pub mod kv;
pub mod latency;
pub mod message;
pub mod metrics;
pub mod network;
pub mod process;
pub mod progress;
pub mod queue;
pub mod random;
pub mod simulation;
pub mod simulation_builder;
pub mod text;
pub mod timer;
pub mod topology;
pub mod tso;

pub use crate::bandwidth::BandwidthType;
pub use crate::combiner::Combiner;
pub use crate::configuration::Configuration;
pub use crate::context::Access;
pub use crate::context::Context;
pub use crate::jiffies::Jiffies;
pub use crate::message::Destination;
pub use crate::message::Message;
pub use crate::process::ProcessHandle;
pub use crate::random::Distributions;
pub use crate::random::Probability;
pub use crate::random::Randomizer;
pub use crate::simulation::Simulation;
pub use crate::simulation::Status;
pub use crate::simulation_builder::SimulationBuilder;
pub use crate::timer::TimerId;
pub use crate::topology::LatencyDescription;
pub use crate::topology::Rank;
pub use crate::topology::GLOBAL_POOL;
