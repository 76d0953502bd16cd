//! An adaptive network load generator's core: the engine that drives a
//! population of concurrent connection units against a target endpoint,
//! shapes the load (a fixed population, or an automatic concurrency
//! ramp-up), reports per-connection latency as a stream of samples, and
//! obeys pause, resume and stop commands.
//!
//! The engine's decisions are a pure state machine ([`benchmark`]), proved
//! to keep its population within the target, to count every lifecycle
//! event exactly once, to raise the ramp level by one per threshold of
//! accepted samples, and to end exactly once. Around it stand the run
//! configuration forms ([`containers`]), the latency chart data
//! ([`chart`]), the family-tagged destination handed to connection
//! behaviours ([`address`]), the wire framing of the reference behaviours
//! ([`frame`]), and plugin discovery and compatibility ([`plugins`]).
//! Channels, tasks, timing and the dynamic loading of behaviour plugins
//! are left to the embedding program.

pub mod address;
pub mod benchmark;
pub mod chart;
pub mod containers;
pub mod frame;
pub mod plugins;
