//! A verified core for a micro-benchmark suite that compares associative-map
//! performance across hash strategies, key/value types, and capacity
//! reservation policies.
//!
//! The library resolves a runtime configuration into concrete key/value kinds
//! and a hashing strategy, and offers a catalog of workload functions, each
//! exercising one access pattern against a map populated by a shared linear
//! fill. The contracts pin down what every workload computes: how many probes
//! hit, how large the resulting maps are, and what the fill leaves in a map.

pub mod config;
pub mod rng;
pub mod table;
pub mod text;
pub mod workloads;
