//! Exhaustive UDP socket benchmark: the verified core.
//!
//! The library describes a benchmark suite as a set of configuration fields,
//! each with a list of options, and enumerates every combination of those
//! options as a `TestConfig`. It also decides which benchmark measures a
//! configuration and with how many threads.

pub mod config;
pub mod error;
pub mod odometer;
pub mod plan;
pub mod platform;
pub mod smallvec_model;
pub mod suite;
pub mod sync;
pub mod transfer;
