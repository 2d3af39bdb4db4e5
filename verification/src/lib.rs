//! Measurement and reporting engine for an instruction-count benchmark
//! harness. The harness drives an external instruction-level simulator
//! (callgrind) and interprets its textual output: raw event counters are
//! parsed from the simulator's report, cache-hit tiers and an estimated
//! cycle figure are derived from them, and run-over-run percentage deltas
//! are formatted for the console.
//!
//! This crate holds the verified core: counter arithmetic, output parsing,
//! delta formatting, report rendering, the simulator command line, the role
//! decision of the two-phase self-invocation protocol, and the rotation of
//! the persisted report slots. Process launching, file reading and printing
//! live outside it and hand plain values in and out.

pub mod bytes;
pub mod command;
pub mod counters;
pub mod diff;
pub mod parser;
pub mod report;
pub mod slots;

pub use counters::CallgrindStats;
pub use counters::CallgrindSummary;
