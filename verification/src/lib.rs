//! Sampling-and-derivation engine of a hardware telemetry poller for a
//! single-board computer.
//!
//! The engine turns the captured bytes of four operating-system sources (a
//! GPU temperature probe, a CPU thermal file, the memory table and the CPU
//! statistics table) into numbers, derives the CPU load as the difference of
//! two consecutive cumulative counters, and decides what the polling loop
//! does next. Reading the sources, sleeping and drawing are left to the
//! caller.
//!
//! Temperatures are fixed-point values in thousandths of a degree Celsius.

pub mod delta;
pub mod error;
pub mod fields;
pub mod laws;
pub mod metrics;
pub mod number;
pub mod poll;
pub mod source;
pub mod trim;
