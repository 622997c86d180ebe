//! Time-multiplexed software PWM scheduling engine for a fixed bank of 19
//! independently dimmable LED channels.
//!
//! A high-frequency timer walks a precomputed 256-entry bitmask schedule,
//! asserting each channel's pin for a number of phases proportional to its
//! brightness. The schedule is rebuilt from the brightness store every
//! animation frame by an optimized threshold-sweep builder whose result is
//! proved equal to the brute-force per-phase recomputation.

pub mod curve;
pub mod led;
pub mod leds;
pub mod lfsr;
pub mod mask;
pub mod schedule;
