//! Stability-trigger pipeline for per-device telemetry.
//!
//! Sensor readings are fixed-point scalars (a caller-chosen scale, e.g.
//! hundredths of a unit). The pipeline smooths a time-ordered window of
//! readings with a causal moving-average filter, judges stability with a
//! normalized endpoint-slope test, and drives a per-device trigger state
//! machine that serializes evaluations and deduplicates alerts within one
//! stability episode. All arithmetic is exact: smoothed samples are kept as
//! unreduced fractions and the threshold comparison is cross-multiplied.

use vstd::prelude::*;

pub mod coordinator;
pub mod detector;
pub mod dispatch;
pub mod payload;
pub mod smoothing;
pub mod window;

verus! {

/// Greeting served at the service root.
pub fn index() -> (r: &'static str)
    ensures
        r@ == "Hello, world!"@,
{
    "Hello, world!"
}

} // verus!
