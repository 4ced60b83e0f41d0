//! Points in time as the models carry them.

use vstd::prelude::*;

verus! {

/// A UTC instant: whole seconds since the Unix epoch and the nanoseconds
/// past that second (`0..1_000_000_000`, or up to `2_000_000_000` for a leap
/// second), the two numbers that determine a `chrono::DateTime<Utc>`.
#[derive(Debug, Clone, Copy, PartialEq, Eq, Structural)]
pub struct UtcTimestamp {
    pub secs: i64,
    pub nanos: u32,
}

} // verus!
