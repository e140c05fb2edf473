//! Cycle-time calibration: the cached cycles-per-microsecond constant
//! and the conversion of raw cycle counts and deltas to microseconds.

use vstd::prelude::*;

verus! {

/// The cached calibration constant. The shared-memory collaborator
/// measures it once per connection; every conversion reuses this copy,
/// because recomputing the calibration is expensive. (In the shared
/// region the cell is cache-line aligned; alignment does not change
/// the value and is left to the platform layer here.)
#[derive(Clone, Copy, PartialEq, Eq, Structural, Debug)]
pub struct AlignedU64(pub u64);

impl AlignedU64 {
    /// The stored calibration value.
    pub fn value(&self) -> (r: u64)
        ensures
            r == self.0,
    {
        self.0
    }
}

/// Converts a raw cycle count to whole microseconds by the cached
/// cycles-per-microsecond constant.
pub fn cycles_to_us(cycles: u64, cycles_per_us: u64) -> (r: u64)
    requires
        cycles_per_us > 0,
    ensures
        r == cycles as int / cycles_per_us as int,
{
    cycles / cycles_per_us
}

/// Converts the delta between two readings of the monotonic cycle
/// counter to whole microseconds.
pub fn delta_us(start: u64, end: u64, cycles_per_us: u64) -> (r: u64)
    requires
        start <= end,
        cycles_per_us > 0,
    ensures
        r == (end - start) as int / cycles_per_us as int,
{
    (end - start) / cycles_per_us
}

} // verus!
