use vstd::prelude::*;

verus! {

/// When and in which order a system runs: its priority and the number of
/// ticks between two runs.
#[derive(Debug, Clone, Copy, PartialEq, Eq, Structural)]
pub struct Cadence {
    pub priority: u32,
    pub tick_interval: u64,
}

/// A requested interval, raised to one tick when it is zero.
pub open spec fn at_least_one(t: u64) -> u64 {
    if t == 0 { 1 } else { t }
}

/// The interval a cadenced system keeps: never below one tick.
pub fn clamp_interval(t: u64) -> (r: u64)
    ensures
        r == at_least_one(t),
        r >= 1,
        t >= 1 ==> r == t,
{
    if t == 0 { 1 } else { t }
}

} // verus!
