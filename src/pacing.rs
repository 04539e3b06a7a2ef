//! Frame pacing of the host loop, in nanoseconds.
//!
//! Each frame has a fixed budget; whatever rendering leaves of it is slept
//! off before the next simulation step.
use vstd::prelude::*;

verus! {

/// Nanoseconds in one second.
pub const NANOS_PER_SECOND: u32 = 1_000_000_000;

/// Budget of one frame at `frames_per_second`, rounded down to whole
/// nanoseconds.
pub fn frame_nanos(frames_per_second: u32) -> (r: u32)
    requires
        frames_per_second > 0,
    ensures
        r == NANOS_PER_SECOND / frames_per_second,
{
    NANOS_PER_SECOND / frames_per_second
}

/// Time left to sleep once rendering has taken `spent` of a frame of
/// `budget`; nothing when rendering overran the frame.
pub fn sleep_nanos(budget: u64, spent: u64) -> (r: u64)
    ensures
        spent <= budget ==> r == budget - spent,
        spent > budget ==> r == 0,
{
    budget.saturating_sub(spent)
}

} // verus!
