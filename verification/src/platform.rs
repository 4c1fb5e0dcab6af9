//! What the suite needs from outside the library: the machine's CPU count
//! and durations in milliseconds.

use vstd::prelude::*;
use std::time::Duration;

verus! {

/// The `Duration` that `Duration::from_millis(ms)` gives.
pub uninterp spec fn duration_of_millis(ms: u64) -> Duration;

/// `num_cpus::get`: the number of CPUs available to this process, which its
/// documentation promises is at least one. Which number comes back depends on
/// the machine and is not stated.
#[verifier::external_body]
pub(crate) fn cpu_count() -> (n: usize)
    ensures
        n >= 1,
{
    num_cpus::get()
}

/// `Duration::from_millis`: the duration of `ms` milliseconds.
#[verifier::external_body]
pub(crate) fn millis(ms: u64) -> (d: Duration)
    ensures
        d == duration_of_millis(ms),
{
    Duration::from_millis(ms)
}

} // verus!
