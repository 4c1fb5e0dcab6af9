//! A pair of barriers that the benchmark threads pass together: the first
//! before the timer starts, the second after.

use vstd::prelude::*;
use std::sync::Barrier;

verus! {

/// A `std::sync::Barrier`, with the party size it was made for.
#[verifier::external_body]
pub struct PartyBarrier {
    barrier: Barrier,
}

/// The number of threads that a barrier was made to wait for: the argument
/// given to `Barrier::new`.
pub uninterp spec fn party_size(b: PartyBarrier) -> usize;

/// `Barrier::new(n)`: a barrier that releases its waiting threads each time
/// the `n`-th of them arrives. The contract states the party size it was made
/// with; how waiting behaves is not stated.
#[verifier::external_body]
fn new_barrier(n: usize) -> (b: PartyBarrier)
    ensures
        party_size(b) == n,
{
    PartyBarrier { barrier: Barrier::new(n) }
}

/// `Barrier::wait`: blocks until the barrier's party is complete. Which
/// thread is reported as the leader is dropped; nothing is stated.
#[verifier::external_body]
fn wait_at(b: &PartyBarrier) {
    b.barrier.wait();
}

/// Two barriers for the same party of threads.
pub struct DoubleBarrier {
    first: PartyBarrier,
    second: PartyBarrier,
}

impl DoubleBarrier {
    /// The number of threads that the first barrier waits for.
    pub closed spec fn first_parties(self) -> usize {
        party_size(self.first)
    }

    /// The number of threads that the second barrier waits for.
    pub closed spec fn second_parties(self) -> usize {
        party_size(self.second)
    }

    /// Two barriers, each for a party of `n` threads.
    pub fn new(n: usize) -> (b: DoubleBarrier)
        ensures
            b.first_parties() == n,
            b.second_parties() == n,
    {
        DoubleBarrier { first: new_barrier(n), second: new_barrier(n) }
    }

    /// Waits at the first barrier.
    pub fn wait_first(&self) {
        wait_at(&self.first);
    }

    /// Waits at the second barrier.
    pub fn wait_second(&self) {
        wait_at(&self.second);
    }

    /// Waits at the first barrier, then at the second.
    pub fn wait(&self) {
        wait_at(&self.first);
        wait_at(&self.second);
    }
}

} // verus!
