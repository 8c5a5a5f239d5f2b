//! The throughput counter: the total number of payload bytes received so far.

use vstd::prelude::*;

verus! {

/// A running total of received payload bytes. It only ever grows, and each datagram
/// adds exactly its payload length, whether or not any subscriber was there to take it.
pub struct ThroughputCounter {
    total: u64,
}

impl View for ThroughputCounter {
    type V = nat;

    closed spec fn view(&self) -> nat {
        self.total as nat
    }
}

impl ThroughputCounter {
    /// A counter that has seen no datagram yet.
    pub fn new() -> (counter: ThroughputCounter)
        ensures
            counter@ == 0,
    {
        ThroughputCounter { total: 0 }
    }

    /// The bytes received so far.
    pub fn total(&self) -> (total: u64)
        ensures
            total == self@,
    {
        self.total
    }

    /// Whether a datagram of `received` bytes can still be counted without leaving
    /// the range of the total.
    pub fn has_room(&self, received: usize) -> (fits: bool)
        ensures
            fits == (self@ + received <= u64::MAX),
    {
        received as u64 <= u64::MAX - self.total
    }

    /// Counts one received datagram of `received` payload bytes.
    pub fn record(&mut self, received: usize)
        requires
            old(self)@ + received <= u64::MAX,
        ensures
            final(self)@ == old(self)@ + received,
    {
        self.total = self.total + received as u64;
    }
}

} // verus!
