//! The concurrency limiter: a counting permit pool that never lets more than
//! its capacity of lookups be in flight at once.

use vstd::prelude::*;

verus! {

/// A counting permit pool with a fixed capacity.
pub struct Limiter {
    pub capacity: usize,
    pub in_flight: usize,
}

impl Limiter {
    /// The capacity is positive and the permits out never exceed it.
    pub open spec fn wf(self) -> bool {
        1 <= self.capacity && self.in_flight <= self.capacity
    }

    /// A fresh pool: no permit out.
    pub fn new(capacity: usize) -> (l: Limiter)
        requires
            capacity >= 1,
        ensures
            l.wf(),
            l.capacity == capacity,
            l.in_flight == 0,
    {
        Limiter { capacity, in_flight: 0 }
    }

    /// Hands out a permit when one is free, and refuses exactly when the
    /// whole capacity is already out — the caller then waits and asks again.
    pub fn try_acquire(&mut self) -> (ok: bool)
        requires
            old(self).wf(),
        ensures
            final(self).wf(),
            final(self).capacity == old(self).capacity,
            ok ==> old(self).in_flight < old(self).capacity && final(self).in_flight == old(
                self,
            ).in_flight + 1,
            !ok ==> *final(self) == *old(self) && old(self).in_flight == old(self).capacity,
    {
        if self.in_flight < self.capacity {
            self.in_flight = self.in_flight + 1;
            true
        } else {
            false
        }
    }

    /// Takes a permit back: exactly once per acquire, whether the guarded
    /// work succeeded or failed.
    pub fn release(&mut self)
        requires
            old(self).wf(),
            old(self).in_flight >= 1,
        ensures
            final(self).wf(),
            final(self).capacity == old(self).capacity,
            final(self).in_flight == old(self).in_flight - 1,
    {
        self.in_flight = self.in_flight - 1;
    }
}

/// Law: however the pool is driven through its methods, the permits out
/// never exceed the capacity it was made with.
pub proof fn lemma_bounded_in_flight(l: Limiter)
    requires
        l.wf(),
    ensures
        l.in_flight <= l.capacity,
{
}

} // verus!
