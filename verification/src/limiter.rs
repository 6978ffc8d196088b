//! A counting concurrency limiter: the benchmarking dispatcher acquires a
//! permit before each probe and releases it when the probe completes, so at
//! most the configured number of probes is ever mid-flight.

use vstd::prelude::*;

verus! {

/// The permit counter that bounds how many probes run at once.
#[derive(Debug, Clone, PartialEq, Eq, Structural)]
pub struct Limiter {
    /// How many probes may run at once.
    pub limit: u64,
    /// How many probes hold a permit right now.
    pub in_flight: u64,
}

impl Limiter {
    /// The invariant of the limiter: the permits handed out never exceed
    /// the bound.
    pub open spec fn wf(&self) -> bool {
        self.in_flight <= self.limit && self.limit >= 1
    }

    /// How many probes may run at once.
    pub open spec fn spec_limit(&self) -> u64 {
        self.limit
    }

    /// How many probes hold a permit right now.
    pub open spec fn spec_in_flight(&self) -> u64 {
        self.in_flight
    }

    /// The bound a requested concurrency level sets: zero asks for no limit
    /// and is represented as an effectively unbounded permit count, keeping
    /// the dispatcher's code path single.
    pub open spec fn spec_effective_limit(requested: u64) -> u64 {
        if requested == 0 {
            u64::MAX
        } else {
            requested
        }
    }

    /// A fresh limiter for the requested concurrency level, with no permit
    /// handed out yet.
    pub fn new(requested: u64) -> (r: Limiter)
        ensures
            r.wf(),
            r.spec_limit() == Limiter::spec_effective_limit(requested),
            r.spec_in_flight() == 0,
    {
        let limit = if requested == 0 {
            u64::MAX
        } else {
            requested
        };
        Limiter { limit, in_flight: 0 }
    }

    /// Hands out a permit when one is free; never lets more than the limit
    /// be outstanding.
    pub fn try_acquire(&mut self) -> (granted: bool)
        requires
            old(self).wf(),
        ensures
            final(self).wf(),
            final(self).spec_limit() == old(self).spec_limit(),
            granted ==> old(self).spec_in_flight() < old(self).spec_limit()
                && final(self).spec_in_flight() == old(self).spec_in_flight() + 1,
            !granted ==> old(self).spec_in_flight() == old(self).spec_limit() && *final(self)
                == *old(self),
    {
        if self.in_flight < self.limit {
            self.in_flight = self.in_flight + 1;
            true
        } else {
            false
        }
    }

    /// Returns a permit; called exactly once per acquired permit, success
    /// or failure of the probe.
    pub fn release(&mut self)
        requires
            old(self).wf(),
            old(self).spec_in_flight() > 0,
        ensures
            final(self).wf(),
            final(self).spec_limit() == old(self).spec_limit(),
            final(self).spec_in_flight() == old(self).spec_in_flight() - 1,
    {
        self.in_flight = self.in_flight - 1;
    }
}

/// The concurrency discipline itself: a well-formed limiter never has more
/// permits outstanding than its bound, so at most `spec_limit()` probes are
/// mid-flight at any instant.
pub proof fn lemma_limiter_bounded(l: Limiter)
    requires
        l.wf(),
    ensures
        l.spec_in_flight() <= l.spec_limit(),
{
}

} // verus!
