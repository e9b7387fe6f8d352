//! Per-core limit on in-flight requests.
//!
//! Acquiring never blocks: at capacity it gives nothing, and the caller counts a drop, so that
//! backpressure shows up in the metrics.

use vstd::prelude::*;

verus! {

/// Limit on in-flight requests. A maximum of 0 means no limit.
pub struct InFlightLimit {
    count: usize,
    max: usize,
}

/// The right to have one request in flight; handed back through `release`.
pub struct OwnedPermit {
    serial: usize,
}

impl InFlightLimit {
    /// How many permits are out.
    pub closed spec fn out(self) -> nat {
        self.count as nat
    }

    /// The maximum; 0 for none.
    pub closed spec fn limit(self) -> nat {
        self.max as nat
    }

    /// Whether another permit may be given out.
    pub open spec fn has_room(self) -> bool {
        self.limit() == 0 || self.out() < self.limit()
    }

    /// No more permits are out than the limit allows.
    pub open spec fn wf(self) -> bool {
        self.limit() == 0 || self.out() <= self.limit()
    }

    pub fn new(max: usize) -> (r: InFlightLimit)
        ensures
            r.out() == 0,
            r.limit() == max,
            r.wf(),
    {
        InFlightLimit { count: 0, max }
    }

    /// Takes a permit; `None` at capacity, which the caller counts as a drop.
    pub fn try_acquire(&mut self) -> (r: Option<OwnedPermit>)
        requires
            old(self).wf(),
            old(self).out() < usize::MAX,
        ensures
            r is Some <==> old(self).has_room(),
            final(self).out() == old(self).out() + (if r is Some {
                1nat
            } else {
                0
            }),
            final(self).limit() == old(self).limit(),
            final(self).wf(),
    {
        if self.max > 0 && self.count >= self.max {
            return None;
        }
        self.count = self.count + 1;
        Some(OwnedPermit { serial: self.count })
    }

    /// Hands a permit back.
    pub fn release(&mut self, permit: OwnedPermit)
        requires
            old(self).wf(),
            old(self).out() > 0,
        ensures
            final(self).out() == old(self).out() - 1,
            final(self).limit() == old(self).limit(),
            final(self).wf(),
            final(self).has_room(),
    {
        self.count = self.count - 1;
    }

    /// How many requests are in flight.
    pub fn in_flight(&self) -> (r: usize)
        ensures
            r == self.out(),
    {
        self.count
    }

    /// The maximum; 0 for none.
    pub fn capacity(&self) -> (r: usize)
        ensures
            r == self.limit(),
    {
        self.max
    }
}

} // verus!
