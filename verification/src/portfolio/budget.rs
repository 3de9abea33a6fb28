//! A byte budget that several structures share.
use vstd::prelude::*;

verus! {

/// Bytes reserved so far and the most that may be.
#[derive(Debug, Clone, Copy, PartialEq, Eq, Structural)]
pub struct MemoryBudget {
    pub used: u64,
    pub limit: u64,
}

impl MemoryBudget {
    pub open spec fn wf(&self) -> bool {
        self.used <= self.limit
    }

    /// Whether so many more bytes are within the limit.
    pub open spec fn admits(&self, bytes: u64) -> bool {
        self.used + bytes <= self.limit
    }

    pub fn new(limit: u64) -> (r: Self)
        ensures
            r == (MemoryBudget { used: 0, limit }),
            r.wf(),
    {
        MemoryBudget { used: 0, limit }
    }

    /// Reserve bytes, unless that would go over the limit
    pub fn reserve(&mut self, bytes: u64) -> (granted: bool)
        requires
            old(self).wf(),
        ensures
            final(self).wf(),
            granted == old(self).admits(bytes),
            *final(self) == (MemoryBudget {
                used: if granted {
                    (old(self).used + bytes) as u64
                } else {
                    old(self).used
                },
                ..*old(self)
            }),
    {
        if bytes > self.limit - self.used {
            return false;
        }
        self.used = self.used + bytes;
        true
    }

    /// Give reserved bytes back
    pub fn release(&mut self, bytes: u64)
        requires
            old(self).wf(),
            old(self).used >= bytes,
        ensures
            final(self).wf(),
            *final(self) == (MemoryBudget { used: (old(self).used - bytes) as u64, ..*old(self) }),
    {
        self.used = self.used - bytes;
    }
}

/// A budget admits what fits between what is used and the limit, so what it
/// admits never takes it beyond the limit.
pub proof fn law_budget_admits_what_is_left(b: MemoryBudget, bytes: u64)
    requires
        b.wf(),
    ensures
        b.admits(bytes) <==> bytes <= b.limit - b.used,
        b.used <= b.limit,
{
}

} // verus!
