//! Page-sized buffers for DMA under a pool-wide budget.
use crate::math;
use crate::math::min_usize;
use vstd::prelude::*;

verus! {

pub const PAGE_SIZE: usize = 4096;

/// 2GB for DMA
pub const MAX_PINNED_MEMORY: usize = 2147483648;

/// A size rounded up to whole pages.
pub open spec fn page_aligned(size: int) -> int {
    ((size + PAGE_SIZE - 1) / PAGE_SIZE as int) * PAGE_SIZE
}

pub open spec fn size_allowed(size: usize) -> bool {
    0 < size <= MAX_PINNED_MEMORY
}

/// A whole number of zeroed pages.
pub struct DmaBufferGuard {
    pub bytes: Vec<u8>,
    /// Whether the pages are locked in memory.
    pub is_locked: bool,
}

impl DmaBufferGuard {
    pub fn new(size: usize) -> (r: Result<Self, &'static str>)
        ensures
            match r {
                Ok(g) => {
                    &&& size_allowed(size)
                    &&& g.bytes.len() == page_aligned(size as int)
                    &&& forall|i: int| 0 <= i < g.bytes.len() ==> #[trigger] g.bytes@[i] == 0
                    &&& !g.is_locked
                },
                Err(e) => !size_allowed(size) && e@ == "Invalid DMA buffer size"@,
            },
    {
        if size == 0 || size > MAX_PINNED_MEMORY {
            return Err("Invalid DMA buffer size");
        }
        let aligned: usize = ((size + PAGE_SIZE - 1) / PAGE_SIZE) * PAGE_SIZE;
        Ok(DmaBufferGuard { bytes: vec![0u8; aligned], is_locked: false })
    }

    /// The buffer's bytes.
    pub fn as_ptr(&self) -> (r: &[u8])
        ensures
            r@ == self.bytes@,
    {
        self.bytes.as_slice()
    }

    /// The buffer's bytes, for writing; their number does not change.
    pub fn as_mut_ptr(&mut self) -> (r: &mut [u8])
        ensures
            r@ == old(self).bytes@,
            final(self).bytes@ == final(r)@,
            final(self).is_locked == old(self).is_locked,
    {
        self.bytes.as_mut_slice()
    }

    pub fn len(&self) -> (r: usize)
        ensures
            r == self.bytes.len(),
    {
        self.bytes.len()
    }

    pub fn is_empty(&self) -> (r: bool)
        ensures
            r == (self.bytes.len() == 0),
    {
        self.bytes.len() == 0
    }
}

/// DMA buffer pool with limit enforcement
pub struct DmaBufferPool {
    pub allocated: usize,
    pub max_bytes: usize,
}

impl DmaBufferPool {
    pub open spec fn wf(&self) -> bool {
        self.max_bytes <= MAX_PINNED_MEMORY
    }

    pub fn new(max_bytes: usize) -> (r: Self)
        ensures
            r.wf(),
            r.allocated == 0,
            r.max_bytes == math::min_int(max_bytes as int, MAX_PINNED_MEMORY as int),
    {
        DmaBufferPool { allocated: 0, max_bytes: min_usize(max_bytes, MAX_PINNED_MEMORY) }
    }

    /// Hands out a buffer and counts the bytes asked for against the budget.
    pub fn allocate(&mut self, size: usize) -> (r: Result<DmaBufferGuard, &'static str>)
        requires
            old(self).wf(),
        ensures
            final(self).wf(),
            final(self).max_bytes == old(self).max_bytes,
            if old(self).allocated + size > old(self).max_bytes {
                &&& r matches Err(e) && e@ == "DMA pool exhausted (8GB limit)"@
                &&& final(self).allocated == old(self).allocated
            } else if size == 0 {
                &&& r matches Err(e) && e@ == "Invalid DMA buffer size"@
                &&& final(self).allocated == old(self).allocated
            } else {
                &&& r matches Ok(g) && g.bytes.len() == page_aligned(size as int) && (forall|
                    i: int,
                | 0 <= i < g.bytes.len() ==> #[trigger] g.bytes@[i] == 0)
                &&& final(self).allocated == old(self).allocated + size
            },
    {
        if self.allocated.saturating_add(size) > self.max_bytes {
            return Err("DMA pool exhausted (8GB limit)");
        }
        self.allocated = self.allocated + size;
        DmaBufferGuard::new(size)
    }

    /// Gives bytes back to the budget.
    pub fn release(&mut self, size: usize)
        ensures
            final(self).allocated == old(self).allocated.wrapping_sub(
                math::min_int(size as int, old(self).max_bytes as int) as usize,
            ),
            final(self).max_bytes == old(self).max_bytes,
    {
        self.allocated = self.allocated.wrapping_sub(min_usize(size, self.max_bytes));
    }

    pub fn usage(&self) -> (r: usize)
        ensures
            r == self.allocated,
    {
        self.allocated
    }
}

/// Releasing what was allocated brings the usage back.
pub proof fn law_release_undoes_allocate(allocated: usize, size: usize, max_bytes: usize)
    requires
        allocated + size <= max_bytes,
    ensures
        ((allocated + size) as usize).wrapping_sub(
            math::min_int(size as int, max_bytes as int) as usize,
        ) == allocated,
{
}

/// Alignment adds less than a page and yields whole pages.
pub proof fn law_alignment(size: int)
    requires
        size >= 0,
    ensures
        size <= page_aligned(size) < size + PAGE_SIZE,
        page_aligned(size) % PAGE_SIZE as int == 0,
{
}

/// A buffer may be of any size up to two gibibytes, but not empty; sizes are
/// rounded up to pages of four kibibytes.
pub proof fn law_allowed_sizes(size: usize)
    ensures
        size_allowed(size) <==> 1 <= size <= 2 * 1024 * 1024 * 1024,
        page_aligned(size as int) % 4096 == 0,
        0 <= page_aligned(size as int) - size < 4096,
{
    law_alignment(size as int);
}

} // verus!
