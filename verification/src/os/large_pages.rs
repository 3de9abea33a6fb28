//! Allocation in large pages, with standard pages to fall back on.
use crate::network::tcp_tuning::Platform;
use vstd::prelude::*;

verus! {

/// Large page size
pub const LARGE_PAGE_SIZE: usize = 2_097_152;

/// Result of large page initialization
#[derive(Debug, Clone, Copy, PartialEq, Eq, Structural)]
pub enum LargePageStatus {
    /// Large pages successfully enabled
    Enabled,
    /// Privilege not available, using standard pages
    PrivilegeDenied,
    /// API not available on this system
    ApiUnavailable,
    /// Allocation failed
    AllocationFailed,
}

/// Large Page Allocator Configuration
#[derive(Debug, Clone, Copy, PartialEq, Eq, Structural)]
pub struct LargePageConfig {
    /// Requested allocation size in bytes
    pub requested_size: usize,
    /// Whether to fall back to standard pages if large pages fail
    pub fallback_enabled: bool,
    /// Align allocations to large page boundary
    pub strict_alignment: bool,
}

impl Default for LargePageConfig {
    fn default() -> (r: Self)
        ensures
            r == (LargePageConfig {
                requested_size: LARGE_PAGE_SIZE,
                fallback_enabled: true,
                strict_alignment: true,
            }),
    {
        LargePageConfig {
            requested_size: LARGE_PAGE_SIZE,
            fallback_enabled: true,
            strict_alignment: true,
        }
    }
}

/// A size rounded up to whole large pages.
pub open spec fn page_rounded(size: int) -> int {
    (size + LARGE_PAGE_SIZE - 1) / (LARGE_PAGE_SIZE as int) * LARGE_PAGE_SIZE
}

/// Rounding gives whole pages, and no more than are needed.
pub proof fn law_page_rounded(size: int)
    requires
        size >= 0,
    ensures
        page_rounded(size) % (LARGE_PAGE_SIZE as int) == 0,
        size <= page_rounded(size) < size + LARGE_PAGE_SIZE,
{
    let p = LARGE_PAGE_SIZE as int;
    let q = (size + p - 1) / p;
    assert(q * p <= size + p - 1 < q * p + p) by (nonlinear_arith)
        requires
            q == (size + p - 1) / p,
            p == 2_097_152,
    ;
    assert((q * p) % p == 0) by (nonlinear_arith)
        requires
            p == 2_097_152,
    ;
}

fn round_to_pages(size: usize) -> (r: usize)
    requires
        size + LARGE_PAGE_SIZE - 1 <= usize::MAX,
    ensures
        r == page_rounded(size as int),
{
    proof {
        law_page_rounded(size as int);
    }
    (size + (LARGE_PAGE_SIZE - 1)) / LARGE_PAGE_SIZE * LARGE_PAGE_SIZE
}

/// Large Page Manager
pub struct LargePageManager {
    pub status: LargePageStatus,
    pub allocated_bytes: usize,
    pub config: LargePageConfig,
}

impl LargePageManager {
    /// Create a new large page manager
    pub fn new(config: LargePageConfig) -> (r: Self)
        ensures
            r == (LargePageManager {
                status: LargePageStatus::ApiUnavailable,
                allocated_bytes: 0,
                config,
            }),
    {
        LargePageManager { status: LargePageStatus::ApiUnavailable, allocated_bytes: 0, config }
    }

    /// Attempt to enable large page privilege
    pub fn enable_privilege(&mut self, platform: Platform) -> (r: LargePageStatus)
        ensures
            r == (if platform == Platform::Windows {
                LargePageStatus::Enabled
            } else if old(self).config.fallback_enabled {
                LargePageStatus::PrivilegeDenied
            } else {
                LargePageStatus::ApiUnavailable
            }),
            *final(self) == (LargePageManager { status: r, ..*old(self) }),
    {
        self.status = if platform == Platform::Windows {
            LargePageStatus::Enabled
        } else if self.config.fallback_enabled {
            LargePageStatus::PrivilegeDenied
        } else {
            LargePageStatus::ApiUnavailable
        };
        self.status
    }

    /// The size that an allocation takes up.
    pub open spec fn allocation_size(&self, size: usize) -> int {
        if self.config.strict_alignment {
            page_rounded(size as int)
        } else {
            size as int
        }
    }

    /// Whether an allocation is made: from standard pages, as long as none has
    /// failed.
    pub open spec fn can_allocate(&self) -> bool {
        self.config.fallback_enabled && self.status != LargePageStatus::AllocationFailed
    }

    /// Allocate memory using large pages if available
    ///
    /// The size is rounded up to the large page boundary.
    pub fn allocate(&mut self, size: usize) -> (r: Option<Vec<u8>>)
        requires
            size + LARGE_PAGE_SIZE - 1 <= usize::MAX,
            old(self).allocated_bytes + old(self).allocation_size(size) <= usize::MAX,
        ensures
            match r {
                Some(block) => {
                    &&& old(self).can_allocate()
                    &&& block.len() == old(self).allocation_size(size)
                    &&& final(self).allocated_bytes == old(self).allocated_bytes + block.len()
                },
                None => {
                    &&& !old(self).can_allocate()
                    &&& final(self).allocated_bytes == old(self).allocated_bytes
                },
            },
            final(self).status == (if old(self).status == LargePageStatus::Enabled && old(self).config.fallback_enabled {
                LargePageStatus::PrivilegeDenied
            } else {
                old(self).status
            }),
            final(self).config == old(self).config,
    {
        let aligned_size: usize = if self.config.strict_alignment {
            round_to_pages(size)
        } else {
            size
        };
        match self.status {
            LargePageStatus::Enabled => {
                if self.config.fallback_enabled {
                    self.status = LargePageStatus::PrivilegeDenied;
                    Some(self.allocate_fallback(aligned_size))
                } else {
                    None
                }
            },
            LargePageStatus::PrivilegeDenied | LargePageStatus::ApiUnavailable => {
                if self.config.fallback_enabled {
                    Some(self.allocate_fallback(aligned_size))
                } else {
                    None
                }
            },
            LargePageStatus::AllocationFailed => None,
        }
    }

    /// Fallback allocation using standard pages
    fn allocate_fallback(&mut self, size: usize) -> (r: Vec<u8>)
        requires
            old(self).allocated_bytes + size <= usize::MAX,
        ensures
            r.len() == size,
            *final(self) == (LargePageManager {
                allocated_bytes: (old(self).allocated_bytes + size) as usize,
                ..*old(self)
            }),
    {
        let block: Vec<u8> = vec![0u8; size];
        self.allocated_bytes = self.allocated_bytes + size;
        block
    }

    /// Free previously allocated large page memory
    pub fn deallocate(&mut self, block: Vec<u8>, size: usize)
        ensures
            *final(self) == (LargePageManager {
                allocated_bytes: if size <= old(self).allocated_bytes {
                    (old(self).allocated_bytes - size) as usize
                } else {
                    0
                },
                ..*old(self)
            }),
    {
        self.allocated_bytes = self.allocated_bytes.saturating_sub(size);
    }

    /// Get current allocation status
    pub fn status(&self) -> (r: LargePageStatus)
        ensures
            r == self.status,
    {
        self.status
    }

    /// Get total allocated bytes
    pub fn allocated_bytes(&self) -> (r: usize)
        ensures
            r == self.allocated_bytes,
    {
        self.allocated_bytes
    }

    /// Check if large pages are active
    pub fn is_large_page_active(&self) -> (r: bool)
        ensures
            r == (self.status == LargePageStatus::Enabled),
    {
        self.status == LargePageStatus::Enabled
    }

    /// Get recommended buffer size for order book (aligned to large page)
    pub fn recommended_buffer_size(&self, requested: usize) -> (r: usize)
        requires
            requested + LARGE_PAGE_SIZE - 1 <= usize::MAX,
        ensures
            r == page_rounded(requested as int),
    {
        round_to_pages(requested)
    }
}

/// A block from a large page manager, with the size that was asked for
pub struct LargePageBuffer {
    pub block: Vec<u8>,
    pub size: usize,
}

impl LargePageBuffer {
    pub open spec fn wf(&self) -> bool {
        self.size <= self.block.len()
    }

    /// Create a new large page buffer
    pub fn new(manager: &mut LargePageManager, size: usize) -> (r: Option<Self>)
        requires
            size + LARGE_PAGE_SIZE - 1 <= usize::MAX,
            old(manager).allocated_bytes + old(manager).allocation_size(size) <= usize::MAX,
        ensures
            match r {
                Some(b) => {
                    &&& old(manager).can_allocate()
                    &&& b.wf()
                    &&& b.size == size
                    &&& b.block.len() == old(manager).allocation_size(size)
                    &&& final(manager).allocated_bytes == old(manager).allocated_bytes
                        + b.block.len()
                },
                None => !old(manager).can_allocate() && final(manager).allocated_bytes == old(
                    manager,
                ).allocated_bytes,
            },
            final(manager).config == old(manager).config,
    {
        proof {
            law_page_rounded(size as int);
        }
        match manager.allocate(size) {
            Some(block) => Some(LargePageBuffer { block, size }),
            None => None,
        }
    }

    /// Get the bytes of the buffer
    pub fn as_ptr(&self) -> (r: &[u8])
        ensures
            r@ == self.block@,
    {
        self.block.as_slice()
    }

    /// Get the bytes of the buffer for writing
    pub fn as_mut_ptr(&mut self) -> (r: &mut [u8])
        ensures
            r@ == old(self).block@,
            final(self).block@ == final(r)@,
            final(self).size == old(self).size,
    {
        self.block.as_mut_slice()
    }

    /// Get buffer size
    pub fn len(&self) -> (r: usize)
        ensures
            r == self.size,
    {
        self.size
    }

    /// Check if buffer is empty
    pub fn is_empty(&self) -> (r: bool)
        ensures
            r == (self.size == 0),
    {
        self.size == 0
    }

    /// Gives the memory back.
    pub fn release(self, manager: &mut LargePageManager)
        ensures
            *final(manager) == (LargePageManager {
                allocated_bytes: if self.size <= old(manager).allocated_bytes {
                    (old(manager).allocated_bytes - self.size) as usize
                } else {
                    0
                },
                ..*old(manager)
            }),
    {
        manager.deallocate(self.block, self.size);
    }
}

/// Where alignment is strict an allocation takes whole pages of two mebibytes,
/// otherwise just its size; one can be made where falling back is allowed and
/// none has failed.
pub proof fn law_allocation_takes_pages(m: LargePageManager, size: usize)
    ensures
        !m.config.strict_alignment ==> m.allocation_size(size) == size,
        m.config.strict_alignment ==> m.allocation_size(size) % 2_097_152 == 0
            && size <= m.allocation_size(size) < size + 2_097_152,
        m.can_allocate() <==> m.config.fallback_enabled && !(m.status is AllocationFailed),
{
    law_page_rounded(size as int);
}

} // verus!
