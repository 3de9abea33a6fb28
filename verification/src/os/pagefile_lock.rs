//! A quota on memory that is locked into physical pages.
use crate::math;
use crate::math::Ratio;
use crate::network::tcp_tuning::Platform;
use vstd::prelude::*;

verus! {

/// Memory lock status
#[derive(Debug, Clone, Copy, PartialEq, Eq, Structural)]
pub enum LockStatus {
    Unlocked,
    Locked,
    PartiallyLocked,
    Failed,
}

/// Locked memory region descriptor
pub struct LockedRegion {
    pub id: u64,
    pub data: Vec<u8>,
    pub size: usize,
    pub is_locked: bool,
    pub numa_node: Option<u32>,
}

/// The bytes of the regions, of all or of the locked ones.
pub open spec fn region_bytes(regions: Seq<LockedRegion>, locked_only: bool) -> int
    decreases regions.len(),
{
    if regions.len() == 0 {
        0
    } else {
        region_bytes(regions.drop_last(), locked_only) + (if !locked_only
            || regions.last().is_locked {
            regions.last().size as int
        } else {
            0
        })
    }
}

/// The number of locked regions.
pub open spec fn locked_count(regions: Seq<LockedRegion>) -> nat
    decreases regions.len(),
{
    if regions.len() == 0 {
        0
    } else {
        locked_count(regions.drop_last()) + (if regions.last().is_locked {
            1nat
        } else {
            0nat
        })
    }
}

proof fn lemma_bytes_prefix(regions: Seq<LockedRegion>, locked_only: bool, n: int)
    requires
        0 <= n <= regions.len(),
    ensures
        0 <= region_bytes(regions.subrange(0, n), locked_only) <= region_bytes(
            regions,
            locked_only,
        ),
    decreases regions.len(),
{
    if n == regions.len() {
        assert(regions.subrange(0, n) =~= regions);
        if n > 0 {
            lemma_bytes_prefix(regions.drop_last(), locked_only, n - 1);
        }
    } else {
        lemma_bytes_prefix(regions.drop_last(), locked_only, n);
        assert(regions.drop_last().subrange(0, n) =~= regions.subrange(0, n));
    }
}

/// Taking one region out takes its bytes out.
proof fn lemma_bytes_remove(regions: Seq<LockedRegion>, k: int)
    requires
        0 <= k < regions.len(),
    ensures
        region_bytes(regions.remove(k), true) == region_bytes(regions, true) - (
        if regions[k].is_locked {
            regions[k].size as int
        } else {
            0
        }),
    decreases regions.len(),
{
    if k == regions.len() - 1 {
        assert(regions.remove(k) =~= regions.drop_last());
    } else {
        lemma_bytes_remove(regions.drop_last(), k);
        assert(regions.remove(k).drop_last() =~= regions.drop_last().remove(k));
        assert(regions.remove(k).last() == regions.last());
    }
}

/// Locking one region adds its bytes.
proof fn lemma_bytes_lock(before: Seq<LockedRegion>, after: Seq<LockedRegion>, k: int)
    requires
        0 <= k < before.len(),
        after.len() == before.len(),
        !before[k].is_locked,
        after[k].is_locked,
        after[k].size == before[k].size,
        forall|i: int| 0 <= i < before.len() && i != k ==> #[trigger] after[i] == before[i],
    ensures
        region_bytes(after, true) == region_bytes(before, true) + before[k].size,
    decreases before.len(),
{
    if k == before.len() - 1 {
        assert(after.drop_last() =~= before.drop_last());
    } else {
        lemma_bytes_lock(before.drop_last(), after.drop_last(), k);
        assert(after.last() == before.last());
    }
}

/// A size rounded up to whole pages.
pub open spec fn whole_pages(size: int, page_size: int) -> int {
    (size + page_size - 1) / page_size * page_size
}

/// Statistics about locked memory
#[derive(Debug, Clone, Copy, PartialEq, Eq, Structural)]
pub struct LockerStats {
    pub total_locked_bytes: usize,
    pub total_requested_bytes: usize,
    pub max_lockable_bytes: usize,
    pub num_regions: usize,
    pub locked_regions: usize,
    /// Percentage of the quota that is in use
    pub utilization_pct: Ratio,
}

/// Physical memory page locker manager
pub struct PagefileLocker {
    pub total_locked_bytes: usize,
    pub max_lockable_bytes: usize,
    pub regions: Vec<LockedRegion>,
    pub next_id: u64,
    pub is_initialized: bool,
}

/// What the system lets a process lock.
pub open spec fn system_limit(platform: Platform) -> usize {
    if platform == Platform::Windows {
        536_870_912
    } else {
        67_108_864
    }
}

/// Get system lock limit
pub fn get_system_lock_limit(platform: Platform) -> (r: Result<usize, &'static str>)
    ensures
        r == Ok::<usize, &'static str>(system_limit(platform)),
{
    if platform == Platform::Windows {
        Ok(536_870_912)
    } else {
        Ok(67_108_864)
    }
}

impl PagefileLocker {
    /// The locked bytes are those of the locked regions, and within the quota.
    pub open spec fn wf(&self) -> bool {
        &&& self.total_locked_bytes == region_bytes(self.regions@, true)
        &&& self.total_locked_bytes <= self.max_lockable_bytes
        &&& self.max_lockable_bytes <= 536_870_912
        &&& forall|i: int|
            0 <= i < self.regions.len() ==> (#[trigger] self.regions@[i]).id < self.next_id
        &&& forall|i: int, j: int|
            0 <= i < j < self.regions.len() ==> (#[trigger] self.regions@[i]).id != (
            #[trigger] self.regions@[j]).id
    }

    /// Create new pagefile locker with memory limit
    pub fn new(max_lock_mb: usize, platform: Platform) -> (r: Result<Self, &'static str>)
        requires
            max_lock_mb * 1_048_576 <= usize::MAX,
        ensures
            r matches Ok(l) && l.wf() && l.total_locked_bytes == 0 && l.regions.len() == 0
                && !l.is_initialized && l.max_lockable_bytes == math::min_int(
                max_lock_mb * 1_048_576,
                system_limit(platform) as int,
            ) && l.next_id == 0,
    {
        let max_lockable: usize = max_lock_mb * 1_048_576;
        match get_system_lock_limit(platform) {
            Ok(limit) => Ok(
                PagefileLocker {
                    total_locked_bytes: 0,
                    max_lockable_bytes: if max_lockable < limit {
                        max_lockable
                    } else {
                        limit
                    },
                    regions: Vec::new(),
                    next_id: 0,
                    is_initialized: false,
                },
            ),
            Err(e) => Err(e),
        }
    }

    /// Initialize the locker
    pub fn initialize(&mut self) -> (r: Result<(), &'static str>)
        ensures
            match r {
                Ok(()) => !old(self).is_initialized && *final(self) == (PagefileLocker {
                    is_initialized: true,
                    ..*old(self)
                }),
                Err(e) => old(self).is_initialized && e@ == "Pagefile locker already initialized"@
                    && *final(self) == *old(self),
            },
    {
        if self.is_initialized {
            return Err("Pagefile locker already initialized");
        }
        self.is_initialized = true;
        Ok(())
    }

    /// What a request for locked memory is refused with.
    pub open spec fn refusal(&self, size: usize, page_size: usize) -> Option<Seq<char>> {
        if !self.is_initialized {
            Some("Pagefile locker not initialized"@)
        } else if self.total_locked_bytes + whole_pages(size as int, page_size as int)
            > self.max_lockable_bytes {
            Some("Lock quota exceeded"@)
        } else {
            None
        }
    }

    /// Allocate and lock memory for hot-path use. `locks` is whether the system
    /// locks the pages; where it does not, the region stays unlocked. Returns
    /// the id of the region.
    pub fn allocate_locked(
        &mut self,
        size: usize,
        numa_node: Option<u32>,
        page_size: usize,
        locks: bool,
    ) -> (r: Result<u64, &'static str>)
        requires
            old(self).wf(),
            page_size > 0,
            size + page_size - 1 <= usize::MAX,
            old(self).next_id < u64::MAX,
        ensures
            final(self).wf(),
            match r {
                Ok(id) => {
                    let bytes = whole_pages(size as int, page_size as int);
                    let last = final(self).regions@.last();
                    &&& old(self).refusal(size, page_size) is None
                    &&& id == old(self).next_id
                    &&& final(self).next_id == old(self).next_id + 1
                    &&& final(self).regions@.drop_last() == old(self).regions@
                    &&& final(self).regions.len() == old(self).regions.len() + 1
                    &&& last.id == id
                    &&& last.size == bytes
                    &&& last.data@ == Seq::new(bytes as nat, |i: int| 0u8)
                    &&& last.is_locked == locks
                    &&& last.numa_node == numa_node
                    &&& final(self).total_locked_bytes == old(self).total_locked_bytes + (
                    if locks {
                        bytes
                    } else {
                        0
                    })
                    &&& final(self).max_lockable_bytes == old(self).max_lockable_bytes
                    &&& final(self).is_initialized
                },
                Err(e) => old(self).refusal(size, page_size) == Some(e@) && *final(self) == *old(self),
            },
    {
        if !self.is_initialized {
            return Err("Pagefile locker not initialized");
        }
        proof {
            lemma_whole_pages(size as int, page_size as int);
        }
        let aligned_size: usize = (size + (page_size - 1)) / page_size * page_size;
        if aligned_size > self.max_lockable_bytes - self.total_locked_bytes {
            return Err("Lock quota exceeded");
        }
        let data: Vec<u8> = vec![0u8; aligned_size];
        assert(data@ =~= Seq::new(aligned_size as nat, |i: int| 0u8));
        let id: u64 = self.next_id;
        self.next_id = id + 1;
        let ghost before = self.regions@;
        self.regions.push(
            LockedRegion { id, data, size: aligned_size, is_locked: locks, numa_node },
        );
        if locks {
            self.total_locked_bytes = self.total_locked_bytes + aligned_size;
        }
        assert(self.regions@.drop_last() =~= before);
        Ok(id)
    }

    /// Where a region stands in the list.
    pub open spec fn has_region(&self, id: u64) -> bool {
        exists|k: int| 0 <= k < self.regions.len() && (#[trigger] self.regions@[k]).id == id
    }

    fn find_region(&self, id: u64) -> (r: Option<usize>)
        ensures
            match r {
                Some(k) => k < self.regions.len() && self.regions@[k as int].id == id,
                None => !self.has_region(id),
            },
    {
        let mut k: usize = 0;
        while k < self.regions.len()
            invariant
                k <= self.regions.len(),
                forall|j: int| 0 <= j < k ==> (#[trigger] self.regions@[j]).id != id,
            decreases self.regions.len() - k,
        {
            if self.regions[k].id == id {
                return Some(k);
            }
            k = k + 1;
        }
        None
    }

    /// Unlock a previously allocated region
    pub fn unlock_region(&mut self, id: u64) -> (r: Result<(), &'static str>)
        requires
            old(self).wf(),
        ensures
            final(self).wf(),
            match r {
                Ok(()) => {
                    &&& old(self).has_region(id)
                    &&& !final(self).has_region(id)
                    &&& exists|k: int|
                        0 <= k < old(self).regions.len() && (#[trigger] old(self).regions@[k]).id
                            == id && final(self).regions@ == old(self).regions@.remove(k) && final(self).total_locked_bytes == old(self).total_locked_bytes - (if old(self).regions@[k].is_locked {
                            old(self).regions@[k].size as int
                        } else {
                            0
                        })
                },
                Err(e) => !old(self).has_region(id) && e@ == "Region not found"@ && *final(self)
                    == *old(self),
            },
            final(self).max_lockable_bytes == old(self).max_lockable_bytes,
            final(self).is_initialized == old(self).is_initialized,
            final(self).next_id == old(self).next_id,
    {
        match self.find_region(id) {
            Some(k) => {
                let ghost before = self.regions@;
                proof {
                    lemma_bytes_remove(before, k as int);
                    lemma_bytes_prefix(before.remove(k as int), true, 0);
                    assert(before.remove(k as int).subrange(0, 0) =~= Seq::<
                        LockedRegion,
                    >::empty());
                }
                let region: LockedRegion = self.regions.remove(k);
                if region.is_locked {
                    self.total_locked_bytes = self.total_locked_bytes - region.size;
                }
                proof {
                    assert(self.regions@ =~= before.remove(k as int));
                    assert(before[k as int].id == id);
                    assert forall|j: int| 0 <= j < self.regions.len() implies (
                    #[trigger] self.regions@[j]).id != id && self.regions@[j].id
                        < self.next_id by {
                        if j < k {
                            assert(self.regions@[j] == before[j]);
                        } else {
                            assert(self.regions@[j] == before[j + 1]);
                        }
                    }
                    assert forall|i: int, j: int| 0 <= i < j < self.regions.len() implies (
                    #[trigger] self.regions@[i]).id != (#[trigger] self.regions@[j]).id by {
                        let a = if i < k {
                            i
                        } else {
                            i + 1
                        };
                        let b = if j < k {
                            j
                        } else {
                            j + 1
                        };
                        assert(self.regions@[i] == before[a]);
                        assert(self.regions@[j] == before[b]);
                    }
                }
                Ok(())
            },
            None => Err("Region not found"),
        }
    }

    /// Get statistics about locked memory
    pub fn get_stats(&self) -> (r: LockerStats)
        requires
            self.wf(),
            region_bytes(self.regions@, false) <= usize::MAX,
        ensures
            r.total_locked_bytes == self.total_locked_bytes,
            r.total_requested_bytes == region_bytes(self.regions@, false),
            r.max_lockable_bytes == self.max_lockable_bytes,
            r.num_regions == self.regions.len(),
            r.locked_regions == locked_count(self.regions@),
            r.utilization_pct == (if self.max_lockable_bytes > 0 {
                Ratio {
                    num: (self.total_locked_bytes * 100) as u64,
                    den: self.max_lockable_bytes as u64,
                }
            } else {
                Ratio { num: 0, den: 1 }
            }),
    {
        let mut total_requested: usize = 0;
        let mut locked_regions: usize = 0;
        let mut i: usize = 0;
        assert(self.regions@.subrange(0, 0) =~= Seq::<LockedRegion>::empty());
        while i < self.regions.len()
            invariant
                i <= self.regions.len(),
                region_bytes(self.regions@, false) <= usize::MAX,
                total_requested == region_bytes(self.regions@.subrange(0, i as int), false),
                locked_regions == locked_count(self.regions@.subrange(0, i as int)),
                locked_regions <= i,
            decreases self.regions.len() - i,
        {
            proof {
                lemma_bytes_prefix(self.regions@, false, i + 1);
                let next = self.regions@.subrange(0, i + 1);
                assert(next.drop_last() =~= self.regions@.subrange(0, i as int));
                assert(next.last() == self.regions@[i as int]);
            }
            total_requested = total_requested + self.regions[i].size;
            if self.regions[i].is_locked {
                locked_regions = locked_regions + 1;
            }
            i = i + 1;
        }
        assert(self.regions@.subrange(0, i as int) =~= self.regions@);
        LockerStats {
            total_locked_bytes: self.total_locked_bytes,
            total_requested_bytes: total_requested,
            max_lockable_bytes: self.max_lockable_bytes,
            num_regions: self.regions.len(),
            locked_regions,
            utilization_pct: if self.max_lockable_bytes > 0 {
                Ratio {
                    num: self.total_locked_bytes as u64 * 100,
                    den: self.max_lockable_bytes as u64,
                }
            } else {
                Ratio { num: 0, den: 1 }
            },
        }
    }

    /// Check if we can allocate more locked memory
    pub fn can_allocate(&self, additional_bytes: usize) -> (r: bool)
        requires
            self.wf(),
        ensures
            r == (self.total_locked_bytes + additional_bytes <= self.max_lockable_bytes),
    {
        additional_bytes <= self.max_lockable_bytes - self.total_locked_bytes
    }

    /// Force unlock all regions (for emergency shutdown)
    pub fn emergency_unlock_all(&mut self)
        requires
            old(self).wf(),
        ensures
            final(self).wf(),
            final(self).regions.len() == 0,
            final(self).total_locked_bytes == 0,
            final(self).max_lockable_bytes == old(self).max_lockable_bytes,
            final(self).is_initialized == old(self).is_initialized,
            final(self).next_id == old(self).next_id,
    {
        self.regions = Vec::new();
        self.total_locked_bytes = 0;
    }

    /// Records that the system has locked the pages of a region after all,
    /// where the quota has room for it.
    pub fn mark_locked(&mut self, id: u64) -> (r: bool)
        requires
            old(self).wf(),
        ensures
            final(self).wf(),
            r == exists|k: int|
                0 <= k < old(self).regions.len() && (#[trigger] old(self).regions@[k]).id == id
                    && !old(self).regions@[k].is_locked && old(self).total_locked_bytes + old(self).regions@[k].size <= old(self).max_lockable_bytes,
            !r ==> *final(self) == *old(self),
            r ==> final(self).total_locked_bytes > old(self).total_locked_bytes || exists|k: int|
                0 <= k < old(self).regions.len() && (#[trigger] old(self).regions@[k]).id == id
                    && old(self).regions@[k].size == 0,
            final(self).regions.len() == old(self).regions.len(),
            forall|k: int|
                0 <= k < old(self).regions.len() ==> #[trigger] final(self).regions@[k] == (if r
                    && old(self).regions@[k].id == id {
                    LockedRegion { is_locked: true, ..old(self).regions@[k] }
                } else {
                    old(self).regions@[k]
                }),
            final(self).max_lockable_bytes == old(self).max_lockable_bytes,
            final(self).is_initialized == old(self).is_initialized,
            final(self).next_id == old(self).next_id,
    {
        match self.find_region(id) {
            Some(k) => {
                let size: usize = self.regions[k].size;
                assert forall|j: int|
                    0 <= j < self.regions.len() && (#[trigger] self.regions@[j]).id
                        == id implies j == k by {
                    assert(self.regions@[k as int].id == id);
                }
                if self.regions[k].is_locked || size > self.max_lockable_bytes
                    - self.total_locked_bytes {
                    return false;
                }
                let ghost before = self.regions@;
                self.regions[k].is_locked = true;
                self.total_locked_bytes = self.total_locked_bytes + size;
                proof {
                    lemma_bytes_lock(before, self.regions@, k as int);
                }
                true
            },
            None => false,
        }
    }
}

proof fn lemma_whole_pages(size: int, page_size: int)
    requires
        size >= 0,
        page_size > 0,
    ensures
        0 <= whole_pages(size, page_size) <= size + page_size - 1,
{
    let q = (size + page_size - 1) / page_size;
    assert(0 <= q * page_size <= size + page_size - 1) by (nonlinear_arith)
        requires
            q == (size + page_size - 1) / page_size,
            page_size > 0,
            size >= 0,
    ;
}

/// Regions add up one by one, all of them or only those that are locked.
pub proof fn law_regions_add_up(s: Seq<LockedRegion>, r: LockedRegion)
    ensures
        region_bytes(Seq::<LockedRegion>::empty(), true) == 0,
        region_bytes(s.push(r), false) == region_bytes(s, false) + r.size,
        region_bytes(s.push(r), true) == region_bytes(s, true) + (if r.is_locked {
            r.size as int
        } else {
            0
        }),
        locked_count(s.push(r)) == locked_count(s) + (if r.is_locked {
            1nat
        } else {
            0
        }),
        locked_count(Seq::<LockedRegion>::empty()) == 0,
{
    assert(s.push(r).drop_last() =~= s);
}

/// A size is rounded up to whole pages, by less than one.
pub proof fn law_whole_pages(size: int, page_size: int)
    requires
        size >= 0,
        page_size > 0,
    ensures
        size <= whole_pages(size, page_size) < size + page_size,
        whole_pages(size, page_size) % page_size == 0,
{
    let x = size + page_size - 1;
    let q = x / page_size;
    vstd::arithmetic::div_mod::lemma_fundamental_div_mod(x, page_size);
    vstd::arithmetic::div_mod::lemma_mod_bound(x, page_size);
    assert(q * page_size == page_size * q) by (nonlinear_arith);
    vstd::arithmetic::div_mod::lemma_mod_multiples_basic(q, page_size);
}

/// Half a gibibyte can be locked on Windows and sixty-four mebibytes elsewhere.
pub proof fn law_system_limits(platform: Platform)
    ensures
        platform == Platform::Windows ==> system_limit(platform) == 512 * 1024 * 1024,
        platform != Platform::Windows ==> system_limit(platform) == 64 * 1024 * 1024,
{
}

/// Memory can be locked exactly where the locker is ready and the whole pages
/// of it fit what is left of the quota.
pub proof fn law_lock_quota(l: PagefileLocker, size: usize, page_size: usize)
    ensures
        l.refusal(size, page_size) is None <==> l.is_initialized && whole_pages(
            size as int,
            page_size as int,
        ) <= l.max_lockable_bytes - l.total_locked_bytes,
        !l.is_initialized ==> l.refusal(size, page_size) == Some(
            "Pagefile locker not initialized"@,
        ),
        l.is_initialized && l.refusal(size, page_size) is Some ==> l.refusal(size, page_size) == Some(
            "Lock quota exceeded"@,
        ),
{
}

} // verus!
