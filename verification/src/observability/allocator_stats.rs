//! Memory statistics: totals, size classes, arenas and the limits on memory.
use crate::math;
use crate::math::Ratio;
use vstd::prelude::*;

verus! {

/// Global 8GB RAM limit in bytes
pub const GLOBAL_RAM_LIMIT_BYTES: u64 = 8_589_934_592;

/// Warning threshold (percent of limit)
pub const WARNING_THRESHOLD_PCT: u64 = 90;

/// Critical threshold (percent of limit)
pub const CRITICAL_THRESHOLD_PCT: u64 = 95;

/// Maximum number of arenas to track
pub const MAX_ARENAS: usize = 64;

/// Number of size classes
pub const NUM_SIZE_CLASSES: usize = 12;

/// The largest size of a class: 16 bytes doubled from class to class, and a
/// last class for the rest.
pub open spec fn class_size(i: int) -> u64 {
    if i == 0 {
        16
    } else if i == 1 {
        32
    } else if i == 2 {
        64
    } else if i == 3 {
        128
    } else if i == 4 {
        256
    } else if i == 5 {
        512
    } else if i == 6 {
        1024
    } else if i == 7 {
        2048
    } else if i == 8 {
        4096
    } else if i == 9 {
        8192
    } else if i == 10 {
        16384
    } else {
        65536
    }
}

fn size_of_class(i: usize) -> (r: u64)
    requires
        i < NUM_SIZE_CLASSES,
    ensures
        r == class_size(i as int),
{
    if i == 0 {
        16
    } else if i == 1 {
        32
    } else if i == 2 {
        64
    } else if i == 3 {
        128
    } else if i == 4 {
        256
    } else if i == 5 {
        512
    } else if i == 6 {
        1024
    } else if i == 7 {
        2048
    } else if i == 8 {
        4096
    } else if i == 9 {
        8192
    } else if i == 10 {
        16384
    } else {
        65536
    }
}

/// The class of a size: the first that holds it, or the last.
pub open spec fn is_class_of(size: u64, i: int) -> bool {
    &&& 0 <= i < NUM_SIZE_CLASSES
    &&& size <= class_size(i) || i == NUM_SIZE_CLASSES - 1
    &&& forall|j: int| 0 <= j < i ==> size > #[trigger] class_size(j)
}

/// Every size has exactly one class.
pub proof fn law_one_class(size: u64, a: int, b: int)
    requires
        is_class_of(size, a),
        is_class_of(size, b),
    ensures
        a == b,
{
    if a < b {
        assert(size > class_size(a));
    } else if b < a {
        assert(size > class_size(b));
    }
}

/// Memory allocation statistics
#[derive(Debug, Clone, Copy, PartialEq, Eq, Structural)]
pub struct AllocStats {
    /// Total bytes allocated
    pub total_allocated: u64,
    /// Total bytes freed
    pub total_freed: u64,
    /// Current live bytes
    pub live_bytes: u64,
    /// Number of active allocations
    pub alloc_count: usize,
    /// Peak memory usage
    pub peak_bytes: u64,
    /// Number of allocation operations
    pub alloc_ops: u64,
    /// Number of deallocation operations
    pub dealloc_ops: u64,
}

impl AllocStats {
    pub fn new() -> (r: Self)
        ensures
            r == (AllocStats {
                total_allocated: 0,
                total_freed: 0,
                live_bytes: 0,
                alloc_count: 0,
                peak_bytes: 0,
                alloc_ops: 0,
                dealloc_ops: 0,
            }),
    {
        AllocStats {
            total_allocated: 0,
            total_freed: 0,
            live_bytes: 0,
            alloc_count: 0,
            peak_bytes: 0,
            alloc_ops: 0,
            dealloc_ops: 0,
        }
    }

    /// Calculate fragmentation ratio: the part of all allocated bytes that is
    /// no longer live
    pub fn fragmentation_ratio(&self) -> (r: Ratio)
        requires
            self.live_bytes <= self.total_allocated,
        ensures
            r == (if self.total_allocated == 0 {
                Ratio { num: 0, den: 1 }
            } else {
                Ratio {
                    num: (self.total_allocated - self.live_bytes) as u64,
                    den: self.total_allocated,
                }
            }),
    {
        if self.total_allocated == 0 {
            return Ratio { num: 0, den: 1 };
        }
        Ratio { num: self.total_allocated - self.live_bytes, den: self.total_allocated }
    }

    /// Calculate memory efficiency: what the fragmentation ratio leaves of one
    pub fn efficiency(&self) -> (r: Ratio)
        requires
            self.live_bytes <= self.total_allocated,
        ensures
            r == (if self.total_allocated == 0 {
                Ratio { num: 1, den: 1 }
            } else {
                Ratio { num: self.live_bytes, den: self.total_allocated }
            }),
    {
        let f: Ratio = self.fragmentation_ratio();
        Ratio { num: f.den - f.num, den: f.den }
    }
}

/// Per-size-class statistics
#[derive(Debug, Clone, Copy, PartialEq, Eq, Structural)]
pub struct SizeClassStats {
    pub size: u64,
    pub allocs: u64,
    pub frees: u64,
    pub live: u64,
    pub bytes_allocated: u64,
}

impl SizeClassStats {
    pub fn new(size: u64) -> (r: Self)
        ensures
            r == (SizeClassStats { size, allocs: 0, frees: 0, live: 0, bytes_allocated: 0 }),
    {
        SizeClassStats { size, allocs: 0, frees: 0, live: 0, bytes_allocated: 0 }
    }
}

/// Arena statistics for memory pool tracking
#[derive(Debug, Clone, Copy, PartialEq, Eq, Structural)]
pub struct ArenaStats {
    pub arena_id: usize,
    pub capacity: u64,
    pub used: u64,
    pub free: u64,
    pub allocation_count: usize,
    pub fragmented_bytes: u64,
}

/// What a capacity leaves, or nothing where more is used.
pub open spec fn left_of(capacity: u64, used: u64) -> u64 {
    if used <= capacity {
        (capacity - used) as u64
    } else {
        0
    }
}

impl ArenaStats {
    pub fn utilization(&self) -> (r: Ratio)
        ensures
            r == (if self.capacity == 0 {
                Ratio { num: 0, den: 1 }
            } else {
                Ratio { num: self.used, den: self.capacity }
            }),
    {
        if self.capacity == 0 {
            Ratio { num: 0, den: 1 }
        } else {
            Ratio { num: self.used, den: self.capacity }
        }
    }

    pub fn fragmentation(&self) -> (r: Ratio)
        ensures
            r == (if self.used == 0 {
                Ratio { num: 0, den: 1 }
            } else {
                Ratio { num: self.fragmented_bytes, den: self.used }
            }),
    {
        if self.used == 0 {
            Ratio { num: 0, den: 1 }
        } else {
            Ratio { num: self.fragmented_bytes, den: self.used }
        }
    }

    /// An arena of a capacity, with nothing in it.
    pub open spec fn fresh(arena_id: usize, capacity: u64) -> ArenaStats {
        ArenaStats {
            arena_id,
            capacity,
            used: 0,
            free: capacity,
            allocation_count: 0,
            fragmented_bytes: 0,
        }
    }

    /// The arena after an allocation.
    pub open spec fn after_alloc(self, size: u64) -> ArenaStats {
        ArenaStats {
            used: (self.used + size) as u64,
            free: left_of(self.capacity, (self.used + size) as u64),
            allocation_count: (self.allocation_count + 1) as usize,
            ..self
        }
    }

    /// The arena after a deallocation.
    pub open spec fn after_dealloc(self, size: u64) -> ArenaStats {
        ArenaStats {
            used: left_of(self.used, size),
            free: left_of(self.capacity, left_of(self.used, size)),
            ..self
        }
    }
}

/// Memory statistics tracker
pub struct MemoryTracker {
    /// Total allocated bytes
    pub total_allocated: u64,
    /// Total freed bytes
    pub total_freed: u64,
    /// Current live bytes
    pub live_bytes: u64,
    /// Peak memory usage
    pub peak_bytes: u64,
    /// Allocation operation count
    pub alloc_ops: u64,
    /// Deallocation operation count
    pub dealloc_ops: u64,
    /// Per-size-class statistics
    pub size_class_stats: Vec<SizeClassStats>,
    /// Arena statistics; none until an arena is registered
    pub arena_stats: Vec<ArenaStats>,
    /// Arena count
    pub arena_count: usize,
    /// Warning flag
    pub warning_triggered: bool,
    /// Critical flag
    pub critical_triggered: bool,
}

/// Whether memory use has reached a percentage of the limit.
pub open spec fn reaches(live: u64, pct: u64) -> bool {
    live * 100 >= GLOBAL_RAM_LIMIT_BYTES * pct
}

impl MemoryTracker {
    pub open spec fn wf(&self) -> bool {
        &&& self.live_bytes == self.total_allocated.wrapping_sub(self.total_freed)
        &&& self.size_class_stats.len() == NUM_SIZE_CLASSES
        &&& forall|i: int|
            0 <= i < NUM_SIZE_CLASSES ==> (#[trigger] self.size_class_stats@[i]).size
                == class_size(i)
        &&& self.arena_stats.len() == 0 || self.arena_stats.len() == MAX_ARENAS
        &&& self.arena_count <= self.arena_stats.len()
    }

    /// Whether an id is that of an arena slot in use.
    pub open spec fn tracks(&self, arena_id: Option<usize>) -> bool {
        arena_id matches Some(id) && id < self.arena_stats.len()
    }

    /// The counters have room for one more allocation.
    pub open spec fn accepts_alloc(&self, size: u64, arena_id: Option<usize>) -> bool {
        &&& forall|i: int|
            0 <= i < NUM_SIZE_CLASSES ==> {
                &&& (#[trigger] self.size_class_stats@[i]).allocs < u64::MAX
                &&& self.size_class_stats@[i].live < u64::MAX
                &&& self.size_class_stats@[i].bytes_allocated + size <= u64::MAX
            }
        &&& self.tracks(arena_id) ==> {
            &&& self.arena_stats@[arena_id->0 as int].used + size <= u64::MAX
            &&& self.arena_stats@[arena_id->0 as int].allocation_count < usize::MAX
        }
    }

    /// The counters have room for one more deallocation.
    pub open spec fn accepts_dealloc(&self) -> bool {
        forall|i: int|
            0 <= i < NUM_SIZE_CLASSES ==> (#[trigger] self.size_class_stats@[i]).frees < u64::MAX
    }

    /// Create a new memory tracker
    pub fn new() -> (r: Self)
        ensures
            r.wf(),
            r.total_allocated == 0,
            r.total_freed == 0,
            r.live_bytes == 0,
            r.peak_bytes == 0,
            r.alloc_ops == 0,
            r.dealloc_ops == 0,
            forall|i: int|
                0 <= i < NUM_SIZE_CLASSES ==> #[trigger] r.size_class_stats@[i]
                    == (SizeClassStats {
                    size: class_size(i),
                    allocs: 0,
                    frees: 0,
                    live: 0,
                    bytes_allocated: 0,
                }),
            r.arena_stats.len() == 0,
            r.arena_count == 0,
            !r.warning_triggered,
            !r.critical_triggered,
    {
        let mut size_class_stats: Vec<SizeClassStats> = Vec::with_capacity(NUM_SIZE_CLASSES);
        while size_class_stats.len() < NUM_SIZE_CLASSES
            invariant
                size_class_stats.len() <= NUM_SIZE_CLASSES,
                forall|i: int|
                    0 <= i < size_class_stats.len() ==> #[trigger] size_class_stats@[i]
                        == (SizeClassStats {
                        size: class_size(i),
                        allocs: 0,
                        frees: 0,
                        live: 0,
                        bytes_allocated: 0,
                    }),
            decreases NUM_SIZE_CLASSES - size_class_stats.len(),
        {
            let size: u64 = size_of_class(size_class_stats.len());
            size_class_stats.push(SizeClassStats::new(size));
        }
        MemoryTracker {
            total_allocated: 0,
            total_freed: 0,
            live_bytes: 0,
            peak_bytes: 0,
            alloc_ops: 0,
            dealloc_ops: 0,
            size_class_stats,
            arena_stats: Vec::new(),
            arena_count: 0,
            warning_triggered: false,
            critical_triggered: false,
        }
    }

    /// Record an allocation
    pub fn record_alloc(&mut self, size: u64, arena_id: Option<usize>)
        requires
            old(self).wf(),
            old(self).accepts_alloc(size, arena_id),
        ensures
            final(self).wf(),
            final(self).total_allocated == old(self).total_allocated.wrapping_add(size),
            final(self).live_bytes == old(self).live_bytes.wrapping_add(size),
            final(self).alloc_ops == old(self).alloc_ops.wrapping_add(1),
            final(self).peak_bytes == math::max_int(
                old(self).peak_bytes as int,
                final(self).live_bytes as int,
            ),
            forall|c: int|
                is_class_of(size, c) ==> #[trigger] final(self).size_class_stats@[c]
                    == (SizeClassStats {
                    allocs: (old(self).size_class_stats@[c].allocs + 1) as u64,
                    live: (old(self).size_class_stats@[c].live + 1) as u64,
                    bytes_allocated: (old(self).size_class_stats@[c].bytes_allocated + size) as u64,
                    ..old(self).size_class_stats@[c]
                }),
            forall|c: int|
                0 <= c < NUM_SIZE_CLASSES && !is_class_of(size, c) ==> #[trigger] final(self).size_class_stats@[c] == old(self).size_class_stats@[c],
            final(self).arena_stats@ == (if old(self).tracks(arena_id) {
                let id = arena_id->0 as int;
                old(self).arena_stats@.update(id, old(self).arena_stats@[id].after_alloc(size))
            } else {
                old(self).arena_stats@
            }),
            final(self).critical_triggered == (old(self).critical_triggered || reaches(
                final(self).live_bytes,
                CRITICAL_THRESHOLD_PCT,
            )),
            final(self).warning_triggered == (old(self).warning_triggered || reaches(
                final(self).live_bytes,
                WARNING_THRESHOLD_PCT,
            )),
            final(self).total_freed == old(self).total_freed,
            final(self).dealloc_ops == old(self).dealloc_ops,
            final(self).arena_count == old(self).arena_count,
    {
        self.total_allocated = self.total_allocated.wrapping_add(size);
        self.live_bytes = self.live_bytes.wrapping_add(size);
        self.alloc_ops = self.alloc_ops.wrapping_add(1);
        if self.live_bytes > self.peak_bytes {
            self.peak_bytes = self.live_bytes;
        }
        let c: usize = self.get_size_class_index(size);
        let stats: SizeClassStats = self.size_class_stats[c];
        assert(old(self).size_class_stats@[c as int] == stats);
        self.size_class_stats.set(
            c,
            SizeClassStats {
                size: stats.size,
                allocs: stats.allocs + 1,
                frees: stats.frees,
                live: stats.live + 1,
                bytes_allocated: stats.bytes_allocated + size,
            },
        );
        match arena_id {
            Some(id) => self.update_arena_alloc(id, size),
            None => {},
        }
        self.check_thresholds();
        proof {
            assert forall|k: int| is_class_of(size, k) implies k == c by {
                law_one_class(size, k, c as int);
            }
            assert forall|i: int| 0 <= i < NUM_SIZE_CLASSES implies (
            #[trigger] self.size_class_stats@[i]).size == class_size(i) by {
                assert(old(self).size_class_stats@[i].size == class_size(i));
            }
        }
    }

    /// Record a deallocation
    pub fn record_dealloc(&mut self, size: u64, arena_id: Option<usize>)
        requires
            old(self).wf(),
            old(self).accepts_dealloc(),
        ensures
            final(self).wf(),
            final(self).total_freed == old(self).total_freed.wrapping_add(size),
            final(self).live_bytes == old(self).live_bytes.wrapping_sub(size),
            final(self).dealloc_ops == old(self).dealloc_ops.wrapping_add(1),
            forall|c: int|
                is_class_of(size, c) ==> #[trigger] final(self).size_class_stats@[c]
                    == (SizeClassStats {
                    frees: (old(self).size_class_stats@[c].frees + 1) as u64,
                    live: left_of(old(self).size_class_stats@[c].live, 1),
                    ..old(self).size_class_stats@[c]
                }),
            forall|c: int|
                0 <= c < NUM_SIZE_CLASSES && !is_class_of(size, c) ==> #[trigger] final(self).size_class_stats@[c] == old(self).size_class_stats@[c],
            final(self).arena_stats@ == (if old(self).tracks(arena_id) {
                let id = arena_id->0 as int;
                old(self).arena_stats@.update(id, old(self).arena_stats@[id].after_dealloc(size))
            } else {
                old(self).arena_stats@
            }),
            final(self).total_allocated == old(self).total_allocated,
            final(self).peak_bytes == old(self).peak_bytes,
            final(self).alloc_ops == old(self).alloc_ops,
            final(self).arena_count == old(self).arena_count,
            final(self).warning_triggered == old(self).warning_triggered,
            final(self).critical_triggered == old(self).critical_triggered,
    {
        self.total_freed = self.total_freed.wrapping_add(size);
        self.live_bytes = self.live_bytes.wrapping_sub(size);
        self.dealloc_ops = self.dealloc_ops.wrapping_add(1);
        let c: usize = self.get_size_class_index(size);
        let stats: SizeClassStats = self.size_class_stats[c];
        assert(old(self).size_class_stats@[c as int] == stats);
        self.size_class_stats.set(
            c,
            SizeClassStats {
                size: stats.size,
                allocs: stats.allocs,
                frees: stats.frees + 1,
                live: if stats.live > 0 {
                    stats.live - 1
                } else {
                    0
                },
                bytes_allocated: stats.bytes_allocated,
            },
        );
        match arena_id {
            Some(id) => self.update_arena_dealloc(id, size),
            None => {},
        }
        proof {
            assert forall|k: int| is_class_of(size, k) implies k == c by {
                law_one_class(size, k, c as int);
            }
            assert forall|i: int| 0 <= i < NUM_SIZE_CLASSES implies (
            #[trigger] self.size_class_stats@[i]).size == class_size(i) by {
                assert(old(self).size_class_stats@[i].size == class_size(i));
            }
        }
    }

    /// Get size class index for a given size
    pub fn get_size_class_index(&self, size: u64) -> (r: usize)
        ensures
            is_class_of(size, r as int),
    {
        let mut i: usize = 0;
        while i < NUM_SIZE_CLASSES - 1
            invariant
                i <= NUM_SIZE_CLASSES - 1,
                forall|j: int| 0 <= j < i ==> size > #[trigger] class_size(j),
            decreases NUM_SIZE_CLASSES - i,
        {
            if size <= size_of_class(i) {
                return i;
            }
            i = i + 1;
        }
        i
    }

    /// Update arena allocation stats
    fn update_arena_alloc(&mut self, arena_id: usize, size: u64)
        requires
            arena_id < old(self).arena_stats.len() ==> {
                &&& old(self).arena_stats@[arena_id as int].used + size <= u64::MAX
                &&& old(self).arena_stats@[arena_id as int].allocation_count < usize::MAX
            },
        ensures
            final(self).arena_stats@ == (if arena_id < old(self).arena_stats.len() {
                old(self).arena_stats@.update(
                    arena_id as int,
                    old(self).arena_stats@[arena_id as int].after_alloc(size),
                )
            } else {
                old(self).arena_stats@
            }),
            *final(self) == (MemoryTracker { arena_stats: final(self).arena_stats, ..*old(self) }),
    {
        if arena_id >= self.arena_stats.len() {
            return;
        }
        let a: ArenaStats = self.arena_stats[arena_id];
        let used: u64 = a.used + size;
        self.arena_stats.set(
            arena_id,
            ArenaStats {
                arena_id: a.arena_id,
                capacity: a.capacity,
                used,
                free: a.capacity.saturating_sub(used),
                allocation_count: a.allocation_count + 1,
                fragmented_bytes: a.fragmented_bytes,
            },
        );
    }

    /// Update arena deallocation stats
    fn update_arena_dealloc(&mut self, arena_id: usize, size: u64)
        ensures
            final(self).arena_stats@ == (if arena_id < old(self).arena_stats.len() {
                old(self).arena_stats@.update(
                    arena_id as int,
                    old(self).arena_stats@[arena_id as int].after_dealloc(size),
                )
            } else {
                old(self).arena_stats@
            }),
            *final(self) == (MemoryTracker { arena_stats: final(self).arena_stats, ..*old(self) }),
    {
        if arena_id >= self.arena_stats.len() {
            return;
        }
        let a: ArenaStats = self.arena_stats[arena_id];
        let used: u64 = a.used.saturating_sub(size);
        self.arena_stats.set(
            arena_id,
            ArenaStats {
                arena_id: a.arena_id,
                capacity: a.capacity,
                used,
                free: a.capacity.saturating_sub(used),
                allocation_count: a.allocation_count,
                fragmented_bytes: a.fragmented_bytes,
            },
        );
    }

    /// Check memory usage thresholds
    fn check_thresholds(&mut self)
        ensures
            *final(self) == (MemoryTracker {
                critical_triggered: old(self).critical_triggered || reaches(
                    old(self).live_bytes,
                    CRITICAL_THRESHOLD_PCT,
                ),
                warning_triggered: old(self).warning_triggered || reaches(
                    old(self).live_bytes,
                    WARNING_THRESHOLD_PCT,
                ),
                ..*old(self)
            }),
    {
        let scaled: u128 = self.live_bytes as u128 * 100;
        let limit: u128 = GLOBAL_RAM_LIMIT_BYTES as u128;
        if scaled >= limit * CRITICAL_THRESHOLD_PCT as u128 {
            self.critical_triggered = true;
        }
        if scaled >= limit * WARNING_THRESHOLD_PCT as u128 {
            self.warning_triggered = true;
        }
    }

    /// Register a new arena
    pub fn register_arena(&mut self, arena_id: usize, capacity: u64)
        requires
            old(self).wf(),
        ensures
            final(self).wf(),
            if arena_id >= MAX_ARENAS {
                *final(self) == *old(self)
            } else {
                &&& final(self).arena_stats.len() == MAX_ARENAS
                &&& final(self).arena_stats@[arena_id as int] == ArenaStats::fresh(
                    arena_id,
                    capacity,
                )
                &&& forall|i: int|
                    0 <= i < MAX_ARENAS && i != arena_id ==> #[trigger] final(self).arena_stats@[i] == (if old(self).arena_stats.len() == 0 {
                        ArenaStats::fresh(0, 0)
                    } else {
                        old(self).arena_stats@[i]
                    })
                &&& final(self).arena_count == math::max_int(
                    old(self).arena_count as int,
                    arena_id + 1,
                )
            },
            *final(self) == (MemoryTracker {
                arena_stats: final(self).arena_stats,
                arena_count: final(self).arena_count,
                ..*old(self)
            }),
    {
        if arena_id >= MAX_ARENAS {
            return;
        }
        if self.arena_stats.len() == 0 {
            let mut arenas: Vec<ArenaStats> = Vec::with_capacity(MAX_ARENAS);
            while arenas.len() < MAX_ARENAS
                invariant
                    arenas.len() <= MAX_ARENAS,
                    forall|i: int|
                        0 <= i < arenas.len() ==> #[trigger] arenas@[i] == ArenaStats::fresh(0, 0),
                decreases MAX_ARENAS - arenas.len(),
            {
                arenas.push(
                    ArenaStats {
                        arena_id: 0,
                        capacity: 0,
                        used: 0,
                        free: 0,
                        allocation_count: 0,
                        fragmented_bytes: 0,
                    },
                );
            }
            self.arena_stats = arenas;
        }
        self.arena_stats.set(
            arena_id,
            ArenaStats {
                arena_id,
                capacity,
                used: 0,
                free: capacity,
                allocation_count: 0,
                fragmented_bytes: 0,
            },
        );
        if arena_id >= self.arena_count {
            self.arena_count = arena_id + 1;
        }
    }

    /// Get overall allocation statistics
    pub fn get_stats(&self) -> (r: AllocStats)
        ensures
            r == (AllocStats {
                total_allocated: self.total_allocated,
                total_freed: self.total_freed,
                live_bytes: self.live_bytes,
                alloc_count: 0,
                peak_bytes: self.peak_bytes,
                alloc_ops: self.alloc_ops,
                dealloc_ops: self.dealloc_ops,
            }),
    {
        AllocStats {
            total_allocated: self.total_allocated,
            total_freed: self.total_freed,
            live_bytes: self.live_bytes,
            alloc_count: 0,
            peak_bytes: self.peak_bytes,
            alloc_ops: self.alloc_ops,
            dealloc_ops: self.dealloc_ops,
        }
    }

    /// Get size class statistics
    pub fn get_size_class_stats(&self) -> (r: Vec<SizeClassStats>)
        ensures
            r@ == self.size_class_stats@,
    {
        let mut out: Vec<SizeClassStats> = Vec::new();
        let mut i: usize = 0;
        while i < self.size_class_stats.len()
            invariant
                i <= self.size_class_stats.len(),
                out@ == self.size_class_stats@.subrange(0, i as int),
            decreases self.size_class_stats.len() - i,
        {
            out.push(self.size_class_stats[i]);
            i = i + 1;
            assert(out@ =~= self.size_class_stats@.subrange(0, i as int));
        }
        assert(out@ =~= self.size_class_stats@);
        out
    }

    /// Get arena statistics
    pub fn get_arena_stats(&self) -> (r: Vec<ArenaStats>)
        requires
            self.wf(),
        ensures
            r@ == self.arena_stats@.subrange(0, self.arena_count as int),
    {
        let mut out: Vec<ArenaStats> = Vec::new();
        let mut i: usize = 0;
        while i < self.arena_count
            invariant
                self.wf(),
                i <= self.arena_count,
                out@ == self.arena_stats@.subrange(0, i as int),
            decreases self.arena_count - i,
        {
            out.push(self.arena_stats[i]);
            i = i + 1;
            assert(out@ =~= self.arena_stats@.subrange(0, i as int));
        }
        out
    }

    /// Check if memory usage exceeds warning threshold
    pub fn is_warning(&self) -> (r: bool)
        ensures
            r == self.warning_triggered,
    {
        self.warning_triggered
    }

    /// Check if memory usage exceeds critical threshold
    pub fn is_critical(&self) -> (r: bool)
        ensures
            r == self.critical_triggered,
    {
        self.critical_triggered
    }

    /// Get current memory utilization ratio
    pub fn utilization(&self) -> (r: Ratio)
        ensures
            r == (Ratio { num: self.live_bytes, den: GLOBAL_RAM_LIMIT_BYTES }),
    {
        Ratio { num: self.live_bytes, den: GLOBAL_RAM_LIMIT_BYTES }
    }

    /// Get remaining memory budget
    pub fn remaining_budget(&self) -> (r: u64)
        ensures
            r == left_of(GLOBAL_RAM_LIMIT_BYTES, self.live_bytes),
    {
        GLOBAL_RAM_LIMIT_BYTES.saturating_sub(self.live_bytes)
    }
}

/// Freeing what was allocated gives back the live bytes as they were, and an
/// arena's use and free space with them.
pub proof fn law_dealloc_undoes_alloc(live: u64, arena: ArenaStats, size: u64)
    requires
        arena.used + size <= u64::MAX,
        arena.free == left_of(arena.capacity, arena.used),
    ensures
        live.wrapping_add(size).wrapping_sub(size) == live,
        arena.after_alloc(size).after_dealloc(size).used == arena.used,
        arena.after_alloc(size).after_dealloc(size).free == arena.free,
{
}

/// A critical level is a warning level too.
pub proof fn law_critical_is_warning(live: u64)
    requires
        reaches(live, CRITICAL_THRESHOLD_PCT),
    ensures
        reaches(live, WARNING_THRESHOLD_PCT),
{
}

/// Size classes double from sixteen bytes to sixteen kibibytes; the last is
/// sixty-four kibibytes.
pub proof fn law_classes_double(i: int)
    ensures
        class_size(0) == 16,
        0 <= i < 10 ==> class_size(i + 1) == 2 * class_size(i),
        class_size(11) == 4 * class_size(10),
{
}

/// An allocation belongs to the smallest class that holds it, and to the last
/// where none does.
pub proof fn law_smallest_class_holds(size: u64, i: int)
    requires
        is_class_of(size, i),
    ensures
        0 <= i < 12,
        i < 11 ==> size <= class_size(i),
        i > 0 ==> size > class_size(i - 1),
{
    if i > 0 {
        let below = class_size(i - 1);
        assert(size > below);
    }
}

/// Use and what is left of an arena make up its capacity, and each allocation
/// counts once.
pub proof fn law_arena_is_used_or_free(a: ArenaStats, size: u64)
    requires
        a.used + size <= a.capacity,
        a.allocation_count < usize::MAX,
    ensures
        ({
            let b = a.after_alloc(size);
            &&& b.used == a.used + size
            &&& b.used + b.free == b.capacity
            &&& b.capacity == a.capacity
            &&& b.allocation_count == a.allocation_count + 1
        }),
        size <= a.used ==> a.after_dealloc(size).used + size == a.used,
        a.after_dealloc(size).used + a.after_dealloc(size).free == a.capacity,
        ArenaStats::fresh(a.arena_id, a.capacity).used == 0,
        ArenaStats::fresh(a.arena_id, a.capacity).free == a.capacity,
        ArenaStats::fresh(a.arena_id, a.capacity).allocation_count == 0,
{
}

/// What is left is never below nothing.
pub proof fn law_left_of(capacity: u64, used: u64)
    ensures
        used <= capacity ==> left_of(capacity, used) + used == capacity,
        used > capacity ==> left_of(capacity, used) == 0,
{
}

/// Thresholds are hundredths of eight gibibytes: a warning at ninety, critical
/// at ninety-five.
pub proof fn law_thresholds_of_memory(live: u64, pct: u64)
    ensures
        reaches(live, pct) <==> 100 * live >= pct * 8_589_934_592,
        WARNING_THRESHOLD_PCT == 90,
        CRITICAL_THRESHOLD_PCT == 95,
{
}

} // verus!
