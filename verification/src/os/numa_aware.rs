//! Memory accounting by NUMA node.
use crate::math;
use crate::network::tcp_tuning::Platform;
use vstd::prelude::*;

verus! {

/// Maximum number of NUMA nodes supported
pub const MAX_NUMA_NODES: usize = 8;

/// Maximum threads per node
pub const MAX_THREADS_PER_NODE: usize = 16;

/// L3 cache size per core complex
pub const TYPICAL_L3_CACHE_SIZE: usize = 16_777_216;

/// Alignment of allocations to cache lines
pub const CACHE_LINE: usize = 64;

/// NUMA topology information
#[derive(Debug, Clone, Copy, PartialEq, Eq, Structural)]
pub struct NumaTopology {
    /// Number of detected NUMA nodes
    pub node_count: usize,
    /// Cores per node
    pub cores_per_node: usize,
    /// L3 cache size per node in bytes
    pub l3_cache_size: usize,
    /// Whether NUMA is actually available
    pub numa_available: bool,
}

/// The topology of a machine of which nothing is known.
pub open spec fn plain_topology() -> NumaTopology {
    NumaTopology {
        node_count: 1,
        cores_per_node: 8,
        l3_cache_size: TYPICAL_L3_CACHE_SIZE,
        numa_available: false,
    }
}

impl Default for NumaTopology {
    fn default() -> (r: Self)
        ensures
            r == plain_topology(),
    {
        NumaTopology {
            node_count: 1,
            cores_per_node: 8,
            l3_cache_size: TYPICAL_L3_CACHE_SIZE,
            numa_available: false,
        }
    }
}

/// Memory allocation policy
#[derive(Debug, Clone, Copy, PartialEq, Eq, Structural)]
pub enum AllocationPolicy {
    /// Allocate on local node only
    LocalOnly,
    /// Prefer local, fall back to remote
    PreferredLocal,
    /// Interleave across nodes
    Interleaved,
    /// Explicit node binding
    Explicit(u32),
}

/// The topology of a machine: its processors are spread over as many nodes as
/// are supported.
pub open spec fn topology_of(platform: Platform, cpus: usize) -> NumaTopology {
    if platform == Platform::Windows {
        NumaTopology {
            cores_per_node: ((cpus + MAX_NUMA_NODES - 1) / (MAX_NUMA_NODES as int)) as usize,
            ..plain_topology()
        }
    } else {
        plain_topology()
    }
}

/// NUMA-aware memory allocator state
pub struct NumaAllocator {
    pub platform: Platform,
    pub topology: NumaTopology,
    pub current_node: u64,
    pub allocations_per_node: Vec<u64>,
    pub total_allocated: u64,
    pub is_initialized: bool,
}

impl NumaAllocator {
    pub open spec fn wf(&self) -> bool {
        &&& 0 < self.topology.node_count <= MAX_NUMA_NODES
        &&& self.allocations_per_node.len() == MAX_NUMA_NODES
    }

    /// Create a new NUMA allocator for a machine with a number of processors
    pub fn new(platform: Platform, cpus: usize) -> (r: Self)
        ensures
            r.wf(),
            r.platform == platform,
            r.topology == topology_of(platform, cpus),
            r.current_node == 0,
            forall|i: int|
                0 <= i < MAX_NUMA_NODES ==> #[trigger] r.allocations_per_node@[i] == 0,
            r.total_allocated == 0,
            !r.is_initialized,
    {
        let topology: NumaTopology = NumaAllocator::detect_topology(platform, cpus);
        let mut allocations_per_node: Vec<u64> = Vec::new();
        while allocations_per_node.len() < MAX_NUMA_NODES
            invariant
                allocations_per_node.len() <= MAX_NUMA_NODES,
                forall|i: int|
                    0 <= i < allocations_per_node.len() ==> #[trigger] allocations_per_node@[i]
                        == 0,
            decreases MAX_NUMA_NODES - allocations_per_node.len(),
        {
            allocations_per_node.push(0);
        }
        NumaAllocator {
            platform,
            topology,
            current_node: 0,
            allocations_per_node,
            total_allocated: 0,
            is_initialized: false,
        }
    }

    /// Detect system NUMA topology
    fn detect_topology(platform: Platform, cpus: usize) -> (r: NumaTopology)
        ensures
            r == topology_of(platform, cpus),
    {
        let mut topology: NumaTopology = NumaTopology::default();
        if platform == Platform::Windows {
            let whole: usize = cpus / MAX_NUMA_NODES;
            topology.cores_per_node = if cpus % MAX_NUMA_NODES == 0 {
                whole
            } else {
                whole + 1
            };
        }
        topology
    }

    /// Initialize the allocator (call once at startup)
    pub fn initialize(&mut self) -> (r: bool)
        ensures
            r,
            *final(self) == (NumaAllocator { is_initialized: true, ..*old(self) }),
    {
        self.is_initialized = true;
        true
    }

    /// The node of a thread.
    pub open spec fn node_of(&self, thread_id: u64) -> int {
        if !self.topology.numa_available && self.platform != Platform::Windows {
            thread_id as int % self.topology.node_count as int
        } else {
            0
        }
    }

    /// Get the optimal node for a thread
    pub fn get_current_node(&self, thread_id: u64) -> (r: u32)
        requires
            self.wf(),
        ensures
            r == self.node_of(thread_id),
            r < self.topology.node_count,
    {
        if !self.topology.numa_available && self.platform != Platform::Windows {
            return (thread_id % (self.topology.node_count as u64)) as u32;
        }
        0
    }

    /// The node that an allocation goes to.
    pub open spec fn target(&self, node: Option<u32>, thread_id: u64) -> int {
        match node {
            Some(n) => n as int,
            None => self.node_of(thread_id),
        }
    }

    /// Allocate memory on the specified NUMA node (or that of the thread)
    pub fn allocate_on_node(&mut self, size: usize, node: Option<u32>, thread_id: u64) -> (r:
        Option<Vec<u8>>)
        requires
            old(self).wf(),
        ensures
            final(self).wf(),
            ({
                let t = old(self).target(node, thread_id);
                match r {
                    Some(block) => {
                        &&& t < old(self).topology.node_count
                        &&& size <= isize::MAX - (CACHE_LINE - 1)
                        &&& block@ == Seq::new(size as nat, |i: int| 0u8)
                        &&& final(self).total_allocated == old(self).total_allocated.wrapping_add(
                            size as u64,
                        )
                        &&& final(self).allocations_per_node@ == old(self).allocations_per_node@.update(
                            t,
                            old(self).allocations_per_node@[t].wrapping_add(size as u64),
                        )
                    },
                    None => {
                        &&& t >= old(self).topology.node_count || size > isize::MAX - (CACHE_LINE
                            - 1)
                        &&& *final(self) == *old(self)
                    },
                }
            }),
            *final(self) == (NumaAllocator {
                total_allocated: final(self).total_allocated,
                allocations_per_node: final(self).allocations_per_node,
                ..*old(self)
            }),
    {
        let target_node: u32 = match node {
            Some(n) => n,
            None => self.get_current_node(thread_id),
        };
        if target_node as usize >= self.topology.node_count {
            return None;
        }
        if size > isize::MAX as usize - (CACHE_LINE - 1) {
            return None;
        }
        let t: usize = target_node as usize;
        let block: Vec<u8> = vec![0u8; size];
        assert(block@ =~= Seq::new(size as nat, |i: int| 0u8));
        self.total_allocated = self.total_allocated.wrapping_add(size as u64);
        let count: u64 = self.allocations_per_node[t];
        self.allocations_per_node.set(t, count.wrapping_add(size as u64));
        Some(block)
    }

    /// Free previously allocated memory
    pub fn deallocate(&mut self, block: Vec<u8>, size: usize, align: usize)
        requires
            math::is_power_of_two(align as int),
        ensures
            *final(self) == (NumaAllocator {
                total_allocated: old(self).total_allocated.wrapping_sub(size as u64),
                ..*old(self)
            }),
    {
        self.total_allocated = self.total_allocated.wrapping_sub(size as u64);
    }

    /// Bind current thread to specific NUMA node
    pub fn bind_thread_to_node(&mut self, node: u32) -> (r: bool)
        ensures
            r == (node < old(self).topology.node_count),
            *final(self) == (NumaAllocator {
                current_node: if r {
                    node as u64
                } else {
                    old(self).current_node
                },
                ..*old(self)
            }),
    {
        if node as usize >= self.topology.node_count {
            return false;
        }
        self.current_node = node as u64;
        true
    }

    /// Get allocation statistics for a node: the bytes of the node and of all
    pub fn get_node_stats(&self, node: u32) -> (r: (u64, u64))
        requires
            self.wf(),
        ensures
            r == (if node < self.topology.node_count {
                (self.allocations_per_node@[node as int], self.total_allocated)
            } else {
                (0u64, 0u64)
            }),
    {
        if node as usize >= self.topology.node_count {
            return (0, 0);
        }
        (self.allocations_per_node[node as usize], self.total_allocated)
    }

    /// Get total allocated bytes
    pub fn total_allocated(&self) -> (r: u64)
        ensures
            r == self.total_allocated,
    {
        self.total_allocated
    }

    /// Get topology information
    pub fn topology(&self) -> (r: &NumaTopology)
        ensures
            *r == self.topology,
    {
        &self.topology
    }

    /// Check if NUMA is available
    pub fn is_numa_available(&self) -> (r: bool)
        ensures
            r == self.topology.numa_available,
    {
        self.topology.numa_available
    }

    /// Get recommended data size for L3 cache fit: three quarters of it
    pub fn recommended_cache_fit_size(&self) -> (r: usize)
        requires
            self.topology.l3_cache_size * 3 <= usize::MAX,
        ensures
            r == self.topology.l3_cache_size * 3 / 4,
    {
        self.topology.l3_cache_size * 3 / 4
    }
}

/// Guard for thread NUMA binding
pub struct NumaThreadGuard {
    pub original_node: u32,
    pub bound_node: u32,
}

impl NumaThreadGuard {
    /// Create a new thread guard that binds to specified node
    pub fn new(allocator: &mut NumaAllocator, node: u32, thread_id: u64) -> (r: Option<Self>)
        requires
            old(allocator).wf(),
        ensures
            final(allocator).wf(),
            match r {
                Some(g) => {
                    &&& node < old(allocator).topology.node_count
                    &&& g.original_node == old(allocator).node_of(thread_id)
                    &&& g.bound_node == node
                    &&& *final(allocator) == (NumaAllocator {
                        current_node: node as u64,
                        ..*old(allocator)
                    })
                },
                None => node >= old(allocator).topology.node_count && *final(allocator) == *old(
                    allocator,
                ),
            },
    {
        let current: u32 = allocator.get_current_node(thread_id);
        if allocator.bind_thread_to_node(node) {
            Some(NumaThreadGuard { original_node: current, bound_node: node })
        } else {
            None
        }
    }

    /// Binds the thread to the node that it came from.
    pub fn release(self, allocator: &mut NumaAllocator)
        ensures
            *final(allocator) == (NumaAllocator {
                current_node: if self.original_node < old(allocator).topology.node_count {
                    self.original_node as u64
                } else {
                    old(allocator).current_node
                },
                ..*old(allocator)
            }),
    {
        let _ = allocator.bind_thread_to_node(self.original_node);
    }
}

/// Without further knowledge there is one node of eight cores with sixteen
/// mebibytes of cache; on Windows the cores are spread over eight nodes, rounded
/// up.
pub proof fn law_topologies(platform: Platform, cpus: usize)
    requires
        cpus <= usize::MAX - 7,
    ensures
        plain_topology().node_count == 1,
        plain_topology().cores_per_node == 8,
        plain_topology().l3_cache_size == 16 * 1024 * 1024,
        !plain_topology().numa_available,
        platform != Platform::Windows ==> topology_of(platform, cpus) == plain_topology(),
        platform == Platform::Windows ==> cpus <= 8 * topology_of(platform, cpus).cores_per_node
            < cpus + 8,
        topology_of(platform, cpus).node_count == 1,
{
}

/// An allocation goes to the node that it names, and otherwise to that of its
/// thread, which the threads take in turn where the system does not tell.
pub proof fn law_allocation_node(a: NumaAllocator, node: u32, thread_id: u64)
    requires
        a.wf(),
    ensures
        a.target(Some(node), thread_id) == node,
        a.target(None, thread_id) == a.node_of(thread_id),
        0 <= a.node_of(thread_id) < a.topology.node_count,
        a.topology.numa_available || a.platform == Platform::Windows ==> a.node_of(thread_id) == 0,
        !a.topology.numa_available && a.platform != Platform::Windows ==> (thread_id - a.node_of(
            thread_id,
        )) % (a.topology.node_count as int) == 0,
{
    let (t, n) = (thread_id as int, a.topology.node_count as int);
    vstd::arithmetic::div_mod::lemma_mod_bound(t, n);
    vstd::arithmetic::div_mod::lemma_fundamental_div_mod(t, n);
    let q = t / n;
    assert(t - t % n == n * q);
    assert((n * q) % n == 0) by {
        vstd::arithmetic::div_mod::lemma_mod_multiples_basic(q, n);
        assert(q * n == n * q) by (nonlinear_arith);
    }
}

} // verus!
