//! A fixed-size pool of connections, handed out round-robin.
use crate::math;
use crate::math::{min_usize, Ratio};
use vstd::prelude::*;

verus! {

/// Maximum connections per pool
pub const MAX_POOL_SIZE: usize = 64;

/// Connection state tracking
#[derive(Debug, Clone, Copy, PartialEq, Eq, Structural)]
pub enum ConnectionState {
    Fresh,
    Active,
    Idle,
    Stale,
    Dead,
}

/// Wrapped connection with metadata for pool management. Times are
/// nanoseconds of the caller's clock.
pub struct PooledConnection<T> {
    /// The actual connection
    pub inner: Option<T>,
    /// Last activity timestamp
    pub last_used_ns: u64,
    /// Current state
    pub state: ConnectionState,
    /// Connection ID for tracking
    pub id: u64,
    /// Target address this connection is bound to
    pub target: String,
    /// TLS session ticket for fast resumption (if applicable)
    pub tls_session_data: Option<Vec<u8>>,
}

/// Nanoseconds since a moment, zero where the clock ran backwards.
pub open spec fn age(since_ns: u64, now_ns: u64) -> int {
    if now_ns >= since_ns {
        now_ns - since_ns
    } else {
        0
    }
}

impl<T> PooledConnection<T> {
    pub fn new(id: u64, target: String, now_ns: u64) -> (r: Self)
        ensures
            r.inner is None,
            r.last_used_ns == now_ns,
            r.state == ConnectionState::Fresh,
            r.id == id,
            r.target == target,
            r.tls_session_data is None,
    {
        PooledConnection {
            inner: None,
            last_used_ns: now_ns,
            state: ConnectionState::Fresh,
            id,
            target,
            tls_session_data: None,
        }
    }

    /// The same connection, in another state since `now_ns`.
    pub open spec fn marked(self, state: ConnectionState, now_ns: u64) -> PooledConnection<T> {
        PooledConnection { state, last_used_ns: now_ns, ..self }
    }

    pub fn mark_active(&mut self, now_ns: u64)
        ensures
            *final(self) == old(self).marked(ConnectionState::Active, now_ns),
    {
        self.state = ConnectionState::Active;
        self.last_used_ns = now_ns;
    }

    pub fn mark_idle(&mut self, now_ns: u64)
        ensures
            *final(self) == old(self).marked(ConnectionState::Idle, now_ns),
    {
        self.state = ConnectionState::Idle;
        self.last_used_ns = now_ns;
    }

    pub open spec fn stale(&self, timeout_ns: u64, now_ns: u64) -> bool {
        age(self.last_used_ns, now_ns) > timeout_ns
    }

    pub fn is_stale(&self, timeout_ns: u64, now_ns: u64) -> (r: bool)
        ensures
            r == self.stale(timeout_ns, now_ns),
    {
        now_ns.saturating_sub(self.last_used_ns) > timeout_ns
    }
}

/// A slot can be handed out: it holds a connection that is neither dead nor
/// unused for too long.
pub open spec fn usable<T>(slot: Option<PooledConnection<T>>, timeout_ns: u64, now_ns: u64)
    -> bool {
    match slot {
        Some(c) => c.state != ConnectionState::Dead && !c.stale(timeout_ns, now_ns),
        None => false,
    }
}

/// The first usable slot among those `from..slots.len()` steps round-robin
/// from `start`.
pub open spec fn next_usable<T>(
    slots: Seq<Option<PooledConnection<T>>>,
    start: int,
    from: int,
    timeout_ns: u64,
    now_ns: u64,
) -> Option<int>
    decreases slots.len() - from,
{
    if from >= slots.len() {
        None
    } else if usable(slots[(start + from) % slots.len() as int], timeout_ns, now_ns) {
        Some((start + from) % slots.len() as int)
    } else {
        next_usable(slots, start, from + 1, timeout_ns, now_ns)
    }
}

/// Pool statistics structure
#[derive(Debug, Clone, Copy, PartialEq, Eq, Structural)]
pub struct PoolStats {
    pub capacity: usize,
    pub active: usize,
    pub total_acquisitions: usize,
    pub cache_hits: usize,
    /// Cache hits over acquisitions (nothing out of one before the first).
    pub hit_rate: Ratio,
}

/// Connection pool with round-robin selection.
pub struct ConnectionPool<T> {
    /// Pre-allocated connection storage
    pub connections: Vec<Option<PooledConnection<T>>>,
    /// Counter for round-robin distribution
    pub current_index: usize,
    /// Total active connections
    pub active_count: usize,
    /// Connection timeout threshold
    pub stale_timeout_ns: u64,
    /// Flag indicating pool is shutting down
    pub shutdown: bool,
    /// Health check interval
    pub health_check_interval_ns: u64,
    /// Statistics: total acquisitions
    pub total_acquisitions: usize,
    /// Statistics: cache hits (reused connections)
    pub cache_hits: usize,
}

impl<T> ConnectionPool<T> {
    pub open spec fn wf(&self) -> bool {
        self.connections.len() <= MAX_POOL_SIZE
    }

    pub open spec fn capacity(&self) -> nat {
        self.connections@.len()
    }

    /// Create a new connection pool with specified capacity
    pub fn new(capacity: usize, stale_timeout_ns: u64) -> (r: Self)
        ensures
            r.wf(),
            r.capacity() == math::min_int(capacity as int, MAX_POOL_SIZE as int),
            forall|i: int| 0 <= i < r.capacity() ==> #[trigger] r.connections@[i] is None,
            r.current_index == 0,
            r.active_count == 0,
            r.stale_timeout_ns == stale_timeout_ns,
            !r.shutdown,
            r.health_check_interval_ns == 1_000_000_000,
            r.total_acquisitions == 0,
            r.cache_hits == 0,
    {
        let slots: usize = min_usize(capacity, MAX_POOL_SIZE);
        let mut connections: Vec<Option<PooledConnection<T>>> = Vec::with_capacity(slots);
        while connections.len() < slots
            invariant
                connections.len() <= slots,
                forall|i: int| 0 <= i < connections.len() ==> #[trigger] connections@[i] is None,
            decreases slots - connections.len(),
        {
            connections.push(None);
        }
        ConnectionPool {
            connections,
            current_index: 0,
            active_count: 0,
            stale_timeout_ns,
            shutdown: false,
            health_check_interval_ns: 1_000_000_000,
            total_acquisitions: 0,
            cache_hits: 0,
        }
    }

    /// Nothing but the slots, the round-robin position and the counters of
    /// acquisitions may differ.
    pub open spec fn same_settings(&self, other: &ConnectionPool<T>) -> bool {
        &&& self.stale_timeout_ns == other.stale_timeout_ns
        &&& self.shutdown == other.shutdown
        &&& self.health_check_interval_ns == other.health_check_interval_ns
    }

    /// Acquire a connection from the pool
    pub fn acquire(&mut self, now_ns: u64) -> (r: Option<usize>)
        requires
            old(self).wf(),
            old(self).capacity() > 0 || old(self).shutdown,
        ensures
            final(self).wf(),
            final(self).same_settings(old(self)),
            final(self).active_count == old(self).active_count,
            old(self).shutdown ==> r is None && *final(self) == *old(self),
            !old(self).shutdown ==> {
                let start = old(self).current_index as int % old(self).capacity() as int;
                let found = next_usable(
                    old(self).connections@,
                    start,
                    0,
                    old(self).stale_timeout_ns,
                    now_ns,
                );
                &&& final(self).current_index == old(self).current_index.wrapping_add(1)
                &&& match r {
                    Some(idx) => {
                        &&& found == Some(idx as int)
                        &&& idx < old(self).capacity()
                        &&& final(self).connections@ == old(self).connections@.update(
                            idx as int,
                            Some(
                                old(self).connections@[idx as int]->0.marked(
                                    ConnectionState::Active,
                                    now_ns,
                                ),
                            ),
                        )
                        &&& final(self).total_acquisitions == old(self).total_acquisitions.wrapping_add(1)
                        &&& final(self).cache_hits == old(self).cache_hits.wrapping_add(1)
                    },
                    None => {
                        &&& found is None
                        &&& final(self).connections@ == old(self).connections@
                        &&& final(self).total_acquisitions == old(self).total_acquisitions
                        &&& final(self).cache_hits == old(self).cache_hits
                    },
                }
            },
    {
        if self.shutdown {
            return None;
        }
        let capacity: usize = self.connections.len();
        let start: usize = self.current_index % capacity;
        self.current_index = self.current_index.wrapping_add(1);
        let ghost slots = self.connections@;
        let mut i: usize = 0;
        while i < capacity
            invariant
                0 < capacity <= MAX_POOL_SIZE,
                i <= capacity,
                start < capacity,
                capacity == slots.len(),
                self.connections@ == slots,
                self.current_index == old(self).current_index.wrapping_add(1),
                self.active_count == old(self).active_count,
                self.same_settings(old(self)),
                self.total_acquisitions == old(self).total_acquisitions,
                self.cache_hits == old(self).cache_hits,
                old(self).connections@ == slots,
                !old(self).shutdown,
                start == old(self).current_index as int % old(self).capacity() as int,
                next_usable(slots, start as int, 0, old(self).stale_timeout_ns, now_ns)
                    == next_usable(
                    slots,
                    start as int,
                    i as int,
                    old(self).stale_timeout_ns,
                    now_ns,
                ),
            decreases capacity - i,
        {
            let idx: usize = (start + i) % capacity;
            let free: bool = match &self.connections[idx] {
                Some(conn) => {
                    match conn.state {
                        ConnectionState::Dead => false,
                        _ => !conn.is_stale(self.stale_timeout_ns, now_ns),
                    }
                },
                None => false,
            };
            assert(free == usable(slots[idx as int], self.stale_timeout_ns, now_ns));
            if free {
                self.set_state(idx, ConnectionState::Active, now_ns);
                self.total_acquisitions = self.total_acquisitions.wrapping_add(1);
                self.cache_hits = self.cache_hits.wrapping_add(1);
                return Some(idx);
            }
            i = i + 1;
        }
        None
    }

    /// Puts the connection of a filled slot into a state.
    fn set_state(&mut self, index: usize, state: ConnectionState, now_ns: u64)
        requires
            index < old(self).connections.len(),
            old(self).connections@[index as int] is Some,
        ensures
            final(self).connections@ == old(self).connections@.update(
                index as int,
                Some(old(self).connections@[index as int]->0.marked(state, now_ns)),
            ),
            final(self).same_settings(old(self)),
            final(self).current_index == old(self).current_index,
            final(self).active_count == old(self).active_count,
            final(self).total_acquisitions == old(self).total_acquisitions,
            final(self).cache_hits == old(self).cache_hits,
    {
        let mut slot: Option<PooledConnection<T>> = None;
        std::mem::swap(&mut slot, &mut self.connections[index]);
        match slot {
            Some(conn) => {
                let mut changed: PooledConnection<T> = conn;
                changed.state = state;
                changed.last_used_ns = now_ns;
                self.connections.set(index, Some(changed));
            },
            None => {},
        }
    }

    fn is_filled(&self, index: usize) -> (r: bool)
        requires
            index < self.connections.len(),
        ensures
            r == (self.connections@[index as int] is Some),
    {
        match &self.connections[index] {
            Some(_) => true,
            None => false,
        }
    }

    /// What an operation on a slot is refused with, if it is; `empty` is said
    /// of a slot that holds no connection.
    pub open spec fn slot_error(&self, index: usize, empty: Seq<char>) -> Option<Seq<char>> {
        if index >= self.capacity() {
            Some("Invalid connection index"@)
        } else if self.connections@[index as int] is None {
            Some(empty)
        } else {
            None
        }
    }

    /// Return a connection to the pool
    pub fn release(&mut self, index: usize, now_ns: u64) -> (r: Result<(), &'static str>)
        requires
            old(self).wf(),
        ensures
            final(self).wf(),
            match old(self).slot_error(index, "Failed to release connection"@) {
                Some(m) => (r matches Err(e) && e@ == m) && *final(self) == *old(self),
                None => {
                    &&& r is Ok
                    &&& final(self).connections@ == old(self).connections@.update(
                        index as int,
                        Some(
                            old(self).connections@[index as int]->0.marked(
                                ConnectionState::Idle,
                                now_ns,
                            ),
                        ),
                    )
                    &&& final(self).same_settings(old(self))
                    &&& final(self).current_index == old(self).current_index
                    &&& final(self).active_count == old(self).active_count
                    &&& final(self).total_acquisitions == old(self).total_acquisitions
                    &&& final(self).cache_hits == old(self).cache_hits
                },
            },
    {
        if index >= self.connections.len() {
            return Err("Invalid connection index");
        }
        if !self.is_filled(index) {
            return Err("Failed to release connection");
        }
        self.set_state(index, ConnectionState::Idle, now_ns);
        Ok(())
    }

    /// Insert a new connection into the pool at specified index
    pub fn insert(&mut self, index: usize, conn: PooledConnection<T>) -> (r: Result<(), &'static str>)
        requires
            old(self).wf(),
        ensures
            final(self).wf(),
            if index >= old(self).capacity() {
                &&& r matches Err(e) && e@ == "Invalid connection index"@
                &&& *final(self) == *old(self)
            } else {
                &&& r is Ok
                &&& final(self).connections@ == old(self).connections@.update(
                    index as int,
                    Some(conn),
                )
                &&& final(self).active_count == old(self).active_count.wrapping_add(1)
                &&& final(self).same_settings(old(self))
                &&& final(self).current_index == old(self).current_index
                &&& final(self).total_acquisitions == old(self).total_acquisitions
                &&& final(self).cache_hits == old(self).cache_hits
            },
    {
        if index >= self.connections.len() {
            return Err("Invalid connection index");
        }
        self.connections.set(index, Some(conn));
        self.active_count = self.active_count.wrapping_add(1);
        Ok(())
    }

    /// Remove and mark a connection as dead
    pub fn mark_dead(&mut self, index: usize) -> (r: Result<(), &'static str>)
        requires
            old(self).wf(),
        ensures
            final(self).wf(),
            match old(self).slot_error(index, "Failed to mark connection dead"@) {
                Some(m) => (r matches Err(e) && e@ == m) && *final(self) == *old(self),
                None => {
                    let c = old(self).connections@[index as int]->0;
                    &&& r is Ok
                    &&& final(self).connections@ == old(self).connections@.update(
                        index as int,
                        Some(c.marked(ConnectionState::Dead, c.last_used_ns)),
                    )
                    &&& final(self).active_count == old(self).active_count.wrapping_sub(1)
                    &&& final(self).same_settings(old(self))
                    &&& final(self).current_index == old(self).current_index
                    &&& final(self).total_acquisitions == old(self).total_acquisitions
                    &&& final(self).cache_hits == old(self).cache_hits
                },
            },
    {
        if index >= self.connections.len() {
            return Err("Invalid connection index");
        }
        let last_used: u64 = match &self.connections[index] {
            Some(conn) => conn.last_used_ns,
            None => {
                return Err("Failed to mark connection dead");
            },
        };
        self.set_state(index, ConnectionState::Dead, last_used);
        self.active_count = self.active_count.wrapping_sub(1);
        Ok(())
    }

    /// Get pool statistics
    pub fn get_stats(&self) -> (r: PoolStats)
        ensures
            r.capacity == self.capacity(),
            r.active == self.active_count,
            r.total_acquisitions == self.total_acquisitions,
            r.cache_hits == self.cache_hits,
            r.hit_rate == (if self.total_acquisitions > 0 {
                Ratio { num: self.cache_hits as u64, den: self.total_acquisitions as u64 }
            } else {
                Ratio { num: 0, den: 1 }
            }),
    {
        PoolStats {
            capacity: self.connections.len(),
            active: self.active_count,
            total_acquisitions: self.total_acquisitions,
            cache_hits: self.cache_hits,
            hit_rate: if self.total_acquisitions > 0 {
                Ratio { num: self.cache_hits as u64, den: self.total_acquisitions as u64 }
            } else {
                Ratio { num: 0, den: 1 }
            },
        }
    }

    /// Initiate graceful shutdown
    pub fn shutdown(&mut self)
        ensures
            final(self).shutdown,
            final(self).connections == old(self).connections,
            final(self).current_index == old(self).current_index,
            final(self).active_count == old(self).active_count,
            final(self).stale_timeout_ns == old(self).stale_timeout_ns,
            final(self).health_check_interval_ns == old(self).health_check_interval_ns,
            final(self).total_acquisitions == old(self).total_acquisitions,
            final(self).cache_hits == old(self).cache_hits,
    {
        self.shutdown = true;
    }

    /// Check if pool is shutting down
    pub fn is_shutdown(&self) -> (r: bool)
        ensures
            r == self.shutdown,
    {
        self.shutdown
    }
}

/// What the search for a slot finds is usable, and it finds one wherever there
/// is one.
pub proof fn law_acquire_finds_usable<T>(
    slots: Seq<Option<PooledConnection<T>>>,
    start: int,
    from: int,
    timeout_ns: u64,
    now_ns: u64,
)
    requires
        slots.len() > 0,
        0 <= start < slots.len(),
        0 <= from <= slots.len(),
    ensures
        match next_usable(slots, start, from, timeout_ns, now_ns) {
            Some(i) => 0 <= i < slots.len() && usable(slots[i], timeout_ns, now_ns),
            None => forall|k: int|
                from <= k < slots.len() ==> !usable(
                    #[trigger] slots[(start + k) % slots.len() as int],
                    timeout_ns,
                    now_ns,
                ),
        },
    decreases slots.len() - from,
{
    if from < slots.len() {
        law_acquire_finds_usable(slots, start, from + 1, timeout_ns, now_ns);
        let n = slots.len() as int;
        assert(0 <= (start + from) % n < n) by (nonlinear_arith)
            requires
                n > 0,
        ;
    }
}

/// An empty round finds nothing: with every slot unusable no connection is
/// handed out, wherever the round starts.
pub proof fn law_no_usable_slot_none_found<T>(
    slots: Seq<Option<PooledConnection<T>>>,
    start: int,
    from: int,
    timeout_ns: u64,
    now_ns: u64,
)
    requires
        slots.len() > 0,
        0 <= start < slots.len(),
        0 <= from <= slots.len(),
        forall|i: int| 0 <= i < slots.len() ==> !usable(#[trigger] slots[i], timeout_ns, now_ns),
    ensures
        next_usable(slots, start, from, timeout_ns, now_ns) is None,
    decreases slots.len() - from,
{
    if from < slots.len() {
        let n = slots.len() as int;
        assert(0 <= (start + from) % n < n) by (nonlinear_arith)
            requires
                n > 0,
        ;
        law_no_usable_slot_none_found(slots, start, from + 1, timeout_ns, now_ns);
    }
}

/// Builder for creating connection pools
pub struct ConnectionPoolBuilder {
    pub capacity: usize,
    pub stale_timeout_ns: u64,
    pub target_addr: Option<String>,
}

impl ConnectionPoolBuilder {
    pub fn new() -> (r: Self)
        ensures
            r.capacity == 32,
            r.stale_timeout_ns == 30_000_000_000,
            r.target_addr is None,
    {
        ConnectionPoolBuilder { capacity: 32, stale_timeout_ns: 30_000_000_000, target_addr: None }
    }

    pub fn capacity(self, cap: usize) -> (r: Self)
        ensures
            r.capacity == math::min_int(cap as int, MAX_POOL_SIZE as int),
            r.stale_timeout_ns == self.stale_timeout_ns,
            r.target_addr == self.target_addr,
    {
        ConnectionPoolBuilder {
            capacity: min_usize(cap, MAX_POOL_SIZE),
            stale_timeout_ns: self.stale_timeout_ns,
            target_addr: self.target_addr,
        }
    }

    pub fn stale_timeout(self, timeout_ns: u64) -> (r: Self)
        ensures
            r.capacity == self.capacity,
            r.stale_timeout_ns == timeout_ns,
            r.target_addr == self.target_addr,
    {
        ConnectionPoolBuilder {
            capacity: self.capacity,
            stale_timeout_ns: timeout_ns,
            target_addr: self.target_addr,
        }
    }

    pub fn target_address(self, addr: String) -> (r: Self)
        ensures
            r.capacity == self.capacity,
            r.stale_timeout_ns == self.stale_timeout_ns,
            r.target_addr == Some(addr),
    {
        ConnectionPoolBuilder {
            capacity: self.capacity,
            stale_timeout_ns: self.stale_timeout_ns,
            target_addr: Some(addr),
        }
    }

    pub fn build<T>(self) -> (r: ConnectionPool<T>)
        ensures
            r.wf(),
            r.capacity() == math::min_int(self.capacity as int, MAX_POOL_SIZE as int),
            r.stale_timeout_ns == self.stale_timeout_ns,
            forall|i: int| 0 <= i < r.capacity() ==> #[trigger] r.connections@[i] is None,
            r.active_count == 0,
            r.current_index == 0,
            r.total_acquisitions == 0,
            r.cache_hits == 0,
            !r.shutdown,
    {
        ConnectionPool::new(self.capacity, self.stale_timeout_ns)
    }
}

impl Default for ConnectionPoolBuilder {
    fn default() -> (r: Self)
        ensures
            r.capacity == 32,
            r.stale_timeout_ns == 30_000_000_000,
            r.target_addr is None,
    {
        ConnectionPoolBuilder::new()
    }
}

/// A connection can be used while it is not dead and was used no longer ago
/// than the timeout.
pub proof fn law_usable_until_timeout<T>(c: PooledConnection<T>, timeout_ns: u64, now_ns: u64)
    ensures
        usable(Some(c), timeout_ns, now_ns) <==> c.state != ConnectionState::Dead && now_ns
            <= c.last_used_ns + timeout_ns,
        !usable(None::<PooledConnection<T>>, timeout_ns, now_ns),
{
}

/// Connections are handed out in turn: the one found is the first that can be
/// used, going round from the start.
pub proof fn law_acquire_goes_round<T>(
    slots: Seq<Option<PooledConnection<T>>>,
    start: int,
    from: int,
    timeout_ns: u64,
    now_ns: u64,
)
    requires
        slots.len() > 0,
        0 <= from <= slots.len(),
    ensures
        next_usable(slots, start, from, timeout_ns, now_ns) matches Some(i) ==> exists|k: int|
            from <= k < slots.len() && i == #[trigger] ((start + k) % slots.len() as int) && usable(
                slots[i],
                timeout_ns,
                now_ns,
            ) && forall|j: int|
                from <= j < k ==> !usable(
                    #[trigger] slots[(start + j) % slots.len() as int],
                    timeout_ns,
                    now_ns,
                ),
    decreases slots.len() - from,
{
    if from < slots.len() {
        if usable(slots[(start + from) % slots.len() as int], timeout_ns, now_ns) {
            let k = from;
            assert(next_usable(slots, start, from, timeout_ns, now_ns) == Some(
                (start + k) % slots.len() as int,
            ));
        } else {
            law_acquire_goes_round(slots, start, from + 1, timeout_ns, now_ns);
        }
    }
}

/// A mark changes the state and the time of last use, and nothing else.
pub proof fn law_mark_keeps_connection<T>(
    c: PooledConnection<T>,
    state: ConnectionState,
    now_ns: u64,
)
    ensures
        ({
            let m = c.marked(state, now_ns);
            &&& m.state == state
            &&& m.last_used_ns == now_ns
            &&& m.inner == c.inner
            &&& m.id == c.id
            &&& m.target == c.target
            &&& m.tls_session_data == c.tls_session_data
        }),
{
}

/// A slot is named wrong where its number is beyond the pool, and empty where
/// it holds no connection.
pub proof fn law_slot_errors<T>(p: ConnectionPool<T>, index: usize, empty: Seq<char>)
    ensures
        index >= p.connections@.len() ==> p.slot_error(index, empty) == Some(
            "Invalid connection index"@,
        ),
        index < p.connections@.len() && p.connections@[index as int] is None ==> p.slot_error(
            index,
            empty,
        ) == Some(empty),
        index < p.connections@.len() && p.connections@[index as int] is Some ==> p.slot_error(
            index,
            empty,
        ) is None,
{
}

} // verus!
