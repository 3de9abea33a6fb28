//! Completion events of overlapped operations and the connections they
//! belong to.
use crate::math;
use crate::math::{min_usize, next_power_of_two};
use crate::ring::Ring;
use vstd::prelude::*;

verus! {

/// Maximum entries in ring buffer
pub const MAX_IOCP_ENTRIES: usize = 65536;

/// Maximum concurrent connections
pub const MAX_CONNECTIONS: usize = 8192;

/// Default buffer size per connection
pub const CONNECTION_BUFFER_SIZE: usize = 32768;

/// One overlapped operation.
#[derive(Debug, Clone, Copy, PartialEq, Eq, Structural)]
pub struct OverlappedWrapper {
    /// Operation type
    pub op_type: u32,
    /// Connection ID
    pub connection_id: u32,
    /// Buffer offset
    pub offset: u32,
    /// Bytes transferred
    pub bytes_transferred: u32,
}

impl OverlappedWrapper {
    pub fn new(op_type: u32, connection_id: u32) -> (r: Self)
        ensures
            r == (OverlappedWrapper { op_type, connection_id, offset: 0, bytes_transferred: 0 }),
    {
        OverlappedWrapper { op_type, connection_id, offset: 0, bytes_transferred: 0 }
    }
}

/// Ring buffer statistics
#[derive(Debug, Clone, Copy, PartialEq, Eq, Structural)]
pub struct RingBufferStats {
    pub capacity: usize,
    pub current_size: usize,
    pub total_enqueued: u64,
    pub total_dequeued: u64,
    pub is_empty: bool,
    pub is_full: bool,
}

/// Ring buffer for completions
pub struct IocpRingBuffer {
    pub ring: Ring<OverlappedWrapper>,
    /// Capacity (power of 2)
    pub capacity: usize,
    /// Total enqueued
    pub total_enqueued: u64,
    /// Total dequeued
    pub total_dequeued: u64,
}

impl View for IocpRingBuffer {
    type V = Seq<OverlappedWrapper>;

    /// The completions waiting, oldest first.
    open spec fn view(&self) -> Seq<OverlappedWrapper> {
        self.ring@
    }
}

/// The capacity given for a wanted one: bounded, and a power of two.
pub open spec fn granted_capacity(granted: int, wanted: int) -> bool {
    let n = math::min_int(wanted, MAX_IOCP_ENTRIES as int);
    &&& math::is_power_of_two(granted)
    &&& granted >= n
    &&& granted == 1 || granted < 2 * n
}

impl IocpRingBuffer {
    pub open spec fn wf(&self) -> bool {
        self.ring.wf() && self.ring.capacity == self.capacity
    }

    /// What came in and has not gone out is what waits. The counters wrap around
    /// at the end of their type.
    pub open spec fn counts_match(&self) -> bool {
        self.total_enqueued.wrapping_sub(self.total_dequeued) == self@.len()
    }

    /// Create new ring buffer with bounded capacity
    pub fn new(capacity: usize) -> (r: Result<Self, IocpError>)
        ensures
            match r {
                Ok(b) => {
                    &&& b.wf()
                    &&& granted_capacity(b.capacity as int, capacity as int)
                    &&& b.capacity <= MAX_IOCP_ENTRIES
                    &&& b@ == Seq::<OverlappedWrapper>::empty()
                    &&& b.total_enqueued == 0
                    &&& b.total_dequeued == 0
                    &&& b.counts_match()
                    &&& b.ring.tail == 0
                },
                Err(_) => false,
            },
    {
        let bounded: usize = min_usize(capacity, MAX_IOCP_ENTRIES);
        let granted: usize = next_power_of_two(bounded);
        proof {
            lemma_capacity_bounded(granted as int, bounded as int);
        }
        Ok(
            IocpRingBuffer {
                ring: Ring::new(granted),
                capacity: granted,
                total_enqueued: 0,
                total_dequeued: 0,
            },
        )
    }

    /// Push completion entry (producer side)
    pub fn push(&mut self, entry: OverlappedWrapper) -> (r: Result<(), OverlappedWrapper>)
        requires
            old(self).wf(),
            old(self)@.len() < old(self).capacity ==> old(self).ring.tail < u64::MAX,
        ensures
            final(self).wf(),
            final(self).capacity == old(self).capacity,
            final(self).total_dequeued == old(self).total_dequeued,
            if old(self)@.len() < old(self).capacity {
                &&& r is Ok
                &&& final(self)@ == old(self)@.push(entry)
                &&& final(self).total_enqueued == old(self).total_enqueued.wrapping_add(1)
                &&& final(self).ring.tail == old(self).ring.tail + 1
            } else {
                &&& r == Err::<(), OverlappedWrapper>(entry)
                &&& *final(self) == *old(self)
            },
            old(self).counts_match() ==> final(self).counts_match(),
    {
        if !self.ring.push(entry) {
            return Err(entry);
        }
        self.total_enqueued = self.total_enqueued.wrapping_add(1);
        Ok(())
    }

    /// Pop completion entry (consumer side)
    pub fn pop(&mut self) -> (r: Option<OverlappedWrapper>)
        requires
            old(self).wf(),
        ensures
            final(self).wf(),
            final(self).capacity == old(self).capacity,
            final(self).total_enqueued == old(self).total_enqueued,
            final(self).ring.tail == old(self).ring.tail,
            match r {
                Some(e) => {
                    &&& old(self)@.len() > 0
                    &&& e == old(self)@[0]
                    &&& final(self)@ == old(self)@.subrange(1, old(self)@.len() as int)
                    &&& final(self).total_dequeued == old(self).total_dequeued.wrapping_add(1)
                },
                None => old(self)@.len() == 0 && *final(self) == *old(self),
            },
            old(self).counts_match() ==> final(self).counts_match(),
    {
        let entry: Option<OverlappedWrapper> = self.ring.pop();
        match entry {
            Some(_) => {
                self.total_dequeued = self.total_dequeued.wrapping_add(1);
            },
            None => {},
        }
        entry
    }

    /// Check if buffer is empty
    pub fn is_empty(&self) -> (r: bool)
        requires
            self.wf(),
        ensures
            r == (self@.len() == 0),
    {
        self.ring.is_empty()
    }

    /// Check if buffer is full
    pub fn is_full(&self) -> (r: bool)
        requires
            self.wf(),
        ensures
            r == (self@.len() == self.capacity),
    {
        self.ring.is_full()
    }

    /// Get current size
    pub fn len(&self) -> (r: usize)
        requires
            self.wf(),
        ensures
            r == self@.len(),
    {
        self.ring.len()
    }

    pub open spec fn stats_of(&self) -> RingBufferStats {
        RingBufferStats {
            capacity: self.capacity,
            current_size: self@.len() as usize,
            total_enqueued: self.total_enqueued,
            total_dequeued: self.total_dequeued,
            is_empty: self@.len() == 0,
            is_full: self@.len() == self.capacity,
        }
    }

    /// Get statistics
    pub fn get_stats(&self) -> (r: RingBufferStats)
        requires
            self.wf(),
        ensures
            r == self.stats_of(),
    {
        RingBufferStats {
            capacity: self.capacity,
            current_size: self.len(),
            total_enqueued: self.total_enqueued,
            total_dequeued: self.total_dequeued,
            is_empty: self.is_empty(),
            is_full: self.is_full(),
        }
    }

    /// Clear all entries
    pub fn clear(&mut self)
        requires
            old(self).wf(),
        ensures
            final(self).wf(),
            final(self)@ == Seq::<OverlappedWrapper>::empty(),
            final(self).capacity == old(self).capacity,
            final(self).total_enqueued == old(self).total_enqueued,
            final(self).total_dequeued == old(self).total_dequeued,
            final(self).ring.tail == old(self).ring.tail,
    {
        self.ring.clear();
    }
}

/// The bound on entries is itself a power of two, so rounding up never passes it.
proof fn lemma_capacity_bounded(granted: int, bounded: int)
    requires
        math::is_power_of_two(granted),
        granted >= bounded,
        granted == 1 || granted < 2 * bounded,
        0 <= bounded <= MAX_IOCP_ENTRIES,
    ensures
        granted <= MAX_IOCP_ENTRIES,
{
    assert(math::is_power_of_two(65536)) by {
        reveal_with_fuel(math::is_power_of_two, 17);
    }
    if granted > 65536 {
        math::lemma_no_power_between(granted, 65536);
    }
}

/// Connection statistics
#[derive(Debug, Clone, Copy, PartialEq, Eq, Structural)]
pub struct ConnectionStats {
    pub id: u32,
    pub is_connected: bool,
    pub bytes_received: u64,
    pub bytes_sent: u64,
    pub pending_ops: usize,
    pub buffer_size: usize,
}

/// Connection state
pub struct IocpConnection {
    /// Connection ID
    pub id: u32,
    /// Socket handle
    pub socket: u64,
    /// Receive buffer
    pub recv_buffer: Vec<u8>,
    /// Send buffer
    pub send_buffer: Vec<u8>,
    /// Buffer size
    pub buffer_size: usize,
    /// Is connected
    pub is_connected: bool,
    /// Bytes received
    pub bytes_received: u64,
    /// Bytes sent
    pub bytes_sent: u64,
    /// Pending overlapped operations
    pub pending_ops: usize,
}

pub open spec fn zeroes(s: Seq<u8>) -> bool {
    forall|i: int| 0 <= i < s.len() ==> #[trigger] s[i] == 0
}

impl IocpConnection {
    pub open spec fn wf(&self) -> bool {
        &&& self.buffer_size == CONNECTION_BUFFER_SIZE
        &&& self.recv_buffer.len() == self.buffer_size
        &&& self.send_buffer.len() == self.buffer_size
    }

    pub open spec fn is_new(&self, id: u32) -> bool {
        &&& self.wf()
        &&& self.id == id
        &&& self.socket == 0
        &&& !self.is_connected
        &&& self.bytes_received == 0
        &&& self.bytes_sent == 0
        &&& self.pending_ops == 0
        &&& zeroes(self.recv_buffer@)
        &&& zeroes(self.send_buffer@)
    }

    /// Create new connection with zeroed buffers
    pub fn new(id: u32) -> (r: Result<Self, IocpError>)
        ensures
            match r {
                Ok(c) => c.is_new(id),
                Err(_) => false,
            },
    {
        Ok(
            IocpConnection {
                id,
                socket: 0,
                recv_buffer: vec![0u8; CONNECTION_BUFFER_SIZE],
                send_buffer: vec![0u8; CONNECTION_BUFFER_SIZE],
                buffer_size: CONNECTION_BUFFER_SIZE,
                is_connected: false,
                bytes_received: 0,
                bytes_sent: 0,
                pending_ops: 0,
            },
        )
    }

    /// Handle disconnect safely: nothing that was buffered remains
    pub fn handle_disconnect(&mut self)
        requires
            old(self).wf(),
        ensures
            final(self).wf(),
            !final(self).is_connected,
            zeroes(final(self).recv_buffer@),
            zeroes(final(self).send_buffer@),
            final(self).id == old(self).id,
            final(self).socket == old(self).socket,
            final(self).bytes_received == old(self).bytes_received,
            final(self).bytes_sent == old(self).bytes_sent,
            final(self).buffer_size == old(self).buffer_size,
            final(self).pending_ops == old(self).pending_ops,
    {
        self.is_connected = false;
        self.recv_buffer = vec![0u8; self.buffer_size];
        self.send_buffer = vec![0u8; self.buffer_size];
    }

    /// Get receive buffer slice
    pub fn recv_buffer(&self) -> (r: &[u8])
        ensures
            r@ == self.recv_buffer@,
    {
        self.recv_buffer.as_slice()
    }

    /// Get mutable receive buffer slice
    pub fn recv_buffer_mut(&mut self) -> (r: &mut [u8])
        ensures
            r@ == old(self).recv_buffer@,
            final(self).recv_buffer@ == final(r)@,
            final(self).id == old(self).id,
            final(self).socket == old(self).socket,
            final(self).send_buffer == old(self).send_buffer,
            final(self).buffer_size == old(self).buffer_size,
            final(self).is_connected == old(self).is_connected,
            final(self).bytes_received == old(self).bytes_received,
            final(self).bytes_sent == old(self).bytes_sent,
            final(self).pending_ops == old(self).pending_ops,
    {
        self.recv_buffer.as_mut_slice()
    }

    /// Get statistics
    pub fn get_stats(&self) -> (r: ConnectionStats)
        ensures
            r == (ConnectionStats {
                id: self.id,
                is_connected: self.is_connected,
                bytes_received: self.bytes_received,
                bytes_sent: self.bytes_sent,
                pending_ops: self.pending_ops,
                buffer_size: self.buffer_size,
            }),
    {
        ConnectionStats {
            id: self.id,
            is_connected: self.is_connected,
            bytes_received: self.bytes_received,
            bytes_sent: self.bytes_sent,
            pending_ops: self.pending_ops,
            buffer_size: self.buffer_size,
        }
    }
}

#[derive(Debug, Clone, Copy, PartialEq, Eq, Structural)]
pub enum IocpError {
    /// Invalid connection ID
    InvalidConnectionId,
    /// Connection closed
    NotConnected,
    /// Completion queue full
    QueueFull,
}

/// Manager statistics
#[derive(Debug, Clone, Copy, PartialEq, Eq, Structural)]
pub struct IocpManagerStats {
    pub max_connections: usize,
    pub connected_count: usize,
    pub total_bytes_received: u64,
    pub total_bytes_sent: u64,
    pub completion_queue_stats: RingBufferStats,
    pub is_shutdown: bool,
}

/// Manager of many connections and their completions
pub struct IocpManager {
    /// Connection registry
    pub connections: Vec<IocpConnection>,
    /// Completion ring buffer
    pub completion_queue: IocpRingBuffer,
    /// Max connections
    pub max_connections: usize,
    /// Shutdown flag
    pub shutdown: bool,
}

/// Operations still pending on a connection once some have completed.
pub open spec fn pending_after(pending: usize, id: int, done: Seq<OverlappedWrapper>) -> usize
    decreases done.len(),
{
    if done.len() == 0 {
        pending
    } else {
        let p = pending_after(pending, id, done.drop_last());
        if done.last().connection_id == id {
            p.wrapping_sub(1)
        } else {
            p
        }
    }
}

/// Bytes received on a connection once some operations have completed.
pub open spec fn received_after(received: u64, id: int, done: Seq<OverlappedWrapper>) -> u64
    decreases done.len(),
{
    if done.len() == 0 {
        received
    } else {
        let b = received_after(received, id, done.drop_last());
        if done.last().connection_id == id {
            b.wrapping_add(done.last().bytes_transferred as u64)
        } else {
            b
        }
    }
}

pub open spec fn received_bytes(conns: Seq<IocpConnection>) -> Seq<int> {
    conns.map_values(|c: IocpConnection| c.bytes_received as int)
}

pub open spec fn sent_bytes(conns: Seq<IocpConnection>) -> Seq<int> {
    conns.map_values(|c: IocpConnection| c.bytes_sent as int)
}

pub open spec fn connected_count(conns: Seq<IocpConnection>) -> nat
    decreases conns.len(),
{
    if conns.len() == 0 {
        0
    } else {
        connected_count(conns.drop_last()) + (if conns.last().is_connected {
            1nat
        } else {
            0nat
        })
    }
}

/// Two connections differ at most in what completions and posts count.
pub open spec fn same_connection(a: IocpConnection, b: IocpConnection) -> bool {
    &&& a.id == b.id
    &&& a.socket == b.socket
    &&& a.recv_buffer == b.recv_buffer
    &&& a.send_buffer == b.send_buffer
    &&& a.buffer_size == b.buffer_size
    &&& a.is_connected == b.is_connected
    &&& a.bytes_sent == b.bytes_sent
}

impl IocpManager {
    pub open spec fn wf(&self) -> bool {
        &&& self.connections.len() == self.max_connections
        &&& self.max_connections <= MAX_CONNECTIONS
        &&& self.completion_queue.wf()
        &&& forall|i: int|
            0 <= i < self.connections.len() ==> (#[trigger] self.connections@[i]).wf()
    }

    /// Create new manager
    pub fn new(max_connections: usize) -> (r: Result<Self, IocpError>)
        ensures
            match r {
                Ok(m) => {
                    &&& m.wf()
                    &&& m.max_connections == math::min_int(
                        max_connections as int,
                        MAX_CONNECTIONS as int,
                    )
                    &&& forall|i: int|
                        0 <= i < m.connections.len() ==> (#[trigger] m.connections@[i]).is_new(
                            i as u32,
                        )
                    &&& m.completion_queue.capacity == MAX_IOCP_ENTRIES
                    &&& m.completion_queue@.len() == 0
                    &&& m.completion_queue.ring.tail == 0
                    &&& !m.shutdown
                },
                Err(_) => false,
            },
    {
        let max_conn: usize = min_usize(max_connections, MAX_CONNECTIONS);
        let mut connections: Vec<IocpConnection> = Vec::with_capacity(max_conn);
        let mut i: usize = 0;
        while i < max_conn
            invariant
                i <= max_conn,
                max_conn <= MAX_CONNECTIONS,
                connections.len() == i,
                forall|k: int|
                    0 <= k < i ==> (#[trigger] connections@[k]).is_new(k as u32),
            decreases max_conn - i,
        {
            match IocpConnection::new(i as u32) {
                Ok(connection) => {
                    connections.push(connection);
                },
                Err(e) => {
                    return Err(e);
                },
            }
            i = i + 1;
        }
        match IocpRingBuffer::new(MAX_IOCP_ENTRIES) {
            Ok(completion_queue) => Ok(
                IocpManager {
                    connections,
                    completion_queue,
                    max_connections: max_conn,
                    shutdown: false,
                },
            ),
            Err(e) => Err(e),
        }
    }

    /// Associate socket with a connection
    pub fn associate_socket(&mut self, connection_id: usize, socket_handle: u64) -> (r: Result<
        (),
        IocpError,
    >)
        requires
            old(self).wf(),
        ensures
            final(self).wf(),
            if connection_id >= old(self).connections.len() {
                r == Err::<(), IocpError>(IocpError::InvalidConnectionId) && *final(self) == *old(self)
            } else {
                &&& r is Ok
                &&& final(self).connections@ == old(self).connections@.update(
                    connection_id as int,
                    IocpConnection {
                        socket: socket_handle,
                        is_connected: true,
                        ..old(self).connections@[connection_id as int]
                    },
                )
                &&& final(self).completion_queue == old(self).completion_queue
                &&& final(self).max_connections == old(self).max_connections
                &&& final(self).shutdown == old(self).shutdown
            },
    {
        if connection_id >= self.connections.len() {
            return Err(IocpError::InvalidConnectionId);
        }
        self.connections[connection_id].socket = socket_handle;
        self.connections[connection_id].is_connected = true;
        assert(self.connections@ =~= old(self).connections@.update(
            connection_id as int,
            IocpConnection {
                socket: socket_handle,
                is_connected: true,
                ..old(self).connections@[connection_id as int]
            },
        ));
        Ok(())
    }

    /// Post overlapped receive operation
    pub fn post_receive(&mut self, connection_id: usize) -> (r: Result<(), IocpError>)
        requires
            old(self).wf(),
            old(self).completion_queue@.len() < old(self).completion_queue.capacity
                ==> old(self).completion_queue.ring.tail < u64::MAX,
        ensures
            final(self).wf(),
            final(self).max_connections == old(self).max_connections,
            final(self).shutdown == old(self).shutdown,
            if connection_id >= old(self).connections.len() {
                r == Err::<(), IocpError>(IocpError::InvalidConnectionId) && *final(self) == *old(self)
            } else if !old(self).connections@[connection_id as int].is_connected {
                r == Err::<(), IocpError>(IocpError::NotConnected) && *final(self) == *old(self)
            } else {
                let c = old(self).connections@[connection_id as int];
                &&& final(self).connections@ == old(self).connections@.update(
                    connection_id as int,
                    IocpConnection { pending_ops: c.pending_ops.wrapping_add(1), ..c },
                )
                &&& if old(self).completion_queue@.len() < old(self).completion_queue.capacity {
                    &&& r is Ok
                    &&& final(self).completion_queue@ == old(self).completion_queue@.push(
                        OverlappedWrapper {
                            op_type: 0,
                            connection_id: connection_id as u32,
                            offset: 0,
                            bytes_transferred: 0,
                        },
                    )
                    &&& final(self).completion_queue.capacity
                        == old(self).completion_queue.capacity
                    &&& final(self).completion_queue.total_enqueued
                        == old(self).completion_queue.total_enqueued.wrapping_add(1)
                    &&& final(self).completion_queue.total_dequeued
                        == old(self).completion_queue.total_dequeued
                    &&& final(self).completion_queue.ring.tail
                        == old(self).completion_queue.ring.tail + 1
                } else {
                    &&& r == Err::<(), IocpError>(IocpError::QueueFull)
                    &&& final(self).completion_queue == old(self).completion_queue
                }
            },
    {
        if connection_id >= self.connections.len() {
            return Err(IocpError::InvalidConnectionId);
        }
        if !self.connections[connection_id].is_connected {
            return Err(IocpError::NotConnected);
        }
        let overlapped: OverlappedWrapper = OverlappedWrapper::new(0, connection_id as u32);
        let pending: usize = self.connections[connection_id].pending_ops.wrapping_add(1);
        self.connections[connection_id].pending_ops = pending;
        match self.completion_queue.push(overlapped) {
            Ok(_) => Ok(()),
            Err(_) => Err(IocpError::QueueFull),
        }
    }

    /// Poll completions
    pub fn poll_completions(&mut self, max_count: usize) -> (done: Vec<OverlappedWrapper>)
        requires
            old(self).wf(),
        ensures
            final(self).wf(),
            ({
                let n = math::min_int(max_count as int, old(self).completion_queue@.len() as int);
                &&& done@ == old(self).completion_queue@.subrange(0, n)
                &&& final(self).completion_queue@ == old(self).completion_queue@.subrange(
                    n,
                    old(self).completion_queue@.len() as int,
                )
                &&& final(self).completion_queue.total_dequeued
                    == old(self).completion_queue.total_dequeued.wrapping_add(n as u64)
            }),
            final(self).completion_queue.total_enqueued == old(self).completion_queue.total_enqueued,
            final(self).completion_queue.capacity == old(self).completion_queue.capacity,
            final(self).completion_queue.ring.tail == old(self).completion_queue.ring.tail,
            final(self).connections.len() == old(self).connections.len(),
            forall|i: int|
                0 <= i < old(self).connections.len() ==> {
                    let a = #[trigger] final(self).connections@[i];
                    let b = old(self).connections@[i];
                    &&& same_connection(a, b)
                    &&& a.pending_ops == pending_after(b.pending_ops, i, done@)
                    &&& a.bytes_received == received_after(b.bytes_received, i, done@)
                },
            final(self).max_connections == old(self).max_connections,
            final(self).shutdown == old(self).shutdown,
    {
        let ghost queue = self.completion_queue@;
        let ghost conns = self.connections@;
        let mut completions: Vec<OverlappedWrapper> = Vec::new();
        let mut more: bool = true;
        proof {
            assert(queue.subrange(0, 0) =~= Seq::<OverlappedWrapper>::empty());
            assert(queue.subrange(0, queue.len() as int) =~= queue);
        }
        while more && completions.len() < max_count
            invariant
                self.wf(),
                completions.len() <= max_count,
                completions.len() <= queue.len(),
                !more ==> completions.len() == queue.len(),
                completions@ == queue.subrange(0, completions.len() as int),
                self.completion_queue@ == queue.subrange(
                    completions.len() as int,
                    queue.len() as int,
                ),
                self.completion_queue.total_dequeued
                    == old(self).completion_queue.total_dequeued.wrapping_add(
                    completions.len() as u64,
                ),
                self.completion_queue.total_enqueued == old(self).completion_queue.total_enqueued,
                self.completion_queue.capacity == old(self).completion_queue.capacity,
                self.completion_queue.ring.tail == old(self).completion_queue.ring.tail,
                self.connections.len() == conns.len(),
                self.max_connections == old(self).max_connections,
                self.shutdown == old(self).shutdown,
                forall|i: int|
                    0 <= i < conns.len() ==> {
                        let a = #[trigger] self.connections@[i];
                        &&& same_connection(a, conns[i])
                        &&& a.pending_ops == pending_after(conns[i].pending_ops, i, completions@)
                        &&& a.bytes_received == received_after(
                            conns[i].bytes_received,
                            i,
                            completions@,
                        )
                    },
            decreases
                max_count - completions.len(),
                if more {
                    1int
                } else {
                    0
                },
        {
            match self.completion_queue.pop() {
                Some(entry) => {
                    let id: usize = entry.connection_id as usize;
                    let ghost done = completions@;
                    let ghost mid = self.connections@;
                    if id < self.connections.len() {
                        let pending: usize = self.connections[id].pending_ops.wrapping_sub(1);
                        let bytes: u64 = self.connections[id].bytes_received.wrapping_add(
                            entry.bytes_transferred as u64,
                        );
                        self.connections[id].pending_ops = pending;
                        self.connections[id].bytes_received = bytes;
                    }
                    completions.push(entry);
                    proof {
                        assert(completions@.drop_last() =~= done);
                        assert(completions@ =~= queue.subrange(0, completions.len() as int));
                        assert(self.completion_queue@ =~= queue.subrange(
                            completions.len() as int,
                            queue.len() as int,
                        ));
                        assert forall|i: int| 0 <= i < conns.len() implies ({
                            let a = #[trigger] self.connections@[i];
                            &&& same_connection(a, conns[i])
                            &&& a.pending_ops == pending_after(
                                conns[i].pending_ops,
                                i,
                                completions@,
                            )
                            &&& a.bytes_received == received_after(
                                conns[i].bytes_received,
                                i,
                                completions@,
                            )
                            &&& a.wf()
                        }) by {
                            assert(mid[i].wf());
                        }
                    }
                },
                None => {
                    more = false;
                },
            }
        }
        completions
    }

    /// Initiate graceful shutdown
    pub fn shutdown(&mut self)
        requires
            old(self).wf(),
        ensures
            final(self).wf(),
            final(self).shutdown,
            final(self).connections.len() == old(self).connections.len(),
            forall|i: int|
                0 <= i < old(self).connections.len() ==> {
                    let a = #[trigger] final(self).connections@[i];
                    let b = old(self).connections@[i];
                    &&& !a.is_connected
                    &&& zeroes(a.recv_buffer@)
                    &&& zeroes(a.send_buffer@)
                    &&& a.id == b.id
                    &&& a.socket == b.socket
                    &&& a.bytes_received == b.bytes_received
                    &&& a.bytes_sent == b.bytes_sent
                    &&& a.pending_ops == b.pending_ops
                },
            final(self).completion_queue == old(self).completion_queue,
            final(self).max_connections == old(self).max_connections,
    {
        self.shutdown = true;
        let n: usize = self.connections.len();
        let ghost conns = self.connections@;
        let mut i: usize = 0;
        while i < n
            invariant
                i <= n,
                n == conns.len(),
                self.shutdown,
                self.wf(),
                self.connections.len() == n,
                self.completion_queue == old(self).completion_queue,
                self.max_connections == old(self).max_connections,
                forall|k: int|
                    0 <= k < i ==> {
                        let a = #[trigger] self.connections@[k];
                        let b = conns[k];
                        &&& !a.is_connected
                        &&& zeroes(a.recv_buffer@)
                        &&& zeroes(a.send_buffer@)
                        &&& a.id == b.id
                        &&& a.socket == b.socket
                        &&& a.bytes_received == b.bytes_received
                        &&& a.bytes_sent == b.bytes_sent
                        &&& a.pending_ops == b.pending_ops
                    },
                forall|k: int| i <= k < n ==> #[trigger] self.connections@[k] == conns[k],
            decreases n - i,
        {
            let ghost before = self.connections@;
            assert(before[i as int].wf());
            self.connections[i].handle_disconnect();
            proof {
                assert forall|k: int| 0 <= k < n implies (#[trigger] self.connections@[k]).wf() by {
                    if k != i {
                        assert(before[k].wf());
                    }
                }
            }
            i = i + 1;
        }
    }

    /// Get manager statistics
    pub fn get_stats(&self) -> (r: IocpManagerStats)
        requires
            self.wf(),
            math::sum_of(received_bytes(self.connections@)) <= u64::MAX,
            math::sum_of(sent_bytes(self.connections@)) <= u64::MAX,
        ensures
            r.max_connections == self.max_connections,
            r.connected_count == connected_count(self.connections@),
            r.total_bytes_received == math::sum_of(received_bytes(self.connections@)),
            r.total_bytes_sent == math::sum_of(sent_bytes(self.connections@)),
            r.completion_queue_stats == self.completion_queue.stats_of(),
            r.is_shutdown == self.shutdown,
    {
        let ghost cs = self.connections@;
        let mut total_recv: u64 = 0;
        let mut total_sent: u64 = 0;
        let mut connected: usize = 0;
        let mut i: usize = 0;
        proof {
            assert(cs.subrange(0, 0) =~= Seq::<IocpConnection>::empty());
            assert(received_bytes(cs.subrange(0, 0)) =~= Seq::<int>::empty());
            assert(sent_bytes(cs.subrange(0, 0)) =~= Seq::<int>::empty());
        }
        while i < self.connections.len()
            invariant
                i <= self.connections.len(),
                self.connections@ == cs,
                math::sum_of(received_bytes(cs)) <= u64::MAX,
                math::sum_of(sent_bytes(cs)) <= u64::MAX,
                connected <= i,
                connected == connected_count(cs.subrange(0, i as int)),
                total_recv == math::sum_of(received_bytes(cs.subrange(0, i as int))),
                total_sent == math::sum_of(sent_bytes(cs.subrange(0, i as int))),
            decreases self.connections.len() - i,
        {
            proof {
                let part = cs.subrange(0, i as int);
                let next = cs.subrange(0, i + 1);
                let c = cs[i as int];
                assert(next.drop_last() =~= part);
                assert(next.last() == c);
                assert(received_bytes(next) =~= received_bytes(part).push(c.bytes_received as int));
                assert(sent_bytes(next) =~= sent_bytes(part).push(c.bytes_sent as int));
                math::lemma_sum_push(received_bytes(part), c.bytes_received as int);
                math::lemma_sum_push(sent_bytes(part), c.bytes_sent as int);
                math::lemma_prefix_sum(received_bytes(cs), i + 1);
                math::lemma_prefix_sum(sent_bytes(cs), i + 1);
                assert(received_bytes(cs).subrange(0, i + 1) =~= received_bytes(next));
                assert(sent_bytes(cs).subrange(0, i + 1) =~= sent_bytes(next));
            }
            total_recv = total_recv + self.connections[i].bytes_received;
            total_sent = total_sent + self.connections[i].bytes_sent;
            if self.connections[i].is_connected {
                connected = connected + 1;
            }
            i = i + 1;
        }
        proof {
            assert(cs.subrange(0, cs.len() as int) =~= cs);
        }
        IocpManagerStats {
            max_connections: self.max_connections,
            connected_count: connected,
            total_bytes_received: total_recv,
            total_bytes_sent: total_sent,
            completion_queue_stats: self.completion_queue.get_stats(),
            is_shutdown: self.shutdown,
        }
    }
}

/// A posted operation that completes leaves the pending count as it was.
pub proof fn law_completion_settles_post(pending: usize, id: int, e: OverlappedWrapper)
    requires
        e.connection_id == id,
    ensures
        pending_after(pending.wrapping_add(1), id, seq![e]) == pending,
{
    assert(seq![e].drop_last() =~= Seq::<OverlappedWrapper>::empty());
    reveal_with_fuel(pending_after, 2);
}

/// A ring never holds more than its capacity, and is not both empty and full.
pub proof fn law_ring_is_bounded(ring: IocpRingBuffer)
    requires
        ring.wf(),
    ensures
        ring@.len() <= ring.capacity,
        ring.stats_of().is_full <==> ring@.len() == ring.capacity,
        ring.stats_of().is_empty <==> ring@.len() == 0,
        !(ring.stats_of().is_full && ring.stats_of().is_empty),
{
}

/// Each completion settles one pending operation of its own connection and adds
/// its bytes to what that has received; other connections are left as they are.
pub proof fn law_completions_settle_their_own(
    pending: usize,
    received: u64,
    id: int,
    done: Seq<OverlappedWrapper>,
    e: OverlappedWrapper,
)
    ensures
        pending_after(pending, id, Seq::<OverlappedWrapper>::empty()) == pending,
        received_after(received, id, Seq::<OverlappedWrapper>::empty()) == received,
        e.connection_id != id ==> pending_after(pending, id, done.push(e)) == pending_after(
            pending,
            id,
            done,
        ) && received_after(received, id, done.push(e)) == received_after(received, id, done),
        e.connection_id == id && pending_after(pending, id, done) > 0 ==> pending_after(
            pending,
            id,
            done.push(e),
        ) + 1 == pending_after(pending, id, done),
        e.connection_id == id && received_after(received, id, done) + e.bytes_transferred
            <= u64::MAX ==> received_after(received, id, done.push(e)) == received_after(
            received,
            id,
            done,
        ) + e.bytes_transferred,
{
    assert(done.push(e).drop_last() =~= done);
}

/// The totals of a manager add up its connections one by one.
pub proof fn law_totals_add_connections(conns: Seq<IocpConnection>, c: IocpConnection)
    ensures
        math::sum_of(received_bytes(conns.push(c))) == math::sum_of(received_bytes(conns))
            + c.bytes_received,
        math::sum_of(sent_bytes(conns.push(c))) == math::sum_of(sent_bytes(conns)) + c.bytes_sent,
        connected_count(conns.push(c)) == connected_count(conns) + (if c.is_connected {
            1nat
        } else {
            0
        }),
        connected_count(Seq::<IocpConnection>::empty()) == 0,
{
    assert(conns.push(c).drop_last() =~= conns);
    assert(received_bytes(conns.push(c)) =~= received_bytes(conns).push(c.bytes_received as int));
    assert(sent_bytes(conns.push(c)) =~= sent_bytes(conns).push(c.bytes_sent as int));
    math::lemma_sum_push(received_bytes(conns), c.bytes_received as int);
    math::lemma_sum_push(sent_bytes(conns), c.bytes_sent as int);
}

/// The capacity granted is the least power of two that holds what was wanted,
/// up to sixty-four kibi entries.
pub proof fn law_capacity_is_least_power(granted: int, wanted: int, other: int)
    requires
        granted_capacity(granted, wanted),
        math::is_power_of_two(other),
        other >= wanted || other >= 65536,
        wanted >= 0,
    ensures
        math::is_power_of_two(granted),
        granted >= wanted || granted >= 65536,
        granted <= other,
{
    let n = math::min_int(wanted, 65536);
    math::law_powers_of_two(other);
    if granted > other {
        assert(other >= n);
        if granted != 1 {
            assert(granted < 2 * n <= 2 * other);
            math::lemma_no_power_between(granted, other);
        }
    }
}

/// The report of a ring tells what it holds and what has passed through it.
pub proof fn law_ring_report(ring: IocpRingBuffer)
    requires
        ring.wf(),
    ensures
        ({
            let s = ring.stats_of();
            &&& s.capacity == ring.capacity
            &&& s.current_size == ring@.len()
            &&& s.total_enqueued == ring.total_enqueued
            &&& s.total_dequeued == ring.total_dequeued
        }),
{
}

} // verus!
