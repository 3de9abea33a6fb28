//! Registered buffers for batched network requests.
use crate::math;
use crate::math::min_usize;
use vstd::prelude::*;

verus! {

/// Maximum registered buffers of each kind
pub const MAX_REGISTERED_BUFFERS: usize = 1024;

/// Maximum pending requests per queue
pub const MAX_PENDING_REQUESTS: usize = 4096;

/// Default buffer size for network I/O
pub const DEFAULT_BUFFER_SIZE: usize = 65536;

/// A registered buffer.
pub struct RioBuffer {
    pub id: u64,
    pub data: Vec<u8>,
}

/// A completed request.
#[derive(Debug, Clone, Copy, PartialEq, Eq, Structural)]
pub struct RioCompletionEntry {
    pub request_context: u64,
    pub socket_context: u64,
    pub bytes_transferred: u32,
    pub has_error: i32,
}

#[derive(Debug, Clone, Copy, PartialEq, Eq, Structural)]
pub enum RioError {
    /// Invalid buffer index
    InvalidBufferIndex,
    /// Data too large
    DataTooLarge,
    /// Socket not connected
    NotConnected,
    /// Receive failed
    ReceiveFailed,
}

/// RIO statistics
#[derive(Debug, Clone, Copy, PartialEq, Eq, Structural)]
pub struct RioStats {
    pub recv_buffers_count: usize,
    pub send_buffers_count: usize,
    pub bytes_received: u64,
    pub bytes_sent: u64,
    pub is_connected: bool,
    pub is_pinned: bool,
    pub total_buffer_memory: usize,
}

/// Registered receive and send buffers of one socket.
pub struct RioExtension {
    pub recv_buffers: Vec<RioBuffer>,
    pub send_buffers: Vec<RioBuffer>,
    /// Socket handle
    pub socket_handle: u64,
    /// Is socket connected
    pub is_connected: bool,
    /// Total bytes received
    pub bytes_received: u64,
    /// Total bytes sent
    pub bytes_sent: u64,
    /// Memory pinned flag
    pub is_pinned: bool,
}

pub open spec fn zeroes(s: Seq<u8>) -> bool {
    forall|i: int| 0 <= i < s.len() ==> #[trigger] s[i] == 0
}

/// Buffers of full size, numbered in order from a first id.
pub open spec fn numbered(buffers: Seq<RioBuffer>, first: int) -> bool {
    forall|i: int|
        0 <= i < buffers.len() ==> (#[trigger] buffers[i]).id == first + i && buffers[i].data@.len()
            == DEFAULT_BUFFER_SIZE
}

fn make_buffers(count: usize, first: u64) -> (r: Vec<RioBuffer>)
    requires
        count <= MAX_REGISTERED_BUFFERS,
        first <= MAX_REGISTERED_BUFFERS,
    ensures
        r.len() == count,
        numbered(r@, first as int),
        forall|i: int| 0 <= i < count ==> zeroes((#[trigger] r@[i]).data@),
{
    let mut buffers: Vec<RioBuffer> = Vec::with_capacity(count);
    let mut i: usize = 0;
    while i < count
        invariant
            i <= count,
            count <= MAX_REGISTERED_BUFFERS,
            first <= MAX_REGISTERED_BUFFERS,
            buffers.len() == i,
            numbered(buffers@, first as int),
            forall|k: int| 0 <= k < i ==> zeroes((#[trigger] buffers@[k]).data@),
        decreases count - i,
    {
        buffers.push(RioBuffer { id: first + i as u64, data: vec![0u8; DEFAULT_BUFFER_SIZE] });
        i = i + 1;
    }
    buffers
}

impl RioExtension {
    pub open spec fn wf(&self) -> bool {
        &&& self.recv_buffers.len() <= MAX_REGISTERED_BUFFERS
        &&& self.send_buffers.len() <= MAX_REGISTERED_BUFFERS
        &&& numbered(self.recv_buffers@, 0)
        &&& numbered(self.send_buffers@, self.recv_buffers.len() as int)
    }

    /// A new extension: unconnected, with zeroed buffers.
    pub open spec fn fresh(&self, receive: int, send: int) -> bool {
        &&& self.wf()
        &&& self.recv_buffers.len() == receive
        &&& self.send_buffers.len() == send
        &&& forall|i: int|
            0 <= i < self.recv_buffers.len() ==> zeroes((#[trigger] self.recv_buffers@[i]).data@)
        &&& forall|i: int|
            0 <= i < self.send_buffers.len() ==> zeroes((#[trigger] self.send_buffers@[i]).data@)
        &&& self.socket_handle == 0
        &&& !self.is_connected
        &&& self.bytes_received == 0
        &&& self.bytes_sent == 0
        &&& !self.is_pinned
    }

    /// Create new RIO extension with bounded buffers
    pub fn new(num_recv_bufs: usize, num_send_bufs: usize) -> (r: Result<Self, RioError>)
        ensures
            r matches Ok(e) && e.fresh(
                math::min_int(num_recv_bufs as int, MAX_REGISTERED_BUFFERS as int),
                math::min_int(num_send_bufs as int, MAX_REGISTERED_BUFFERS as int),
            ),
    {
        let num_recv: usize = min_usize(num_recv_bufs, MAX_REGISTERED_BUFFERS);
        let num_send: usize = min_usize(num_send_bufs, MAX_REGISTERED_BUFFERS);
        Ok(
            RioExtension {
                recv_buffers: make_buffers(num_recv, 0),
                send_buffers: make_buffers(num_send, num_recv as u64),
                socket_handle: 0,
                is_connected: false,
                bytes_received: 0,
                bytes_sent: 0,
                is_pinned: false,
            },
        )
    }

    /// Pin memory pages for zero-copy I/O
    pub fn pin_memory(&mut self) -> (r: Result<(), RioError>)
        ensures
            r is Ok,
            *final(self) == (RioExtension { is_pinned: true, ..*old(self) }),
    {
        self.is_pinned = true;
        Ok(())
    }

    /// Unpin memory when done
    pub fn unpin_memory(&mut self) -> (r: Result<(), RioError>)
        ensures
            r is Ok,
            *final(self) == (RioExtension { is_pinned: false, ..*old(self) }),
    {
        self.is_pinned = false;
        Ok(())
    }

    /// Post receive request; its id is that of the buffer
    pub fn post_receive(&mut self, buffer_index: usize) -> (r: Result<u64, RioError>)
        requires
            old(self).wf(),
        ensures
            *final(self) == *old(self),
            r == (if buffer_index >= old(self).recv_buffers.len() {
                Err::<u64, RioError>(RioError::InvalidBufferIndex)
            } else {
                Ok(buffer_index as u64)
            }),
    {
        if buffer_index >= self.recv_buffers.len() {
            return Err(RioError::InvalidBufferIndex);
        }
        Ok(self.recv_buffers[buffer_index].id)
    }

    /// Post send request; the data is copied to the registered buffer
    pub fn post_send(&mut self, buffer_index: usize, data: &[u8]) -> (r: Result<u64, RioError>)
        requires
            old(self).wf(),
        ensures
            final(self).wf(),
            if buffer_index >= old(self).send_buffers.len() {
                r == Err::<u64, RioError>(RioError::InvalidBufferIndex) && *final(self) == *old(self)
            } else if data@.len() > DEFAULT_BUFFER_SIZE {
                r == Err::<u64, RioError>(RioError::DataTooLarge) && *final(self) == *old(self)
            } else {
                let before = old(self).send_buffers@[buffer_index as int].data@;
                &&& r == Ok::<u64, RioError>(
                    (old(self).recv_buffers.len() + buffer_index) as u64,
                )
                &&& final(self).send_buffers.len() == old(self).send_buffers.len()
                &&& final(self).send_buffers@[buffer_index as int].data@ == data@
                    + before.subrange(data@.len() as int, before.len() as int)
                &&& forall|i: int|
                    0 <= i < old(self).send_buffers.len() && i != buffer_index
                        ==> #[trigger] final(self).send_buffers@[i] == old(self).send_buffers@[i]
                &&& final(self).bytes_sent == old(self).bytes_sent.wrapping_add(data@.len() as u64)
                &&& final(self).recv_buffers == old(self).recv_buffers
                &&& final(self).socket_handle == old(self).socket_handle
                &&& final(self).is_connected == old(self).is_connected
                &&& final(self).bytes_received == old(self).bytes_received
                &&& final(self).is_pinned == old(self).is_pinned
            },
    {
        if buffer_index >= self.send_buffers.len() {
            return Err(RioError::InvalidBufferIndex);
        }
        if data.len() > DEFAULT_BUFFER_SIZE {
            return Err(RioError::DataTooLarge);
        }
        let ghost before = self.send_buffers@[buffer_index as int].data@;
        let ghost all = self.send_buffers@;
        assert(all[buffer_index as int].data@.len() == DEFAULT_BUFFER_SIZE);
        let n: usize = data.len();
        let mut i: usize = 0;
        while i < n
            invariant
                i <= n,
                n == data@.len(),
                n <= DEFAULT_BUFFER_SIZE,
                buffer_index < self.send_buffers.len(),
                self.send_buffers.len() == all.len(),
                before.len() == DEFAULT_BUFFER_SIZE,
                self.send_buffers@[buffer_index as int].id == all[buffer_index as int].id,
                self.send_buffers@[buffer_index as int].data@.len() == DEFAULT_BUFFER_SIZE,
                forall|k: int|
                    0 <= k < i ==> self.send_buffers@[buffer_index as int].data@[k] == data@[k],
                forall|k: int|
                    i <= k < DEFAULT_BUFFER_SIZE
                        ==> self.send_buffers@[buffer_index as int].data@[k] == before[k],
                forall|k: int|
                    0 <= k < all.len() && k != buffer_index ==> #[trigger] self.send_buffers@[k]
                        == all[k],
                self.recv_buffers == old(self).recv_buffers,
                self.socket_handle == old(self).socket_handle,
                self.is_connected == old(self).is_connected,
                self.bytes_received == old(self).bytes_received,
                self.bytes_sent == old(self).bytes_sent,
                self.is_pinned == old(self).is_pinned,
            decreases n - i,
        {
            self.send_buffers[buffer_index].data[i] = data[i];
            i = i + 1;
        }
        self.bytes_sent = self.bytes_sent.wrapping_add(n as u64);
        proof {
            assert(self.send_buffers@[buffer_index as int].data@ =~= data@ + before.subrange(
                data@.len() as int,
                before.len() as int,
            ));
            assert(numbered(self.send_buffers@, self.recv_buffers.len() as int)) by {
                assert forall|k: int| 0 <= k < self.send_buffers.len() implies (
                #[trigger] self.send_buffers@[k]).id == self.recv_buffers.len() + k
                    && self.send_buffers@[k].data@.len() == DEFAULT_BUFFER_SIZE by {
                    assert(all[k].id == self.recv_buffers.len() + k);
                }
            }
        }
        Ok(self.send_buffers[buffer_index].id)
    }

    /// Poll completion queue for completed operations
    pub fn poll_completions(&mut self, max_completions: usize) -> (r: Vec<RioCompletionEntry>)
        ensures
            *final(self) == *old(self),
            r.len() == max_completions,
            forall|i: int|
                0 <= i < r.len() ==> #[trigger] r@[i] == (RioCompletionEntry {
                    request_context: 0,
                    socket_context: old(self).socket_handle,
                    bytes_transferred: 0,
                    has_error: 0,
                }),
    {
        let mut completions: Vec<RioCompletionEntry> = Vec::new();
        while completions.len() < max_completions
            invariant
                completions.len() <= max_completions,
                *self == *old(self),
                forall|i: int|
                    0 <= i < completions.len() ==> #[trigger] completions@[i]
                        == (RioCompletionEntry {
                        request_context: 0,
                        socket_context: self.socket_handle,
                        bytes_transferred: 0,
                        has_error: 0,
                    }),
            decreases max_completions - completions.len(),
        {
            completions.push(
                RioCompletionEntry {
                    request_context: 0,
                    socket_context: self.socket_handle,
                    bytes_transferred: 0,
                    has_error: 0,
                },
            );
        }
        completions
    }

    /// Notify completion queue (arm for notifications)
    pub fn notify(&self) -> (r: Result<(), RioError>)
        ensures
            r is Ok,
    {
        Ok(())
    }

    /// Handle socket disconnect safely: nothing received remains
    pub fn handle_disconnect(&mut self)
        requires
            old(self).wf(),
        ensures
            final(self).wf(),
            !final(self).is_connected,
            final(self).recv_buffers.len() == old(self).recv_buffers.len(),
            forall|i: int|
                0 <= i < final(self).recv_buffers.len() ==> zeroes(
                    (#[trigger] final(self).recv_buffers@[i]).data@,
                ),
            final(self).send_buffers == old(self).send_buffers,
            final(self).socket_handle == old(self).socket_handle,
            final(self).bytes_received == old(self).bytes_received,
            final(self).bytes_sent == old(self).bytes_sent,
            final(self).is_pinned == old(self).is_pinned,
    {
        self.is_connected = false;
        self.recv_buffers = make_buffers(self.recv_buffers.len(), 0);
    }

    /// Get statistics
    pub fn get_stats(&self) -> (r: RioStats)
        requires
            self.wf(),
        ensures
            r.recv_buffers_count == self.recv_buffers.len(),
            r.send_buffers_count == self.send_buffers.len(),
            r.bytes_received == self.bytes_received,
            r.bytes_sent == self.bytes_sent,
            r.is_connected == self.is_connected,
            r.is_pinned == self.is_pinned,
            r.total_buffer_memory == (self.recv_buffers.len() + self.send_buffers.len())
                * DEFAULT_BUFFER_SIZE,
    {
        RioStats {
            recv_buffers_count: self.recv_buffers.len(),
            send_buffers_count: self.send_buffers.len(),
            bytes_received: self.bytes_received,
            bytes_sent: self.bytes_sent,
            is_connected: self.is_connected,
            is_pinned: self.is_pinned,
            total_buffer_memory: (self.recv_buffers.len() + self.send_buffers.len())
                * DEFAULT_BUFFER_SIZE,
        }
    }

    /// Close the socket: disconnects, unpins and gives up every buffer.
    pub fn close(&mut self) -> (r: Result<(), RioError>)
        requires
            old(self).wf(),
        ensures
            final(self).wf(),
            r is Ok,
            !final(self).is_connected,
            !final(self).is_pinned,
            final(self).recv_buffers.len() == 0,
            final(self).send_buffers.len() == 0,
            final(self).bytes_received == old(self).bytes_received,
            final(self).bytes_sent == old(self).bytes_sent,
            final(self).socket_handle == old(self).socket_handle,
    {
        self.handle_disconnect();
        let _ = self.unpin_memory();
        self.recv_buffers = Vec::new();
        self.send_buffers = Vec::new();
        Ok(())
    }
}

/// UDP socket over registered buffers
pub struct RioUdpSocket {
    pub inner: RioExtension,
    pub remote_addr: Option<String>,
}

impl RioUdpSocket {
    pub open spec fn wf(&self) -> bool {
        self.inner.wf() && self.inner.recv_buffers.len() == 64 && self.inner.send_buffers.len()
            == 64
    }

    pub fn new() -> (r: Result<Self, RioError>)
        ensures
            r matches Ok(s) && s.wf() && s.remote_addr is None && s.inner.fresh(64, 64),
    {
        match RioExtension::new(64, 64) {
            Ok(inner) => Ok(RioUdpSocket { inner, remote_addr: None }),
            Err(e) => Err(e),
        }
    }

    pub fn connect(&mut self, remote: String) -> (r: Result<(), RioError>)
        requires
            old(self).wf(),
        ensures
            final(self).wf(),
            r is Ok,
            final(self).remote_addr == Some(remote),
            final(self).inner == (RioExtension { is_connected: true, ..old(self).inner }),
    {
        self.remote_addr = Some(remote);
        self.inner.is_connected = true;
        Ok(())
    }

    pub fn send(&mut self, data: &[u8]) -> (r: Result<usize, RioError>)
        requires
            old(self).wf(),
        ensures
            final(self).wf(),
            final(self).remote_addr == old(self).remote_addr,
            if !old(self).inner.is_connected {
                r == Err::<usize, RioError>(RioError::NotConnected) && final(self).inner == old(self).inner
            } else if data@.len() > DEFAULT_BUFFER_SIZE {
                r == Err::<usize, RioError>(RioError::DataTooLarge) && final(self).inner == old(self).inner
            } else {
                let before = old(self).inner.send_buffers@;
                let after = final(self).inner.send_buffers@;
                &&& r == Ok::<usize, RioError>(data@.len() as usize)
                &&& after.len() == before.len()
                &&& after[0].data@ == data@ + before[0].data@.subrange(
                    data@.len() as int,
                    before[0].data@.len() as int,
                )
                &&& after[0].id == before[0].id
                &&& forall|i: int| 0 < i < before.len() ==> #[trigger] after[i] == before[i]
                &&& final(self).inner == (RioExtension {
                    send_buffers: final(self).inner.send_buffers,
                    bytes_sent: old(self).inner.bytes_sent.wrapping_add(data@.len() as u64),
                    ..old(self).inner
                })
            },
    {
        if !self.inner.is_connected {
            return Err(RioError::NotConnected);
        }
        match self.inner.post_send(0, data) {
            Ok(_) => {
                Ok(data.len())
            },
            Err(e) => Err(e),
        }
    }

    /// Takes the result of a completed receive into the caller's buffer: as
    /// many bytes as were transferred, or none where they do not fit.
    pub fn complete_receive(&mut self, completion: RioCompletionEntry, buffer: &mut Vec<u8>) -> (r:
        Result<usize, RioError>)
        requires
            old(self).wf(),
            completion.bytes_transferred <= DEFAULT_BUFFER_SIZE,
        ensures
            final(self).wf(),
            final(buffer).len() == old(buffer).len(),
            final(self).remote_addr == old(self).remote_addr,
            final(self).inner == (RioExtension {
                bytes_received: final(self).inner.bytes_received,
                ..old(self).inner
            }),
            ({
                let n = completion.bytes_transferred as int;
                if completion.has_error != 0 {
                    &&& r == Err::<usize, RioError>(RioError::ReceiveFailed)
                    &&& final(buffer)@ == old(buffer)@
                    &&& final(self).inner.bytes_received == old(self).inner.bytes_received
                } else if n > old(buffer).len() {
                    &&& r == Ok::<usize, RioError>(0)
                    &&& final(buffer)@ == old(buffer)@
                    &&& final(self).inner.bytes_received == old(self).inner.bytes_received
                } else {
                    &&& r == Ok::<usize, RioError>(n as usize)
                    &&& final(buffer)@ == old(self).inner.recv_buffers@[0].data@.subrange(0, n)
                        + old(buffer)@.subrange(n, old(buffer).len() as int)
                    &&& final(self).inner.bytes_received == old(self).inner.bytes_received.wrapping_add(n as u64)
                }
            }),
    {
        if completion.has_error != 0 {
            return Err(RioError::ReceiveFailed);
        }
        let bytes: usize = completion.bytes_transferred as usize;
        if bytes > buffer.len() {
            return Ok(0);
        }
        let ghost before = buffer@;
        assert(self.inner.recv_buffers@[0].data@.len() == DEFAULT_BUFFER_SIZE);
        let mut i: usize = 0;
        while i < bytes
            invariant
                i <= bytes,
                bytes <= before.len(),
                bytes <= DEFAULT_BUFFER_SIZE,
                buffer.len() == before.len(),
                self.wf(),
                *self == *old(self),
                self.inner.recv_buffers@[0].data@.len() == DEFAULT_BUFFER_SIZE,
                forall|k: int|
                    0 <= k < i ==> #[trigger] buffer@[k] == self.inner.recv_buffers@[0].data@[k],
                forall|k: int| i <= k < before.len() ==> #[trigger] buffer@[k] == before[k],
            decreases bytes - i,
        {
            buffer.set(i, self.inner.recv_buffers[0].data[i]);
            i = i + 1;
        }
        self.inner.bytes_received = self.inner.bytes_received.wrapping_add(bytes as u64);
        assert(buffer@ =~= old(self).inner.recv_buffers@[0].data@.subrange(0, bytes as int)
            + before.subrange(bytes as int, before.len() as int));
        Ok(bytes)
    }

    /// Receives into the caller's buffer; the request completes with nothing
    /// transferred until a driver fills the queue.
    pub fn recv(&mut self, buffer: &mut Vec<u8>) -> (r: Result<usize, RioError>)
        requires
            old(self).wf(),
        ensures
            final(self).wf(),
            r == Ok::<usize, RioError>(0),
            final(buffer)@ == old(buffer)@,
            *final(self) == *old(self),
    {
        match self.inner.post_receive(0) {
            Ok(_) => {},
            Err(e) => {
                return Err(e);
            },
        }
        let completions: Vec<RioCompletionEntry> = self.inner.poll_completions(1);
        let first: RioCompletionEntry = completions[0];
        let r: Result<usize, RioError> = self.complete_receive(first, buffer);
        assert(buffer@ =~= old(buffer)@);
        r
    }
}

/// Pinning and unpinning bring back the state before.
pub proof fn law_unpin_undoes_pin(e: RioExtension)
    requires
        !e.is_pinned,
    ensures
        (RioExtension { is_pinned: false, ..(RioExtension { is_pinned: true, ..e }) }) == e,
{
}

} // verus!
