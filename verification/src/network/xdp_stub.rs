//! A receive ring for raw packets, with header validation on entry.
use vstd::prelude::*;
use vstd::slice::slice_subrange;

verus! {

/// Number of slots in the receive ring; one of them always stays free.
pub const RX_RING_SIZE: usize = 4096;

/// Bytes of Ethernet, IP and UDP headers.
pub const HEADER_BYTES: usize = 42;

/// Represents a single slot in the receive ring.
pub struct RxSlot {
    /// The packet data.
    pub data: Vec<u8>,
    /// Length of the packet data.
    pub len: u32,
    /// Hardware timestamp (TSC cycles) when packet was received.
    pub timestamp: u64,
    /// Checksum validation status.
    pub checksum_valid: bool,
    /// Fills the slot to a cache line.
    pub padding: [u8; 27],
}

/// The headers say that a frame is IPv4 UDP.
pub open spec fn is_udp_frame(data: Seq<u8>) -> bool {
    data.len() >= HEADER_BYTES && data[12] == 0x08 && data[13] == 0x00 && data[23] == 17
}

/// Telemetry statistics for the receive ring.
#[derive(Debug, Clone, Copy, PartialEq, Eq, Structural)]
pub struct XdpStats {
    pub packets_received: u64,
    pub checksum_errors: u64,
    pub ring_head: usize,
    pub ring_tail: usize,
}

/// Reference to a received packet.
pub struct RxPacketRef<'a> {
    pub data: &'a [u8],
    pub timestamp: u64,
}

impl<'a> RxPacketRef<'a> {
    /// The bytes behind the headers, where there are any.
    pub fn payload(&self) -> (r: Option<&[u8]>)
        ensures
            match r {
                Some(p) => self.data@.len() > HEADER_BYTES && p@ == self.data@.subrange(
                    HEADER_BYTES as int,
                    self.data@.len() as int,
                ),
                None => self.data@.len() <= HEADER_BYTES,
            },
    {
        if self.data.len() > HEADER_BYTES {
            Some(slice_subrange(self.data, HEADER_BYTES, self.data.len()))
        } else {
            None
        }
    }
}

/// A packet waiting in the ring.
pub struct Packet {
    pub data: Seq<u8>,
    pub timestamp: u64,
}

/// Receive ring buffer.
pub struct XdpReceiveRing {
    /// Array of receive slots.
    pub slots: Vec<RxSlot>,
    /// Head index (next slot to consume).
    pub head: usize,
    /// Tail index (next slot to produce into).
    pub tail: usize,
    /// Whether packets are taken.
    pub driver_active: bool,
    /// Total packets received (for telemetry).
    pub packets_received: u64,
    /// Total checksum errors (for telemetry).
    pub checksum_errors: u64,
}

/// How many slots lie between two indices of the ring.
pub open spec fn span(head: int, tail: int) -> int {
    if tail >= head {
        tail - head
    } else {
        tail + RX_RING_SIZE - head
    }
}

/// The index `i` places behind another.
pub open spec fn step(head: int, i: int) -> int {
    if head + i < RX_RING_SIZE {
        head + i
    } else {
        head + i - RX_RING_SIZE
    }
}

fn empty_slot() -> (r: RxSlot)
    ensures
        r.len == 0,
        r.timestamp == 0,
        !r.checksum_valid,
        r.data@.len() == 0,
{
    RxSlot { data: Vec::new(), len: 0, timestamp: 0, checksum_valid: false, padding: [0u8; 27] }
}

impl View for XdpReceiveRing {
    type V = Seq<Packet>;

    /// The packets waiting, oldest first.
    open spec fn view(&self) -> Seq<Packet> {
        Seq::new(
            span(self.head as int, self.tail as int) as nat,
            |i: int|
                Packet {
                    data: self.slots@[step(self.head as int, i)].data@,
                    timestamp: self.slots@[step(self.head as int, i)].timestamp,
                },
        )
    }
}

impl XdpReceiveRing {
    pub open spec fn wf(&self) -> bool {
        &&& self.slots.len() == RX_RING_SIZE
        &&& self.head < RX_RING_SIZE
        &&& self.tail < RX_RING_SIZE
        &&& forall|i: int|
            0 <= i < span(self.head as int, self.tail as int) ==> (#[trigger] self.slots@[step(
                self.head as int,
                i,
            )]).checksum_valid
    }

    /// Initialize the receive ring.
    pub fn new() -> (r: Result<Self, String>)
        ensures
            r matches Ok(ring) && ring.wf() && ring@.len() == 0 && ring.head == 0 && ring.tail == 0
                && ring.driver_active && ring.packets_received == 0 && ring.checksum_errors == 0,
    {
        let mut slots: Vec<RxSlot> = Vec::with_capacity(RX_RING_SIZE);
        while slots.len() < RX_RING_SIZE
            invariant
                slots.len() <= RX_RING_SIZE,
            decreases RX_RING_SIZE - slots.len(),
        {
            slots.push(empty_slot());
        }
        Ok(
            XdpReceiveRing {
                slots,
                head: 0,
                tail: 0,
                driver_active: true,
                packets_received: 0,
                checksum_errors: 0,
            },
        )
    }

    /// Enqueue a packet into the receive ring.
    pub fn enqueue(&mut self, data: Vec<u8>, timestamp: u64) -> (taken: bool)
        requires
            old(self).wf(),
            data.len() <= u32::MAX,
        ensures
            final(self).wf(),
            final(self).driver_active == old(self).driver_active,
            ({
                let full = old(self)@.len() == RX_RING_SIZE - 1;
                &&& taken == (old(self).driver_active && !full && is_udp_frame(data@))
                &&& final(self).head == old(self).head
                &&& final(self).tail == (if taken {
                    (old(self).tail + 1) % (RX_RING_SIZE as int)
                } else {
                    old(self).tail as int
                })
                &&& final(self)@ == (if taken {
                    old(self)@.push(Packet { data: data@, timestamp })
                } else {
                    old(self)@
                })
                &&& final(self).packets_received == (if taken {
                    old(self).packets_received.wrapping_add(1)
                } else {
                    old(self).packets_received
                })
                &&& final(self).checksum_errors == (if old(self).driver_active && !full
                    && !is_udp_frame(data@) {
                    old(self).checksum_errors.wrapping_add(1)
                } else {
                    old(self).checksum_errors
                })
            }),
    {
        if !self.driver_active {
            return false;
        }
        let tail: usize = self.tail;
        let next_tail: usize = (tail + 1) % RX_RING_SIZE;
        if next_tail == self.head {
            return false;
        }
        if !Self::validate_checksum(&data) {
            self.checksum_errors = self.checksum_errors.wrapping_add(1);
            assert(self@ =~= old(self)@);
            return false;
        }
        let ghost content = data@;
        let len: u32 = data.len() as u32;
        let slot: RxSlot = RxSlot {
            data,
            len,
            timestamp,
            checksum_valid: true,
            padding: [0u8; 27],
        };
        self.slots.set(tail, slot);
        self.tail = next_tail;
        self.packets_received = self.packets_received.wrapping_add(1);
        proof {
            let before = old(self)@;
            assert forall|i: int| 0 <= i < before.len() implies #[trigger] self@[i]
                == before[i] by {
                assert(step(self.head as int, i) != tail);
            }
            assert(step(self.head as int, before.len() as int) == tail);
            assert(self@ =~= before.push(Packet { data: content, timestamp }));
            assert forall|i: int|
                0 <= i < span(self.head as int, self.tail as int) implies (
            #[trigger] self.slots@[step(self.head as int, i)]).checksum_valid by {
                if i < before.len() {
                    assert(old(self).slots@[step(self.head as int, i)].checksum_valid);
                }
            }
        }
        true
    }

    /// Dequeue a packet from the receive ring for processing.
    ///
    /// Returns None if ring is empty.
    pub fn dequeue(&mut self) -> (r: Option<RxPacketRef<'_>>)
        requires
            old(self).wf(),
        ensures
            final(self).wf(),
            final(self).driver_active == old(self).driver_active,
            final(self).packets_received == old(self).packets_received,
            final(self).checksum_errors == old(self).checksum_errors,
            match r {
                Some(p) => {
                    &&& old(self)@.len() > 0
                    &&& p.data@ == old(self)@[0].data
                    &&& p.timestamp == old(self)@[0].timestamp
                    &&& final(self)@ == old(self)@.subrange(1, old(self)@.len() as int)
                    &&& final(self).head == (old(self).head + 1) % (RX_RING_SIZE as int)
                },
                None => old(self)@.len() == 0 && final(self)@ == old(self)@ && final(self).head
                    == old(self).head,
            },
            final(self).tail == old(self).tail,
    {
        if self.head == self.tail {
            return None;
        }
        let head: usize = self.head;
        assert(self.slots@[step(head as int, 0)].checksum_valid);
        self.head = (head + 1) % RX_RING_SIZE;
        proof {
            let before = old(self)@;
            assert forall|i: int| 0 <= i < before.len() - 1 implies #[trigger] self@[i] == before[i
                + 1] by {
                assert(step(self.head as int, i) == step(head as int, i + 1));
            }
            assert(self@ =~= before.subrange(1, before.len() as int));
            assert forall|i: int|
                0 <= i < span(self.head as int, self.tail as int) implies (
            #[trigger] self.slots@[step(self.head as int, i)]).checksum_valid by {
                assert(step(self.head as int, i) == step(head as int, i + 1));
                assert(old(self).slots@[step(head as int, i + 1)].checksum_valid);
            }
        }
        Some(
            RxPacketRef {
                data: self.slots[head].data.as_slice(),
                timestamp: self.slots[head].timestamp,
            },
        )
    }

    /// Whether the headers are those of a UDP packet; the sum itself is left to
    /// the network card.
    pub fn validate_checksum(data: &Vec<u8>) -> (r: bool)
        ensures
            r == is_udp_frame(data@),
    {
        if data.len() < HEADER_BYTES {
            return false;
        }
        if !(data[12] == 0x08 && data[13] == 0x00) {
            return false;
        }
        data[23] == 17
    }

    /// Check if the driver is still active.
    pub fn is_active(&self) -> (r: bool)
        ensures
            r == self.driver_active,
    {
        self.driver_active
    }

    /// Shutdown the receive ring; waiting packets can still be read.
    pub fn shutdown(&mut self)
        ensures
            *final(self) == (XdpReceiveRing { driver_active: false, ..*old(self) }),
    {
        self.driver_active = false;
    }

    /// Get telemetry statistics.
    pub fn get_stats(&self) -> (r: XdpStats)
        ensures
            r == (XdpStats {
                packets_received: self.packets_received,
                checksum_errors: self.checksum_errors,
                ring_head: self.head,
                ring_tail: self.tail,
            }),
    {
        XdpStats {
            packets_received: self.packets_received,
            checksum_errors: self.checksum_errors,
            ring_head: self.head,
            ring_tail: self.tail,
        }
    }
}

/// A frame is UDP where it holds the three headers, carries IPv4 and names UDP
/// as what it carries.
pub proof fn law_udp_frames(data: Seq<u8>)
    ensures
        is_udp_frame(data) <==> data.len() >= 14 + 20 + 8 && data[12] == 8 && data[13] == 0
            && data[23] == 17,
{
}

/// Going round the ring from the head, the slots of the packets are all
/// different and end at the tail.
pub proof fn law_ring_goes_round(head: int, tail: int, i: int, j: int)
    requires
        0 <= head < 4096,
        0 <= tail < 4096,
        0 <= i < j <= span(head, tail),
    ensures
        0 <= span(head, tail) < 4096,
        step(head, 0) == head,
        step(head, span(head, tail)) == tail,
        0 <= step(head, i) < 4096,
        step(head, i) != step(head, j),
        step(head, i + 1) == (step(head, i) + 1) % 4096,
{
}

} // verus!
