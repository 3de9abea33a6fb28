//! A receive queue of packet descriptors that survives adapter resets.
use crate::math;
use crate::ring::Ring;
use vstd::prelude::*;

verus! {

/// Maximum packets per batch
pub const MAX_PACKET_BATCH: usize = 64;

/// Ring buffer size for receive queue
pub const RX_RING_SIZE: usize = 4096;

/// Receive descriptor
#[derive(Debug, Clone, Copy, PartialEq, Eq, Structural)]
pub struct XdpRxDescriptor {
    /// Address of the packet data
    pub addr: u64,
    /// Packet length
    pub len: u32,
    pub timestamp_ns: u64,
    pub flags: u32,
}

impl Default for XdpRxDescriptor {
    fn default() -> (r: Self)
        ensures
            r == (XdpRxDescriptor { addr: 0, len: 0, timestamp_ns: 0, flags: 0 }),
    {
        XdpRxDescriptor { addr: 0, len: 0, timestamp_ns: 0, flags: 0 }
    }
}

/// Packet metadata for feed processing
#[derive(Debug, Clone, Copy, PartialEq, Eq, Structural)]
pub struct BinancePacketMeta {
    pub sequence: u64,
    pub symbol_hash: u32,
    pub msg_type: u8,
    pub is_snapshot: bool,
}

/// The metadata in a descriptor: the flags hold the symbol hash in the low half,
/// then the message type, then the snapshot mark.
pub open spec fn meta_of(d: XdpRxDescriptor) -> BinancePacketMeta {
    BinancePacketMeta {
        sequence: d.timestamp_ns,
        symbol_hash: d.flags % 0x1_0000,
        msg_type: ((d.flags / 0x1_0000) % 0x100) as u8,
        is_snapshot: d.flags / 0x100_0000 != 0,
    }
}

/// Statistics for the socket
#[derive(Debug, Clone, Copy, PartialEq, Eq, Structural)]
pub struct XdpStats {
    pub packets_processed: u64,
    pub packets_dropped: u64,
    pub rx_pending: u64,
    pub is_active: bool,
    pub is_resetting: bool,
}

/// Socket over a receive ring
pub struct AfXdpSocketStub {
    /// Receive ring
    pub rx_ring: Ring<XdpRxDescriptor>,
    /// Socket active state
    pub is_active: bool,
    /// Adapter reset in progress
    pub is_resetting: bool,
    /// Packets processed
    pub packets_processed: u64,
    /// Dropped packets (buffer full)
    pub packets_dropped: u64,
    /// NUMA node affinity
    pub numa_node: u32,
}

impl View for AfXdpSocketStub {
    type V = Seq<XdpRxDescriptor>;

    /// The descriptors waiting, oldest first.
    open spec fn view(&self) -> Seq<XdpRxDescriptor> {
        self.rx_ring@
    }
}

impl AfXdpSocketStub {
    pub open spec fn wf(&self) -> bool {
        self.rx_ring.wf() && self.rx_ring.capacity == RX_RING_SIZE
    }

    /// Create new socket stub
    pub fn new(numa_node: u32) -> (r: Result<Self, &'static str>)
        ensures
            r matches Ok(s) && s.wf() && s@ == Seq::<XdpRxDescriptor>::empty() && !s.is_active
                && !s.is_resetting && s.packets_processed == 0 && s.packets_dropped == 0
                && s.numa_node == numa_node && s.rx_ring.tail == 0,
    {
        Ok(
            AfXdpSocketStub {
                rx_ring: Ring::new(RX_RING_SIZE),
                is_active: false,
                is_resetting: false,
                packets_processed: 0,
                packets_dropped: 0,
                numa_node,
            },
        )
    }

    /// Initialize socket and bind to network adapter
    pub fn initialize(&mut self, adapter_name: &str, queue_id: u16) -> (r: Result<
        (),
        &'static str,
    >)
        ensures
            match r {
                Ok(()) => !old(self).is_active && *final(self) == (AfXdpSocketStub {
                    is_active: true,
                    ..*old(self)
                }),
                Err(e) => old(self).is_active && e@ == "Socket already initialized"@
                    && *final(self) == *old(self),
            },
    {
        if self.is_active {
            return Err("Socket already initialized");
        }
        self.is_active = true;
        Ok(())
    }

    /// Receive batch of packets; they stay in the ring until released
    pub fn recv_batch(&self) -> (r: Option<PacketBatch>)
        requires
            self.wf(),
        ensures
            match r {
                Some(b) => {
                    &&& self.is_active
                    &&& self@.len() > 0
                    &&& b.wf()
                    &&& b.count == math::min_int(self@.len() as int, MAX_PACKET_BATCH as int)
                    &&& b.descriptors@ == self@.subrange(0, b.count as int)
                    &&& b.consumer == self.rx_ring.head
                },
                None => !self.is_active || self@.len() == 0,
            },
    {
        if !self.is_active {
            return None;
        }
        let available: usize = self.rx_ring.len();
        if available == 0 {
            return None;
        }
        let batch_size: usize = if available < MAX_PACKET_BATCH {
            available
        } else {
            MAX_PACKET_BATCH
        };
        let mut descriptors: Vec<XdpRxDescriptor> = Vec::with_capacity(batch_size);
        let mut i: usize = 0;
        while i < batch_size
            invariant
                self.wf(),
                i <= batch_size,
                batch_size <= self@.len(),
                descriptors@ == self@.subrange(0, i as int),
            decreases batch_size - i,
        {
            descriptors.push(self.rx_ring.get(i));
            i = i + 1;
            assert(descriptors@ =~= self@.subrange(0, i as int));
        }
        Some(PacketBatch { descriptors, count: batch_size, consumer: self.rx_ring.head })
    }

    /// Release consumed packets back to ring
    pub fn release_packets(&mut self, count: usize)
        requires
            old(self).wf(),
            count <= old(self)@.len(),
        ensures
            final(self).wf(),
            final(self)@ == old(self)@.subrange(count as int, old(self)@.len() as int),
            final(self).packets_processed == old(self).packets_processed.wrapping_add(
                count as u64,
            ),
            final(self).rx_ring.head == old(self).rx_ring.head + count,
            final(self).rx_ring.tail == old(self).rx_ring.tail,
            final(self).is_active == old(self).is_active,
            final(self).is_resetting == old(self).is_resetting,
            final(self).packets_dropped == old(self).packets_dropped,
            final(self).numa_node == old(self).numa_node,
    {
        let mut i: usize = 0;
        assert(self@.subrange(0, self@.len() as int) =~= self@);
        while i < count
            invariant
                i <= count,
                count <= old(self)@.len(),
                self.wf(),
                self@ == old(self)@.subrange(i as int, old(self)@.len() as int),
                self.rx_ring.head == old(self).rx_ring.head + i,
                self.rx_ring.tail == old(self).rx_ring.tail,
                self.packets_processed == old(self).packets_processed,
                self.is_active == old(self).is_active,
                self.is_resetting == old(self).is_resetting,
                self.packets_dropped == old(self).packets_dropped,
                self.numa_node == old(self).numa_node,
            decreases count - i,
        {
            let _ = self.rx_ring.pop();
            i = i + 1;
            assert(self@ =~= old(self)@.subrange(i as int, old(self)@.len() as int));
        }
        self.packets_processed = self.packets_processed.wrapping_add(count as u64);
    }

    /// Handle adapter reset notification: pending packets are drained
    pub fn on_adapter_reset_start(&mut self)
        requires
            old(self).wf(),
        ensures
            final(self).wf(),
            final(self)@ == Seq::<XdpRxDescriptor>::empty(),
            final(self).is_resetting,
            final(self).rx_ring.tail == old(self).rx_ring.tail,
            final(self).is_active == old(self).is_active,
            final(self).packets_processed == old(self).packets_processed,
            final(self).packets_dropped == old(self).packets_dropped,
            final(self).numa_node == old(self).numa_node,
    {
        self.is_resetting = true;
        self.rx_ring.clear();
    }

    /// Resume after adapter reset completes; packets during the reset are lost
    pub fn on_adapter_reset_complete(&mut self) -> (r: Result<(), &'static str>)
        requires
            old(self).wf(),
        ensures
            r is Ok,
            final(self).wf(),
            final(self)@ == Seq::<XdpRxDescriptor>::empty(),
            final(self).rx_ring.head == 0,
            final(self).rx_ring.tail == 0,
            !final(self).is_resetting,
            final(self).is_active == old(self).is_active,
            final(self).packets_processed == old(self).packets_processed,
            final(self).packets_dropped == old(self).packets_dropped,
            final(self).numa_node == old(self).numa_node,
    {
        self.rx_ring = Ring::new(RX_RING_SIZE);
        self.is_resetting = false;
        Ok(())
    }

    /// Handle driver unload notification, once no reset is in progress
    pub fn on_driver_unload(&mut self)
        requires
            !old(self).is_resetting,
        ensures
            *final(self) == (AfXdpSocketStub { is_active: false, ..*old(self) }),
    {
        self.is_active = false;
    }

    /// Get statistics
    pub fn get_stats(&self) -> (r: XdpStats)
        requires
            self.wf(),
        ensures
            r == (XdpStats {
                packets_processed: self.packets_processed,
                packets_dropped: self.packets_dropped,
                rx_pending: self@.len() as u64,
                is_active: self.is_active,
                is_resetting: self.is_resetting,
            }),
    {
        XdpStats {
            packets_processed: self.packets_processed,
            packets_dropped: self.packets_dropped,
            rx_pending: self.rx_ring.len() as u64,
            is_active: self.is_active,
            is_resetting: self.is_resetting,
        }
    }

    /// Takes a packet that has arrived, or counts it as dropped where the ring
    /// is full.
    pub fn simulate_packet(&mut self, len: u32, addr: u64, now_ns: u64)
        requires
            old(self).wf(),
            old(self)@.len() < RX_RING_SIZE ==> old(self).rx_ring.tail < u64::MAX,
        ensures
            final(self).wf(),
            if old(self)@.len() < RX_RING_SIZE {
                &&& final(self)@ == old(self)@.push(
                    XdpRxDescriptor { addr, len, timestamp_ns: now_ns, flags: 0 },
                )
                &&& final(self).packets_dropped == old(self).packets_dropped
                &&& final(self).rx_ring.tail == old(self).rx_ring.tail + 1
            } else {
                &&& final(self)@ == old(self)@
                &&& final(self).packets_dropped == old(self).packets_dropped.wrapping_add(1)
                &&& final(self).rx_ring.tail == old(self).rx_ring.tail
            },
            final(self).rx_ring.head == old(self).rx_ring.head,
            final(self).is_active == old(self).is_active,
            final(self).is_resetting == old(self).is_resetting,
            final(self).packets_processed == old(self).packets_processed,
            final(self).numa_node == old(self).numa_node,
    {
        let descriptor: XdpRxDescriptor = XdpRxDescriptor {
            addr,
            len,
            timestamp_ns: now_ns,
            flags: 0,
        };
        if !self.rx_ring.push(descriptor) {
            self.packets_dropped = self.packets_dropped.wrapping_add(1);
        }
    }
}

/// Batch of received packets
pub struct PacketBatch {
    pub descriptors: Vec<XdpRxDescriptor>,
    pub count: usize,
    pub consumer: u64,
}

impl PacketBatch {
    pub open spec fn wf(&self) -> bool {
        self.descriptors.len() == self.count
    }

    pub fn len(&self) -> (r: usize)
        ensures
            r == self.count,
    {
        self.count
    }

    pub fn is_empty(&self) -> (r: bool)
        ensures
            r == (self.count == 0),
    {
        self.count == 0
    }

    /// The descriptors of the batch, in order
    pub fn iter(&self) -> (r: &Vec<XdpRxDescriptor>)
        ensures
            r@ == self.descriptors@,
    {
        &self.descriptors
    }

    /// Parse packet metadata
    pub fn parse_binance_meta(&self, idx: usize) -> (r: Option<BinancePacketMeta>)
        requires
            self.wf(),
        ensures
            r == (if idx < self.count {
                Some(meta_of(self.descriptors@[idx as int]))
            } else {
                None
            }),
    {
        if idx >= self.count {
            return None;
        }
        let desc: XdpRxDescriptor = self.descriptors[idx];
        Some(
            BinancePacketMeta {
                sequence: desc.timestamp_ns,
                symbol_hash: desc.flags % 0x1_0000,
                msg_type: ((desc.flags / 0x1_0000) % 0x100) as u8,
                is_snapshot: desc.flags / 0x100_0000 != 0,
            },
        )
    }
}

/// The flags of a descriptor hold the symbol in their lower half, the type of
/// the message in the next byte, and a snapshot in whatever is above.
pub proof fn law_flags_hold_meta(d: XdpRxDescriptor)
    ensures
        ({
            let m = meta_of(d);
            &&& m.sequence == d.timestamp_ns
            &&& m.symbol_hash < 0x1_0000
            &&& m.is_snapshot <==> d.flags >= 0x100_0000
            &&& (d.flags - m.symbol_hash - 0x1_0000 * m.msg_type) % 0x100_0000 == 0
        }),
{
}

} // verus!
