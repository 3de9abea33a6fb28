//! Tick messages on numbered multicast channels: the wire format, the channel
//! and subscriber tables, and the counting of lost messages.
use crate::bytes;
use crate::bytes::{append_le, append_zeros, read_le};
use vstd::prelude::*;

verus! {

/// Default port for tick data broadcast
pub const DEFAULT_MULTICAST_PORT: u16 = 55555;

/// Maximum message size for tick data
pub const MAX_TICK_MESSAGE_SIZE: usize = 4096;

/// Maximum subscribers per channel
pub const MAX_SUBSCRIBERS: usize = 256;

/// Maximum channels
pub const MAX_CHANNELS: u8 = 64;

/// Bytes of a message on the wire.
pub const TICK_BYTES: usize = 72;

/// Tick data message. Volumes are the bits of floating-point numbers.
#[derive(Debug, Clone, Copy)]
pub struct TickMessage {
    /// Message type
    pub msg_type: u8,
    /// Channel ID
    pub channel_id: u8,
    /// Sequence number
    pub sequence: u16,
    /// Timestamp in nanoseconds
    pub timestamp_ns: u64,
    /// Symbol hash (first 8 bytes)
    pub symbol_hash: u64,
    /// Bid price (fixed point * 1e8)
    pub bid_price: i64,
    /// Ask price (fixed point * 1e8)
    pub ask_price: i64,
    /// Bid volume
    pub bid_volume_bits: u64,
    /// Ask volume
    pub ask_volume_bits: u64,
    /// Padding for alignment
    pub _padding: [u8; 16],
}

/// The message on the wire: fields in order, little-endian, each at a multiple
/// of its size.
pub open spec fn wire(m: TickMessage) -> Seq<u8> {
    seq![m.msg_type, m.channel_id] + bytes::le_bytes(m.sequence as nat, 2) + seq![
        0u8,
        0u8,
        0u8,
        0u8,
    ] + bytes::le_bytes(m.timestamp_ns as nat, 8) + bytes::le_bytes(m.symbol_hash as nat, 8)
        + bytes::le_bytes((m.bid_price as u64) as nat, 8) + bytes::le_bytes(
        (m.ask_price as u64) as nat,
        8,
    ) + bytes::le_bytes(m.bid_volume_bits as nat, 8) + bytes::le_bytes(
        m.ask_volume_bits as nat,
        8,
    ) + m._padding@
}

/// The last bytes of a message, kept as they are.
pub open spec fn padding_at(s: Seq<u8>) -> [u8; 16] {
    [
        s[56],
        s[57],
        s[58],
        s[59],
        s[60],
        s[61],
        s[62],
        s[63],
        s[64],
        s[65],
        s[66],
        s[67],
        s[68],
        s[69],
        s[70],
        s[71],
    ]
}

/// The message that bytes stand for.
pub open spec fn unwired(s: Seq<u8>) -> TickMessage {
    TickMessage {
        msg_type: s[0],
        channel_id: s[1],
        sequence: bytes::le_at(s, 2, 2) as u16,
        timestamp_ns: bytes::le_at(s, 8, 8) as u64,
        symbol_hash: bytes::le_at(s, 16, 8) as u64,
        bid_price: (bytes::le_at(s, 24, 8) as u64) as i64,
        ask_price: (bytes::le_at(s, 32, 8) as u64) as i64,
        bid_volume_bits: bytes::le_at(s, 40, 8) as u64,
        ask_volume_bits: bytes::le_at(s, 48, 8) as u64,
        _padding: padding_at(s),
    }
}

/// A message comes back from the wire as it was sent.
pub proof fn law_wire_round_trip(m: TickMessage)
    ensures
        wire(m).len() == TICK_BYTES,
        unwired(wire(m)) == m,
{
    let s = wire(m);
    bytes::lemma_le_limits();
    bytes::lemma_le_round_trip(m.sequence as nat, 2);
    bytes::lemma_le_round_trip(m.timestamp_ns as nat, 8);
    bytes::lemma_le_round_trip(m.symbol_hash as nat, 8);
    bytes::lemma_le_round_trip((m.bid_price as u64) as nat, 8);
    bytes::lemma_le_round_trip((m.ask_price as u64) as nat, 8);
    bytes::lemma_le_round_trip(m.bid_volume_bits as nat, 8);
    bytes::lemma_le_round_trip(m.ask_volume_bits as nat, 8);
    bytes::lemma_signed_round_trip(m.bid_price);
    bytes::lemma_signed_round_trip(m.ask_price);
    assert(s.subrange(2, 4) =~= bytes::le_bytes(m.sequence as nat, 2));
    assert(s.subrange(8, 16) =~= bytes::le_bytes(m.timestamp_ns as nat, 8));
    assert(s.subrange(16, 24) =~= bytes::le_bytes(m.symbol_hash as nat, 8));
    assert(s.subrange(24, 32) =~= bytes::le_bytes((m.bid_price as u64) as nat, 8));
    assert(s.subrange(32, 40) =~= bytes::le_bytes((m.ask_price as u64) as nat, 8));
    assert(s.subrange(40, 48) =~= bytes::le_bytes(m.bid_volume_bits as nat, 8));
    assert(s.subrange(48, 56) =~= bytes::le_bytes(m.ask_volume_bits as nat, 8));
    assert(s.subrange(56, 72) =~= m._padding@);
    assert(padding_at(s) =~= m._padding) by {
        assert forall|i: int| 0 <= i < 16 implies padding_at(s)@[i] == m._padding@[i] by {
            assert(s.subrange(56, 72)[i] == m._padding@[i]);
        }
        assert(padding_at(s)@ =~= m._padding@);
    }
}

impl TickMessage {
    pub open spec fn blank(&self) -> bool {
        &&& self.msg_type == 0
        &&& self.channel_id == 0
        &&& self.sequence == 0
        &&& self.timestamp_ns == 0
        &&& self.symbol_hash == 0
        &&& self.bid_price == 0
        &&& self.ask_price == 0
        &&& self.bid_volume_bits == 0
        &&& self.ask_volume_bits == 0
        &&& forall|i: int| 0 <= i < 16 ==> #[trigger] self._padding@[i] == 0
    }

    pub fn new() -> (r: Self)
        ensures
            r.blank(),
    {
        TickMessage {
            msg_type: 0,
            channel_id: 0,
            sequence: 0,
            timestamp_ns: 0,
            symbol_hash: 0,
            bid_price: 0,
            ask_price: 0,
            bid_volume_bits: 0,
            ask_volume_bits: 0,
            _padding: [0u8; 16],
        }
    }

    /// Serialize to bytes
    pub fn as_bytes(&self) -> (r: Vec<u8>)
        ensures
            r@ == wire(*self),
            r.len() == TICK_BYTES,
    {
        let mut out: Vec<u8> = Vec::with_capacity(TICK_BYTES);
        out.push(self.msg_type);
        out.push(self.channel_id);
        append_le(&mut out, self.sequence as u64, 2);
        append_zeros(&mut out, 4);
        append_le(&mut out, self.timestamp_ns, 8);
        append_le(&mut out, self.symbol_hash, 8);
        append_le(&mut out, self.bid_price as u64, 8);
        append_le(&mut out, self.ask_price as u64, 8);
        append_le(&mut out, self.bid_volume_bits, 8);
        append_le(&mut out, self.ask_volume_bits, 8);
        let mut i: usize = 0;
        let ghost head = out@;
        while i < 16
            invariant
                i <= 16,
                out@ == head + self._padding@.subrange(0, i as int),
            decreases 16 - i,
        {
            out.push(self._padding[i]);
            i = i + 1;
            assert(out@ =~= head + self._padding@.subrange(0, i as int));
        }
        assert(self._padding@.subrange(0, 16) =~= self._padding@);
        proof {
            assert(Seq::new(4, |i: int| 0u8) =~= seq![0u8, 0u8, 0u8, 0u8]);
            assert(out@ =~= wire(*self));
            law_wire_round_trip(*self);
        }
        out
    }

    /// Deserialize from bytes
    pub fn from_bytes(data: &[u8]) -> (r: Option<Self>)
        ensures
            r == (if data@.len() < TICK_BYTES {
                None
            } else {
                Some(unwired(data@))
            }),
    {
        if data.len() < TICK_BYTES {
            return None;
        }
        proof {
            bytes::lemma_le_limits();
        }
        Some(
            TickMessage {
                msg_type: data[0],
                channel_id: data[1],
                sequence: read_le(data, 2, 2) as u16,
                timestamp_ns: read_le(data, 8, 8),
                symbol_hash: read_le(data, 16, 8),
                bid_price: read_le(data, 24, 8) as i64,
                ask_price: read_le(data, 32, 8) as i64,
                bid_volume_bits: read_le(data, 40, 8),
                ask_volume_bits: read_le(data, 48, 8),
                _padding: [
                    data[56],
                    data[57],
                    data[58],
                    data[59],
                    data[60],
                    data[61],
                    data[62],
                    data[63],
                    data[64],
                    data[65],
                    data[66],
                    data[67],
                    data[68],
                    data[69],
                    data[70],
                    data[71],
                ],
            },
        )
    }
}

impl Default for TickMessage {
    fn default() -> (r: Self)
        ensures
            r.blank(),
    {
        TickMessage::new()
    }
}

/// Multicast channel configuration
#[derive(Debug)]
pub struct ChannelConfig {
    pub channel_id: u8,
    pub multicast_group: String,
    pub port: u16,
    pub ttl: u32,
    pub loopback: bool,
}

impl Default for ChannelConfig {
    fn default() -> (r: Self)
        ensures
            r.channel_id == 0,
            r.multicast_group@ == "239.255.0.1"@,
            r.port == DEFAULT_MULTICAST_PORT,
            r.ttl == 1,
            r.loopback,
    {
        ChannelConfig {
            channel_id: 0,
            multicast_group: "239.255.0.1".to_owned(),
            port: DEFAULT_MULTICAST_PORT,
            ttl: 1,
            loopback: true,
        }
    }
}

/// Subscriber information
#[derive(Debug)]
pub struct Subscriber {
    pub id: usize,
    pub address: String,
    pub last_heartbeat: u64,
    pub messages_received: u64,
}

#[derive(Debug, Clone, Copy, PartialEq, Eq, Structural)]
pub enum MulticastError {
    /// Channel ID exceeds maximum
    ChannelOutOfRange,
    /// Maximum subscribers reached
    TooManySubscribers,
    /// Channel not found
    ChannelNotFound,
    /// No subscribers on channel
    NoSubscribers,
}

/// Broadcaster statistics
#[derive(Debug, Clone, Copy, PartialEq, Eq, Structural)]
pub struct BroadcasterStats {
    pub channels_count: usize,
    pub total_subscribers: usize,
    pub messages_sent: u64,
    pub bytes_sent: u64,
    pub current_sequence: u64,
    pub is_running: bool,
}

/// Channel and subscriber tables of a broadcaster, one entry for each number
/// that a channel can have.
pub struct MulticastBroadcaster {
    pub channels: Vec<Option<ChannelConfig>>,
    pub subscribers: Vec<Option<Vec<Subscriber>>>,
    /// Message sequence counter
    pub sequence: u64,
    /// Total messages sent
    pub messages_sent: u64,
    /// Total bytes sent
    pub bytes_sent: u64,
    /// Is running
    pub is_running: bool,
}

/// How many channels are registered.
pub open spec fn channel_count(channels: Seq<Option<ChannelConfig>>) -> nat
    decreases channels.len(),
{
    if channels.len() == 0 {
        0
    } else {
        channel_count(channels.drop_last()) + (if channels.last() is Some {
            1nat
        } else {
            0nat
        })
    }
}

/// How many subscribers all channels have together.
pub open spec fn subscriber_count(subs: Seq<Option<Vec<Subscriber>>>) -> nat
    decreases subs.len(),
{
    if subs.len() == 0 {
        0
    } else {
        subscriber_count(subs.drop_last()) + (match subs.last() {
            Some(v) => v@.len(),
            None => 0,
        })
    }
}

/// How many sends went through.
pub open spec fn success_count(sends: Seq<Option<usize>>) -> nat
    decreases sends.len(),
{
    if sends.len() == 0 {
        0
    } else {
        success_count(sends.drop_last()) + (if sends.last() is Some {
            1nat
        } else {
            0nat
        })
    }
}

/// A byte counter after the sends that went through.
pub open spec fn bytes_after(counter: u64, sends: Seq<Option<usize>>) -> u64
    decreases sends.len(),
{
    if sends.len() == 0 {
        counter
    } else {
        let c = bytes_after(counter, sends.drop_last());
        match sends.last() {
            Some(n) => c.wrapping_add(n as u64),
            None => c,
        }
    }
}

impl MulticastBroadcaster {
    pub open spec fn wf(&self) -> bool {
        &&& self.channels.len() == 256
        &&& self.subscribers.len() == 256
        &&& forall|c: int|
            0 <= c < 256 ==> ((#[trigger] self.subscribers@[c]) matches Some(v) ==> v@.len()
                <= MAX_SUBSCRIBERS)
    }

    /// Create new multicast broadcaster
    pub fn new() -> (r: Self)
        ensures
            r.wf(),
            forall|c: int| 0 <= c < 256 ==> #[trigger] r.channels@[c] is None,
            forall|c: int| 0 <= c < 256 ==> #[trigger] r.subscribers@[c] is None,
            r.sequence == 0,
            r.messages_sent == 0,
            r.bytes_sent == 0,
            r.is_running,
    {
        let mut channels: Vec<Option<ChannelConfig>> = Vec::with_capacity(256);
        let mut subscribers: Vec<Option<Vec<Subscriber>>> = Vec::with_capacity(256);
        while channels.len() < 256
            invariant
                channels.len() == subscribers.len(),
                channels.len() <= 256,
                forall|c: int| 0 <= c < channels.len() ==> #[trigger] channels@[c] is None,
                forall|c: int| 0 <= c < subscribers.len() ==> #[trigger] subscribers@[c] is None,
            decreases 256 - channels.len(),
        {
            channels.push(None);
            subscribers.push(None);
        }
        MulticastBroadcaster {
            channels,
            subscribers,
            sequence: 0,
            messages_sent: 0,
            bytes_sent: 0,
            is_running: true,
        }
    }

    /// Register a new channel; its subscribers start from nothing
    pub fn register_channel(&mut self, config: ChannelConfig) -> (r: Result<(), MulticastError>)
        requires
            old(self).wf(),
        ensures
            final(self).wf(),
            if config.channel_id >= MAX_CHANNELS {
                r == Err::<(), MulticastError>(MulticastError::ChannelOutOfRange)
                    && *final(self) == *old(self)
            } else {
                let c = config.channel_id as int;
                &&& r is Ok
                &&& final(self).channels@ == old(self).channels@.update(c, Some(config))
                &&& final(self).subscribers@[c] matches Some(v) && v@.len() == 0
                &&& forall|k: int|
                    0 <= k < 256 && k != c ==> #[trigger] final(self).subscribers@[k] == old(self).subscribers@[k]
                &&& final(self).sequence == old(self).sequence
                &&& final(self).messages_sent == old(self).messages_sent
                &&& final(self).bytes_sent == old(self).bytes_sent
                &&& final(self).is_running == old(self).is_running
            },
    {
        if config.channel_id >= MAX_CHANNELS {
            return Err(MulticastError::ChannelOutOfRange);
        }
        let c: usize = config.channel_id as usize;
        let ghost before = self.subscribers@;
        self.channels.set(c, Some(config));
        self.subscribers.set(c, Some(Vec::new()));
        proof {
            assert forall|k: int| 0 <= k < 256 implies ((#[trigger] self.subscribers@[k]) matches Some(
                v,
            ) ==> v@.len() <= MAX_SUBSCRIBERS) by {
                if k != c {
                    assert(self.subscribers@[k] == before[k]);
                }
            }
        }
        Ok(())
    }

    /// The number of subscribers of a channel.
    pub open spec fn population(&self, channel_id: u8) -> nat {
        match self.subscribers@[channel_id as int] {
            Some(v) => v@.len(),
            None => 0,
        }
    }

    /// Add subscriber to channel
    pub fn add_subscriber(&mut self, channel_id: u8, address: String) -> (r: Result<
        usize,
        MulticastError,
    >)
        requires
            old(self).wf(),
        ensures
            final(self).wf(),
            final(self).channels == old(self).channels,
            final(self).sequence == old(self).sequence,
            final(self).messages_sent == old(self).messages_sent,
            final(self).bytes_sent == old(self).bytes_sent,
            final(self).is_running == old(self).is_running,
            if old(self).population(channel_id) >= MAX_SUBSCRIBERS {
                r == Err::<usize, MulticastError>(MulticastError::TooManySubscribers) && final(self).subscribers@ == old(self).subscribers@
            } else {
                let c = channel_id as int;
                let n = old(self).population(channel_id);
                &&& r == Ok::<usize, MulticastError>(n as usize)
                &&& final(self).subscribers@[c] matches Some(v) && v@.len() == n + 1 && v@[n as int].id
                    == n && v@[n as int].address == address && v@[n as int].last_heartbeat == 0
                    && v@[n as int].messages_received == 0 && (old(self).subscribers@[c] matches Some(
                    w,
                ) ==> v@.drop_last() == w@)
                &&& forall|k: int|
                    0 <= k < 256 && k != c ==> #[trigger] final(self).subscribers@[k] == old(self).subscribers@[k]
            },
    {
        let c: usize = channel_id as usize;
        let ghost before = self.subscribers@;
        let count: usize = match &self.subscribers[c] {
            Some(list) => list.len(),
            None => 0,
        };
        if count >= MAX_SUBSCRIBERS {
            return Err(MulticastError::TooManySubscribers);
        }
        let mut slot: Option<Vec<Subscriber>> = None;
        std::mem::swap(&mut slot, &mut self.subscribers[c]);
        let mut list: Vec<Subscriber> = match slot {
            Some(l) => l,
            None => Vec::new(),
        };
        let ghost had = list@;
        list.push(Subscriber { id: count, address, last_heartbeat: 0, messages_received: 0 });
        assert(list@.drop_last() =~= had);
        self.subscribers.set(c, Some(list));
        proof {
            assert forall|k: int| 0 <= k < 256 implies ((#[trigger] self.subscribers@[k]) matches Some(
                v,
            ) ==> v@.len() <= MAX_SUBSCRIBERS) by {
                if k != c {
                    assert(self.subscribers@[k] == before[k]);
                }
            }
        }
        Ok(count)
    }

    /// Stamps a tick for broadcast on a channel: the next sequence number,
    /// shortened to the field, and the channel's number.
    pub fn prepare_broadcast(&mut self, channel_id: u8, tick: TickMessage) -> (r: Result<
        TickMessage,
        MulticastError,
    >)
        requires
            old(self).wf(),
        ensures
            final(self).wf(),
            final(self).channels == old(self).channels,
            final(self).subscribers == old(self).subscribers,
            final(self).messages_sent == old(self).messages_sent,
            final(self).bytes_sent == old(self).bytes_sent,
            final(self).is_running == old(self).is_running,
            if old(self).channels@[channel_id as int] is None {
                r == Err::<TickMessage, MulticastError>(MulticastError::ChannelNotFound) && final(self).sequence == old(self).sequence
            } else {
                &&& final(self).sequence == old(self).sequence.wrapping_add(1)
                &&& r == (if old(self).subscribers@[channel_id as int] is None {
                    Err::<TickMessage, MulticastError>(MulticastError::NoSubscribers)
                } else {
                    Ok(
                        TickMessage {
                            sequence: (old(self).sequence % 0x1_0000) as u16,
                            channel_id,
                            ..tick
                        },
                    )
                })
            },
    {
        let c: usize = channel_id as usize;
        match &self.channels[c] {
            None => {
                return Err(MulticastError::ChannelNotFound);
            },
            Some(_) => {},
        }
        let mut stamped: TickMessage = tick;
        stamped.sequence = (self.sequence % 0x1_0000) as u16;
        stamped.channel_id = channel_id;
        self.sequence = self.sequence.wrapping_add(1);
        match &self.subscribers[c] {
            None => Err(MulticastError::NoSubscribers),
            Some(_) => Ok(stamped),
        }
    }

    /// Counts the sends of a broadcast: for each subscriber the bytes sent, or
    /// nothing where it was skipped. Returns how many went through.
    pub fn record_sends(&mut self, sends: &Vec<Option<usize>>) -> (sent_count: usize)
        requires
            old(self).wf(),
        ensures
            final(self).wf(),
            sent_count == success_count(sends@),
            final(self).messages_sent == old(self).messages_sent.wrapping_add(sent_count as u64),
            final(self).bytes_sent == bytes_after(old(self).bytes_sent, sends@),
            final(self).channels == old(self).channels,
            final(self).subscribers == old(self).subscribers,
            final(self).sequence == old(self).sequence,
            final(self).is_running == old(self).is_running,
    {
        let mut sent: usize = 0;
        let mut i: usize = 0;
        proof {
            assert(sends@.subrange(0, 0) =~= Seq::<Option<usize>>::empty());
        }
        while i < sends.len()
            invariant
                i <= sends.len(),
                sent <= i,
                sent == success_count(sends@.subrange(0, i as int)),
                self.bytes_sent == bytes_after(
                    old(self).bytes_sent,
                    sends@.subrange(0, i as int),
                ),
                self.wf(),
                self.messages_sent == old(self).messages_sent,
                self.channels == old(self).channels,
                self.subscribers == old(self).subscribers,
                self.sequence == old(self).sequence,
                self.is_running == old(self).is_running,
            decreases sends.len() - i,
        {
            proof {
                let next = sends@.subrange(0, i + 1);
                assert(next.drop_last() =~= sends@.subrange(0, i as int));
                assert(next.last() == sends@[i as int]);
            }
            match sends[i] {
                Some(n) => {
                    sent = sent + 1;
                    self.bytes_sent = self.bytes_sent.wrapping_add(n as u64);
                },
                None => {},
            }
            i = i + 1;
        }
        proof {
            assert(sends@.subrange(0, i as int) =~= sends@);
        }
        self.messages_sent = self.messages_sent.wrapping_add(sent as u64);
        sent
    }

    /// Counts one message to the group of a channel.
    pub fn record_multicast(&mut self, sent: usize)
        ensures
            *final(self) == (MulticastBroadcaster {
                messages_sent: old(self).messages_sent.wrapping_add(1),
                bytes_sent: old(self).bytes_sent.wrapping_add(sent as u64),
                ..*old(self)
            }),
    {
        self.messages_sent = self.messages_sent.wrapping_add(1);
        self.bytes_sent = self.bytes_sent.wrapping_add(sent as u64);
    }

    /// Get statistics
    pub fn get_stats(&self) -> (r: BroadcasterStats)
        requires
            self.wf(),
        ensures
            r.channels_count == channel_count(self.channels@),
            r.total_subscribers == subscriber_count(self.subscribers@),
            r.messages_sent == self.messages_sent,
            r.bytes_sent == self.bytes_sent,
            r.current_sequence == self.sequence,
            r.is_running == self.is_running,
    {
        let mut channels_count: usize = 0;
        let mut total_subscribers: usize = 0;
        let mut i: usize = 0;
        proof {
            assert(self.channels@.subrange(0, 0) =~= Seq::<Option<ChannelConfig>>::empty());
            assert(self.subscribers@.subrange(0, 0) =~= Seq::<Option<Vec<Subscriber>>>::empty());
        }
        while i < 256
            invariant
                self.wf(),
                i <= 256,
                channels_count <= i,
                total_subscribers <= i * MAX_SUBSCRIBERS,
                channels_count == channel_count(self.channels@.subrange(0, i as int)),
                total_subscribers == subscriber_count(self.subscribers@.subrange(0, i as int)),
            decreases 256 - i,
        {
            proof {
                let next = self.channels@.subrange(0, i + 1);
                assert(next.drop_last() =~= self.channels@.subrange(0, i as int));
                assert(next.last() == self.channels@[i as int]);
                let more = self.subscribers@.subrange(0, i + 1);
                assert(more.drop_last() =~= self.subscribers@.subrange(0, i as int));
                assert(more.last() == self.subscribers@[i as int]);
            }
            match &self.channels[i] {
                Some(_) => {
                    channels_count = channels_count + 1;
                },
                None => {},
            }
            match &self.subscribers[i] {
                Some(list) => {
                    total_subscribers = total_subscribers + list.len();
                },
                None => {},
            }
            i = i + 1;
        }
        proof {
            assert(self.channels@.subrange(0, 256) =~= self.channels@);
            assert(self.subscribers@.subrange(0, 256) =~= self.subscribers@);
        }
        BroadcasterStats {
            channels_count,
            total_subscribers,
            messages_sent: self.messages_sent,
            bytes_sent: self.bytes_sent,
            current_sequence: self.sequence,
            is_running: self.is_running,
        }
    }

    /// Shutdown broadcaster
    pub fn shutdown(&mut self)
        ensures
            *final(self) == (MulticastBroadcaster { is_running: false, ..*old(self) }),
    {
        self.is_running = false;
    }
}

/// Listener statistics
#[derive(Debug)]
pub struct ListenerStats {
    pub channel_id: u8,
    pub multicast_group: String,
    pub port: u16,
    pub messages_received: u64,
    pub bytes_received: u64,
    pub last_sequence: u64,
    pub dropped_messages: u64,
    pub is_running: bool,
}

/// Multicast listener for consumers
pub struct MulticastListener {
    pub channel_id: u8,
    pub multicast_group: String,
    pub port: u16,
    pub messages_received: u64,
    pub bytes_received: u64,
    pub last_sequence: u64,
    pub dropped_messages: u64,
    pub is_running: bool,
}

impl MulticastListener {
    /// The last sequence number is one that a message can carry.
    pub open spec fn wf(&self) -> bool {
        self.last_sequence <= u16::MAX
    }

    /// Create new multicast listener
    pub fn new(channel_id: u8, multicast_group: String, port: u16) -> (r: Self)
        ensures
            r.wf(),
            r.channel_id == channel_id,
            r.multicast_group == multicast_group,
            r.port == port,
            r.messages_received == 0,
            r.bytes_received == 0,
            r.last_sequence == 0,
            r.dropped_messages == 0,
            r.is_running,
    {
        MulticastListener {
            channel_id,
            multicast_group,
            port,
            messages_received: 0,
            bytes_received: 0,
            last_sequence: 0,
            dropped_messages: 0,
            is_running: true,
        }
    }

    /// Takes a received datagram: a message that does not follow the last one
    /// counts as a drop, where the number after the largest is zero. A datagram
    /// too short for a message is passed over.
    pub fn accept_datagram(&mut self, data: &[u8]) -> (r: Option<TickMessage>)
        requires
            old(self).wf(),
        ensures
            final(self).wf(),
            final(self).channel_id == old(self).channel_id,
            final(self).multicast_group == old(self).multicast_group,
            final(self).port == old(self).port,
            final(self).is_running == old(self).is_running,
            if data@.len() < TICK_BYTES {
                r is None && *final(self) == *old(self)
            } else {
                let m = unwired(data@);
                &&& r == Some(m)
                &&& final(self).last_sequence == m.sequence
                &&& final(self).messages_received == old(self).messages_received.wrapping_add(1)
                &&& final(self).bytes_received == old(self).bytes_received.wrapping_add(
                    data@.len() as u64,
                )
                &&& final(self).dropped_messages == (if old(self).last_sequence > 0 && m.sequence
                    != (old(self).last_sequence + 1) % 0x1_0000 {
                    old(self).dropped_messages.wrapping_add(1)
                } else {
                    old(self).dropped_messages
                })
            },
    {
        match TickMessage::from_bytes(data) {
            None => None,
            Some(tick) => {
                let expected: u64 = (self.last_sequence + 1) % 0x1_0000;
                if tick.sequence as u64 != expected && self.last_sequence > 0 {
                    self.dropped_messages = self.dropped_messages.wrapping_add(1);
                }
                self.last_sequence = tick.sequence as u64;
                self.messages_received = self.messages_received.wrapping_add(1);
                self.bytes_received = self.bytes_received.wrapping_add(data.len() as u64);
                Some(tick)
            },
        }
    }

    /// Get listener statistics
    pub fn get_stats(&self) -> (r: ListenerStats)
        ensures
            r.channel_id == self.channel_id,
            r.multicast_group@ == self.multicast_group@,
            r.port == self.port,
            r.messages_received == self.messages_received,
            r.bytes_received == self.bytes_received,
            r.last_sequence == self.last_sequence,
            r.dropped_messages == self.dropped_messages,
            r.is_running == self.is_running,
    {
        ListenerStats {
            channel_id: self.channel_id,
            multicast_group: self.multicast_group.clone(),
            port: self.port,
            messages_received: self.messages_received,
            bytes_received: self.bytes_received,
            last_sequence: self.last_sequence,
            dropped_messages: self.dropped_messages,
            is_running: self.is_running,
        }
    }

    /// Shutdown listener
    pub fn shutdown(&mut self)
        ensures
            *final(self) == (MulticastListener { is_running: false, ..*old(self) }),
    {
        self.is_running = false;
    }
}

/// A tick is written in this order: type, channel, two bytes of the sequence,
/// and from the eighth byte on, eight bytes each, the time, the symbol, the bid
/// and the ask price, and the bid and the ask volume.
pub proof fn law_wire_layout(m: TickMessage)
    ensures
        ({
            let w = wire(m);
            &&& w[0] == m.msg_type
            &&& w[1] == m.channel_id
            &&& bytes::le_at(w, 2, 2) == m.sequence
            &&& bytes::le_at(w, 8, 8) == m.timestamp_ns
            &&& bytes::le_at(w, 16, 8) == m.symbol_hash
            &&& (bytes::le_at(w, 24, 8) as u64) as i64 == m.bid_price
            &&& (bytes::le_at(w, 32, 8) as u64) as i64 == m.ask_price
            &&& bytes::le_at(w, 40, 8) == m.bid_volume_bits
            &&& bytes::le_at(w, 48, 8) == m.ask_volume_bits
        }),
{
    let w = wire(m);
    law_wire_round_trip(m);
    bytes::lemma_le_limits();
    bytes::lemma_le_value_bound(w.subrange(2, 4));
    bytes::lemma_le_value_bound(w.subrange(8, 16));
    bytes::lemma_le_value_bound(w.subrange(16, 24));
    bytes::lemma_le_value_bound(w.subrange(40, 48));
    bytes::lemma_le_value_bound(w.subrange(48, 56));
    let u = unwired(w);
    assert(u.msg_type == w[0] && u.channel_id == w[1]);
    assert(u == m);
}

/// Channels, subscribers, successful sends and bytes count one by one.
pub proof fn law_counts_one_by_one(
    channels: Seq<Option<ChannelConfig>>,
    c: Option<ChannelConfig>,
    subs: Seq<Option<Vec<Subscriber>>>,
    v: Option<Vec<Subscriber>>,
    sends: Seq<Option<usize>>,
    s: Option<usize>,
    counter: u64,
)
    ensures
        channel_count(Seq::<Option<ChannelConfig>>::empty()) == 0,
        channel_count(channels.push(c)) == channel_count(channels) + (if c is Some {
            1nat
        } else {
            0
        }),
        subscriber_count(Seq::<Option<Vec<Subscriber>>>::empty()) == 0,
        v is Some ==> subscriber_count(subs.push(v)) == subscriber_count(subs) + v->0@.len(),
        v is None ==> subscriber_count(subs.push(v)) == subscriber_count(subs),
        success_count(Seq::<Option<usize>>::empty()) == 0,
        success_count(sends.push(s)) == success_count(sends) + (if s is Some {
            1nat
        } else {
            0
        }),
        bytes_after(counter, Seq::<Option<usize>>::empty()) == counter,
        s is None ==> bytes_after(counter, sends.push(s)) == bytes_after(counter, sends),
        s is Some && bytes_after(counter, sends) + s->0 <= u64::MAX ==> bytes_after(
            counter,
            sends.push(s),
        ) == bytes_after(counter, sends) + s->0,
{
    assert(channels.push(c).drop_last() =~= channels);
    assert(subs.push(v).drop_last() =~= subs);
    assert(sends.push(s).drop_last() =~= sends);
}

/// The subscribers of a channel are those that it lists.
pub proof fn law_population(b: MulticastBroadcaster, channel_id: u8)
    ensures
        b.subscribers@[channel_id as int] matches Some(v) ==> b.population(channel_id) == v@.len(),
        b.subscribers@[channel_id as int] is None ==> b.population(channel_id) == 0,
{
}

} // verus!
