//! Binary message format: headers, trades and order books at fixed offsets,
//! and a byte ring for passing messages.
use crate::bytes;
use crate::bytes::{append_le, append_zeros, read_le};
use vstd::prelude::*;
use vstd::slice::slice_subrange;
use vstd::string::*;
use vstd::utf8::*;

verus! {

/// Message type identifiers for protocol dispatch
#[derive(Debug, Clone, Copy, PartialEq, Eq, Structural)]
pub enum MessageType {
    Tick,
    OrderBookSnapshot,
    OrderBookUpdate,
    Trade,
    OrderAck,
    OrderCancel,
    Heartbeat,
    Error,
}

impl MessageType {
    /// The identifier on the wire.
    pub open spec fn number(self) -> u8 {
        match self {
            MessageType::Tick => 0x01,
            MessageType::OrderBookSnapshot => 0x02,
            MessageType::OrderBookUpdate => 0x03,
            MessageType::Trade => 0x04,
            MessageType::OrderAck => 0x05,
            MessageType::OrderCancel => 0x06,
            MessageType::Heartbeat => 0x07,
            MessageType::Error => 0xFF,
        }
    }

    pub fn as_u8(self) -> (r: u8)
        ensures
            r == self.number(),
    {
        match self {
            MessageType::Tick => 0x01,
            MessageType::OrderBookSnapshot => 0x02,
            MessageType::OrderBookUpdate => 0x03,
            MessageType::Trade => 0x04,
            MessageType::OrderAck => 0x05,
            MessageType::OrderCancel => 0x06,
            MessageType::Heartbeat => 0x07,
            MessageType::Error => 0xFF,
        }
    }

    pub fn from_u8(val: u8) -> (r: Option<Self>)
        ensures
            r matches Some(t) ==> t.number() == val,
            r is None <==> !valid_type(val),
    {
        match val {
            0x01 => Some(MessageType::Tick),
            0x02 => Some(MessageType::OrderBookSnapshot),
            0x03 => Some(MessageType::OrderBookUpdate),
            0x04 => Some(MessageType::Trade),
            0x05 => Some(MessageType::OrderAck),
            0x06 => Some(MessageType::OrderCancel),
            0x07 => Some(MessageType::Heartbeat),
            0xFF => Some(MessageType::Error),
            _ => None,
        }
    }
}

/// Whether a byte identifies a message type.
pub open spec fn valid_type(val: u8) -> bool {
    1 <= val <= 7 || val == 0xFF
}

/// Every type has an identifier of its own, and these are the valid ones.
pub proof fn law_type_numbers(a: MessageType, b: MessageType)
    ensures
        valid_type(a.number()),
        a.number() == b.number() ==> a == b,
{
}

/// Fixed-size message header
#[derive(Debug, Clone, Copy, PartialEq, Eq, Structural)]
pub struct MessageHeader {
    /// Message type identifier
    pub msg_type: u8,
    /// Protocol version
    pub version: u8,
    /// Reserved for future use
    pub flags: u16,
    /// Payload length in bytes
    pub payload_len: u32,
    /// Sequence number for ordering/deduplication
    pub sequence: u64,
}

/// A header on the wire: one cache line, the fields first, zeros after.
pub open spec fn header_bytes(h: MessageHeader) -> Seq<u8> {
    seq![h.msg_type, h.version] + bytes::le_bytes(h.flags as nat, 2) + bytes::le_bytes(
        h.payload_len as nat,
        4,
    ) + bytes::le_bytes(h.sequence as nat, 8) + Seq::new(48, |i: int| 0u8)
}

/// The header that bytes stand for.
pub open spec fn header_at(s: Seq<u8>) -> MessageHeader {
    MessageHeader {
        msg_type: s[0],
        version: s[1],
        flags: bytes::le_at(s, 2, 2) as u16,
        payload_len: bytes::le_at(s, 4, 4) as u32,
        sequence: bytes::le_at(s, 8, 8) as u64,
    }
}

/// Decoding gives back the header that was encoded, whatever follows it.
pub proof fn law_header_round_trip(h: MessageHeader, rest: Seq<u8>)
    ensures
        header_bytes(h).len() == 64,
        header_at(header_bytes(h) + rest) == h,
{
    let s = header_bytes(h) + rest;
    bytes::lemma_le_limits();
    bytes::lemma_le_round_trip(h.flags as nat, 2);
    bytes::lemma_le_round_trip(h.payload_len as nat, 4);
    bytes::lemma_le_round_trip(h.sequence as nat, 8);
    assert(s.subrange(2, 4) =~= bytes::le_bytes(h.flags as nat, 2));
    assert(s.subrange(4, 8) =~= bytes::le_bytes(h.payload_len as nat, 4));
    assert(s.subrange(8, 16) =~= bytes::le_bytes(h.sequence as nat, 8));
}

impl MessageHeader {
    pub const SIZE: usize = 64;

    pub fn new(msg_type: MessageType, payload_len: u32, sequence: u64) -> (r: Self)
        ensures
            r == (MessageHeader {
                msg_type: msg_type.number(),
                version: 1,
                flags: 0,
                payload_len,
                sequence,
            }),
    {
        MessageHeader { msg_type: msg_type.as_u8(), version: 1, flags: 0, payload_len, sequence }
    }

    /// Parse header from raw bytes
    pub fn from_bytes(data: &[u8]) -> (r: Self)
        requires
            data@.len() >= Self::SIZE,
        ensures
            r == header_at(data@),
    {
        proof {
            bytes::lemma_le_limits();
        }
        MessageHeader {
            msg_type: data[0],
            version: data[1],
            flags: read_le(data, 2, 2) as u16,
            payload_len: read_le(data, 4, 4) as u32,
            sequence: read_le(data, 8, 8),
        }
    }

    /// Get header as raw bytes
    pub fn as_bytes(&self) -> (r: Vec<u8>)
        ensures
            r@ == header_bytes(*self),
            r.len() == Self::SIZE,
    {
        let mut out: Vec<u8> = Vec::with_capacity(MessageHeader::SIZE);
        out.push(self.msg_type);
        out.push(self.version);
        append_le(&mut out, self.flags as u64, 2);
        append_le(&mut out, self.payload_len as u64, 4);
        append_le(&mut out, self.sequence, 8);
        append_zeros(&mut out, 48);
        proof {
            assert(out@ =~= header_bytes(*self));
            law_header_round_trip(*self, Seq::empty());
        }
        out
    }
}

/// Why a symbol cannot be read as text.
#[derive(Debug, Clone, Copy, PartialEq, Eq, Structural)]
pub enum SymbolError {
    InvalidUtf8,
}

/// `std::str::from_utf8`: the text whose UTF-8 encoding the bytes are, or
/// nothing where they are no such encoding.
#[verifier::external_body]
fn text_from_utf8(v: &[u8]) -> (r: Option<&str>)
    ensures
        r is Some <==> valid_utf8(v@),
        r matches Some(s) ==> s.spec_bytes() == v@,
{
    std::str::from_utf8(v).ok()
}

/// Aggregate trade message structure
#[derive(Debug, Clone, Copy)]
pub struct AggregateTrade {
    /// Event type
    pub event_type: [u8; 8],
    /// Event time (timestamp)
    pub event_time: i64,
    /// Symbol (encoded as fixed-size array)
    pub symbol: [u8; 12],
    /// Aggregate trade ID
    pub agg_trade_id: i64,
    /// Price (scaled integer, multiply by 1e-8 for actual value)
    pub price: i64,
    /// Quantity (scaled integer)
    pub quantity: i64,
    /// First trade ID in this aggregate
    pub first_trade_id: i64,
    /// Last trade ID in this aggregate
    pub last_trade_id: i64,
    /// Trade time
    pub trade_time: i64,
    /// Was the buyer the maker?
    pub is_buyer_maker: bool,
    /// Reserved padding
    pub _padding: [u8; 7],
}

/// A signed word at an offset.
pub open spec fn signed_at(s: Seq<u8>, at: int) -> i64 {
    (bytes::le_at(s, at, 8) as u64) as i64
}

fn read_signed(data: &[u8], at: usize) -> (r: i64)
    requires
        at + 8 <= data@.len(),
    ensures
        r == signed_at(data@, at as int),
{
    read_le(data, at, 8) as i64
}

fn read_symbol(data: &[u8], at: usize) -> (r: [u8; 12])
    requires
        at + 12 <= data@.len(),
    ensures
        r@ == data@.subrange(at as int, at + 12),
{
    let len: usize = data.len();
    assert(at + 12 <= len);
    let r: [u8; 12] = [
        data[at],
        data[at + 1],
        data[at + 2],
        data[at + 3],
        data[at + 4],
        data[at + 5],
        data[at + 6],
        data[at + 7],
        data[at + 8],
        data[at + 9],
        data[at + 10],
        data[at + 11],
    ];
    assert(r@ =~= data@.subrange(at as int, at + 12));
    r
}

/// How many of the first `n` bytes are not trailing spaces.
pub open spec fn trimmed_len(s: Seq<u8>, n: nat) -> nat
    decreases n,
{
    if n == 0 || s[n - 1] != 0x20 {
        n
    } else {
        trimmed_len(s, (n - 1) as nat)
    }
}

/// Where the first zero byte stands, or the length where there is none.
pub open spec fn terminator(s: Seq<u8>, from: nat) -> nat
    decreases s.len() - from,
{
    if from >= s.len() {
        s.len()
    } else if s[from as int] == 0 {
        from
    } else {
        terminator(s, from + 1)
    }
}

/// The bytes of the name in a padded symbol: up to the first zero byte, without
/// trailing spaces.
pub open spec fn name_bytes(s: Seq<u8>) -> Seq<u8> {
    s.subrange(0, trimmed_len(s, terminator(s, 0)) as int)
}

impl AggregateTrade {
    pub const SIZE: usize = 128;

    /// Create from raw bytes
    pub fn from_bytes(data: &[u8]) -> (r: Self)
        requires
            data@.len() >= Self::SIZE,
        ensures
            r.event_type@ == data@.subrange(0, 8),
            r.event_time == signed_at(data@, 8),
            r.symbol@ == data@.subrange(16, 28),
            r.agg_trade_id == signed_at(data@, 32),
            r.price == signed_at(data@, 40),
            r.quantity == signed_at(data@, 48),
            r.first_trade_id == signed_at(data@, 56),
            r.last_trade_id == signed_at(data@, 64),
            r.trade_time == signed_at(data@, 72),
            r.is_buyer_maker == (data@[80] != 0),
            r._padding@ == data@.subrange(81, 88),
    {
        let event_type: [u8; 8] = [
            data[0],
            data[1],
            data[2],
            data[3],
            data[4],
            data[5],
            data[6],
            data[7],
        ];
        let padding: [u8; 7] = [
            data[81],
            data[82],
            data[83],
            data[84],
            data[85],
            data[86],
            data[87],
        ];
        assert(event_type@ =~= data@.subrange(0, 8));
        assert(padding@ =~= data@.subrange(81, 88));
        AggregateTrade {
            event_type,
            event_time: read_signed(data, 8),
            symbol: read_symbol(data, 16),
            agg_trade_id: read_signed(data, 32),
            price: read_signed(data, 40),
            quantity: read_signed(data, 48),
            first_trade_id: read_signed(data, 56),
            last_trade_id: read_signed(data, 64),
            trade_time: read_signed(data, 72),
            is_buyer_maker: data[80] != 0,
            _padding: padding,
        }
    }

    /// Get symbol as string slice
    pub fn get_symbol_str(&self) -> (r: Result<&str, SymbolError>)
        ensures
            r is Ok <==> valid_utf8(name_bytes(self.symbol@)),
            r matches Ok(s) ==> s.spec_bytes() == name_bytes(self.symbol@),
    {
        let mut len: usize = 0;
        while len < 12 && self.symbol[len] != 0
            invariant
                len <= 12,
                terminator(self.symbol@, 0) == terminator(self.symbol@, len as nat),
            decreases 12 - len,
        {
            len = len + 1;
        }
        while len > 0 && self.symbol[len - 1] == 0x20
            invariant
                len <= 12,
                trimmed_len(self.symbol@, terminator(self.symbol@, 0)) == trimmed_len(
                    self.symbol@,
                    len as nat,
                ),
            decreases len,
        {
            len = len - 1;
        }
        match text_from_utf8(slice_subrange(self.symbol.as_slice(), 0, len)) {
            Some(s) => Ok(s),
            None => Err(SymbolError::InvalidUtf8),
        }
    }
}

/// Order book level entry (price/quantity pair)
#[derive(Debug, Clone, Copy, PartialEq, Eq, Structural)]
pub struct OrderBookLevel {
    /// Price (scaled integer)
    pub price: i64,
    /// Quantity (scaled integer)
    pub quantity: i64,
    /// Number of orders at this level
    pub order_count: u32,
    /// Reserved padding
    pub _padding: u32,
}

/// The level at an offset.
pub open spec fn level_at(s: Seq<u8>, at: int) -> OrderBookLevel {
    OrderBookLevel {
        price: signed_at(s, at),
        quantity: signed_at(s, at + 8),
        order_count: bytes::le_at(s, at + 16, 4) as u32,
        _padding: bytes::le_at(s, at + 20, 4) as u32,
    }
}

/// Levels one after the other from an offset.
pub open spec fn levels_at(s: Seq<u8>, at: int, count: nat) -> Seq<OrderBookLevel> {
    Seq::new(count, |i: int| level_at(s, at + 32 * i))
}

impl OrderBookLevel {
    pub const SIZE: usize = 32;
}

fn read_levels(data: &[u8], at: usize, count: u16) -> (r: Vec<OrderBookLevel>)
    requires
        at + 32 * count <= data@.len(),
    ensures
        r@ == levels_at(data@, at as int, count as nat),
{
    let len: usize = data.len();
    let mut out: Vec<OrderBookLevel> = Vec::new();
    let mut i: u16 = 0;
    while i < count
        invariant
            i <= count,
            len == data@.len(),
            at + 32 * count <= len,
            out@ == levels_at(data@, at as int, i as nat),
        decreases count - i,
    {
        let pos: usize = at + 32 * (i as usize);
        proof {
            bytes::lemma_le_limits();
        }
        out.push(
            OrderBookLevel {
                price: read_signed(data, pos),
                quantity: read_signed(data, pos + 8),
                order_count: read_le(data, pos + 16, 4) as u32,
                _padding: read_le(data, pos + 20, 4) as u32,
            },
        );
        i = i + 1;
        assert(out@ =~= levels_at(data@, at as int, i as nat));
    }
    out
}

/// Order book snapshot message; the bid levels follow it in the message, then
/// the ask levels.
#[derive(Debug, Clone, Copy)]
pub struct OrderBookSnapshot {
    /// Header
    pub header: MessageHeader,
    /// Symbol
    pub symbol: [u8; 12],
    /// Last update ID
    pub last_update_id: i64,
    /// Number of bid levels
    pub bid_count: u16,
    /// Number of ask levels
    pub ask_count: u16,
    /// Reserved
    pub _reserved: u32,
}

impl OrderBookSnapshot {
    pub const SIZE: usize = 128;

    /// Reads the fixed part of a message.
    pub fn from_bytes(data: &[u8]) -> (r: Self)
        requires
            data@.len() >= Self::SIZE,
        ensures
            r.header == header_at(data@),
            r.symbol@ == data@.subrange(64, 76),
            r.last_update_id == signed_at(data@, 80),
            r.bid_count == bytes::le_at(data@, 88, 2),
            r.ask_count == bytes::le_at(data@, 90, 2),
            r._reserved == bytes::le_at(data@, 92, 4),
    {
        proof {
            bytes::lemma_le_limits();
        }
        OrderBookSnapshot {
            header: MessageHeader::from_bytes(data),
            symbol: read_symbol(data, 64),
            last_update_id: read_signed(data, 80),
            bid_count: read_le(data, 88, 2) as u16,
            ask_count: read_le(data, 90, 2) as u16,
            _reserved: read_le(data, 92, 4) as u32,
        }
    }

    /// The bid levels of the message, where it is long enough to hold them.
    pub fn get_bids(&self, message: &[u8]) -> (r: Option<Vec<OrderBookLevel>>)
        ensures
            r is Some <==> message@.len() >= 128 + 32 * self.bid_count,
            r matches Some(levels) ==> levels@ == levels_at(message@, 128, self.bid_count as nat),
    {
        if message.len() < 128 + 32 * (self.bid_count as usize) {
            return None;
        }
        Some(read_levels(message, 128, self.bid_count))
    }

    /// The ask levels of the message, where it is long enough to hold them.
    pub fn get_asks(&self, message: &[u8]) -> (r: Option<Vec<OrderBookLevel>>)
        ensures
            r is Some <==> message@.len() >= 128 + 32 * (self.bid_count + self.ask_count),
            r matches Some(levels) ==> levels@ == levels_at(
                message@,
                128 + 32 * self.bid_count,
                self.ask_count as nat,
            ),
    {
        let start: usize = 128 + 32 * (self.bid_count as usize);
        if message.len() < start + 32 * (self.ask_count as usize) {
            return None;
        }
        Some(read_levels(message, start, self.ask_count))
    }
}

/// Protocol encoder/decoder
pub struct ProtocolCodec;

/// Whether bytes hold a message: a header of a known type, and its payload.
pub open spec fn well_framed(s: Seq<u8>) -> bool {
    &&& s.len() >= 64
    &&& valid_type(header_at(s).msg_type)
    &&& s.len() >= 64 + header_at(s).payload_len
}

impl ProtocolCodec {
    /// Encode a message header into buffer (returns bytes written)
    pub fn encode_header(header: &MessageHeader, buffer: &mut Vec<u8>) -> (r: usize)
        ensures
            final(buffer).len() == old(buffer).len(),
            if old(buffer).len() < 64 {
                r == 0 && final(buffer)@ == old(buffer)@
            } else {
                r == 64 && final(buffer)@ == header_bytes(*header) + old(buffer)@.subrange(
                    64,
                    old(buffer).len() as int,
                )
            },
    {
        if buffer.len() < MessageHeader::SIZE {
            return 0;
        }
        let src: Vec<u8> = header.as_bytes();
        let ghost before = buffer@;
        let mut i: usize = 0;
        while i < 64
            invariant
                i <= 64,
                src.len() == 64,
                buffer.len() == before.len(),
                before.len() >= 64,
                forall|k: int| 0 <= k < i ==> #[trigger] buffer@[k] == src@[k],
                forall|k: int| i <= k < before.len() ==> #[trigger] buffer@[k] == before[k],
            decreases 64 - i,
        {
            buffer.set(i, src[i]);
            i = i + 1;
        }
        assert(buffer@ =~= src@ + before.subrange(64, before.len() as int));
        MessageHeader::SIZE
    }

    /// Decode header from buffer
    pub fn decode_header(buffer: &[u8]) -> (r: Option<MessageHeader>)
        ensures
            r == (if buffer@.len() < 64 {
                None
            } else {
                Some(header_at(buffer@))
            }),
    {
        if buffer.len() < MessageHeader::SIZE {
            return None;
        }
        Some(MessageHeader::from_bytes(buffer))
    }

    /// Validate message integrity
    pub fn validate_message(buffer: &[u8]) -> (r: bool)
        ensures
            r == well_framed(buffer@),
    {
        if buffer.len() < MessageHeader::SIZE {
            return false;
        }
        let header: MessageHeader = MessageHeader::from_bytes(buffer);
        if MessageType::from_u8(header.msg_type).is_none() {
            return false;
        }
        let total_expected: u64 = 64 + header.payload_len as u64;
        (buffer.len() as u64) >= total_expected
    }
}

/// A header that was made for a payload, followed by that payload, is a message.
pub proof fn law_framed(t: MessageType, sequence: u64, payload: Seq<u8>)
    requires
        payload.len() <= u32::MAX,
    ensures
        well_framed(
            header_bytes(
                MessageHeader {
                    msg_type: t.number(),
                    version: 1,
                    flags: 0,
                    payload_len: payload.len() as u32,
                    sequence,
                },
            ) + payload,
        ),
{
    let h = MessageHeader {
        msg_type: t.number(),
        version: 1,
        flags: 0,
        payload_len: payload.len() as u32,
        sequence,
    };
    law_header_round_trip(h, payload);
}

/// Ring buffer for message passing
pub struct ZeroCopyRingBuffer {
    /// Buffer storage
    pub buffer: Vec<u8>,
    /// Total capacity
    pub capacity: usize,
    /// Read position
    pub read_pos: usize,
    /// Write position
    pub write_pos: usize,
    /// Current message count
    pub count: usize,
}

/// Length of a message that is read: a header and a payload.
pub const PEEK_LEN: usize = 192;

impl ZeroCopyRingBuffer {
    pub open spec fn wf(&self) -> bool {
        &&& self.capacity > 0
        &&& self.buffer.len() == self.capacity
        &&& self.read_pos < self.capacity
        &&& self.write_pos < self.capacity
    }

    /// Free bytes: the distance from the write to the read position round the
    /// ring, less the one byte that always stays free.
    pub open spec fn free(&self) -> int {
        if self.write_pos >= self.read_pos {
            self.capacity - (self.write_pos - self.read_pos) - 1
        } else {
            self.read_pos - self.write_pos - 1
        }
    }

    pub fn new(capacity: usize) -> (r: Self)
        requires
            capacity > 0,
        ensures
            r.wf(),
            r.capacity == capacity,
            r.buffer@ == Seq::new(capacity as nat, |i: int| 0u8),
            r.read_pos == 0,
            r.write_pos == 0,
            r.count == 0,
    {
        let buffer: Vec<u8> = vec![0u8; capacity];
        assert(buffer@ =~= Seq::new(capacity as nat, |i: int| 0u8));
        ZeroCopyRingBuffer { buffer, capacity, read_pos: 0, write_pos: 0, count: 0 }
    }

    /// Get available write space
    pub fn available_space(&self) -> (r: usize)
        requires
            self.wf(),
        ensures
            r == self.free(),
    {
        if self.write_pos >= self.read_pos {
            self.capacity - (self.write_pos - self.read_pos) - 1
        } else {
            self.read_pos - self.write_pos - 1
        }
    }

    /// Get current message count
    pub fn count(&self) -> (r: usize)
        ensures
            r == self.count,
    {
        self.count
    }

    /// Reserve contiguous space for writing (returns position and length)
    pub fn reserve_write(&mut self, len: usize) -> (r: Option<(usize, usize)>)
        requires
            old(self).wf(),
            old(self).count < usize::MAX,
        ensures
            final(self).wf(),
            if len <= old(self).free() && old(self).write_pos + len <= old(self).capacity {
                &&& r == Some((old(self).write_pos, len))
                &&& final(self).write_pos == (old(self).write_pos + len) % (old(self).capacity as int)
                &&& final(self).count == old(self).count + 1
                &&& final(self).free() == old(self).free() - len
            } else {
                &&& r is None
                &&& final(self).write_pos == old(self).write_pos
                &&& final(self).count == old(self).count
            },
            final(self).buffer == old(self).buffer,
            final(self).capacity == old(self).capacity,
            final(self).read_pos == old(self).read_pos,
    {
        if len > self.available_space() || len > self.capacity - self.write_pos {
            return None;
        }
        let pos: usize = self.write_pos;
        let next: usize = pos + len;
        self.write_pos = if next == self.capacity {
            0
        } else {
            next
        };
        self.count = self.count + 1;
        proof {
            if next == self.capacity {
                assert(next as int % self.capacity as int == 0) by (nonlinear_arith)
                    requires
                        next == self.capacity,
                        self.capacity > 0,
                ;
            } else {
                vstd::arithmetic::div_mod::lemma_small_mod(next as nat, self.capacity as nat);
            }
        }
        Some((pos, len))
    }

    /// Writes a message to reserved space.
    pub fn fill_reserved(&mut self, pos: usize, data: &[u8])
        requires
            old(self).wf(),
            pos + data@.len() <= old(self).capacity,
        ensures
            final(self).wf(),
            final(self).buffer@ == old(self).buffer@.subrange(0, pos as int) + data@ + old(self).buffer@.subrange(pos + data@.len(), old(self).capacity as int),
            final(self).capacity == old(self).capacity,
            final(self).read_pos == old(self).read_pos,
            final(self).write_pos == old(self).write_pos,
            final(self).count == old(self).count,
    {
        let n: usize = data.len();
        let ghost before = self.buffer@;
        let mut i: usize = 0;
        while i < n
            invariant
                i <= n,
                n == data@.len(),
                self.wf(),
                pos + n <= self.capacity,
                before.len() == self.capacity,
                self.capacity == old(self).capacity,
                self.read_pos == old(self).read_pos,
                self.write_pos == old(self).write_pos,
                self.count == old(self).count,
                forall|k: int| 0 <= k < i ==> self.buffer@[pos + k] == #[trigger] data@[k],
                forall|k: int|
                    0 <= k < pos || pos + i <= k < before.len() ==> #[trigger] self.buffer@[k]
                        == before[k],
            decreases n - i,
        {
            self.buffer.set(pos + i, data[i]);
            i = i + 1;
        }
        assert(self.buffer@ =~= before.subrange(0, pos as int) + data@ + before.subrange(
            pos + data@.len(),
            self.capacity as int,
        )) by {
            assert forall|k: int| 0 <= k < self.capacity implies self.buffer@[k] == (
            before.subrange(0, pos as int) + data@ + before.subrange(
                pos + data@.len(),
                self.capacity as int,
            ))[k] by {
                if pos <= k < pos + n {
                    assert(self.buffer@[pos + (k - pos)] == data@[k - pos]);
                }
            }
        }
    }

    /// Get next readable message
    pub fn peek_read(&self) -> (r: Option<&[u8]>)
        requires
            self.wf(),
        ensures
            r is Some <==> self.count > 0 && self.read_pos + PEEK_LEN <= self.capacity,
            r matches Some(s) ==> s@ == self.buffer@.subrange(
                self.read_pos as int,
                self.read_pos + PEEK_LEN,
            ),
    {
        if self.count == 0 {
            return None;
        }
        if self.capacity - self.read_pos >= PEEK_LEN {
            Some(
                slice_subrange(self.buffer.as_slice(), self.read_pos, self.read_pos + PEEK_LEN),
            )
        } else {
            None
        }
    }

    /// Advance read position after processing
    pub fn advance_read(&mut self, len: usize)
        requires
            old(self).wf(),
            old(self).count > 0 ==> old(self).read_pos + len <= usize::MAX,
        ensures
            final(self).wf(),
            if old(self).count > 0 {
                &&& final(self).read_pos == (old(self).read_pos + len) % (old(self).capacity as int)
                &&& final(self).count == old(self).count - 1
            } else {
                &&& final(self).read_pos == old(self).read_pos
                &&& final(self).count == old(self).count
            },
            final(self).buffer == old(self).buffer,
            final(self).capacity == old(self).capacity,
            final(self).write_pos == old(self).write_pos,
    {
        if self.count > 0 {
            self.read_pos = (self.read_pos + len) % self.capacity;
            self.count = self.count - 1;
        }
    }
}

/// Every message type has its own number: ticks, snapshots, updates, trades,
/// acknowledgements, cancellations and heartbeats from one on, and errors the
/// largest; no other number is valid.
pub proof fn law_numbers_of_types(val: u8)
    ensures
        MessageType::Tick.number() == 1,
        MessageType::OrderBookSnapshot.number() == 2,
        MessageType::OrderBookUpdate.number() == 3,
        MessageType::Trade.number() == 4,
        MessageType::OrderAck.number() == 5,
        MessageType::OrderCancel.number() == 6,
        MessageType::Heartbeat.number() == 7,
        MessageType::Error.number() == 255,
        valid_type(val) <==> exists|t: MessageType| #[trigger] t.number() == val,
{
    let all = (
        MessageType::Tick.number(),
        MessageType::OrderBookSnapshot.number(),
        MessageType::OrderBookUpdate.number(),
        MessageType::Trade.number(),
        MessageType::OrderAck.number(),
        MessageType::OrderCancel.number(),
        MessageType::Heartbeat.number(),
        MessageType::Error.number(),
    );
    assert(all.0 == 1 && all.7 == 255);
}

/// A header is written in this order: type, version, two bytes of flags, four
/// of the payload's length and eight of the sequence number.
pub proof fn law_header_layout(h: MessageHeader, s: Seq<u8>)
    requires
        s.len() >= 64,
    ensures
        header_at(s).msg_type == s[0],
        header_at(s).version == s[1],
        header_at(s).flags == bytes::le_at(s, 2, 2),
        header_at(s).payload_len == bytes::le_at(s, 4, 4),
        header_at(s).sequence == bytes::le_at(s, 8, 8),
        header_bytes(h)[0] == h.msg_type,
        header_bytes(h)[1] == h.version,
        bytes::le_at(header_bytes(h), 2, 2) == h.flags,
        bytes::le_at(header_bytes(h), 4, 4) == h.payload_len,
        bytes::le_at(header_bytes(h), 8, 8) == h.sequence,
        forall|i: int| 16 <= i < 64 ==> #[trigger] header_bytes(h)[i] == 0,
{
    let w = header_bytes(h);
    law_header_round_trip(h, Seq::empty());
    assert(w + Seq::<u8>::empty() =~= w);
    bytes::lemma_le_limits();
    bytes::lemma_le_value_bound(s.subrange(2, 4));
    bytes::lemma_le_value_bound(s.subrange(4, 8));
    bytes::lemma_le_value_bound(s.subrange(8, 16));
    bytes::lemma_le_value_bound(w.subrange(2, 4));
    bytes::lemma_le_value_bound(w.subrange(4, 8));
    bytes::lemma_le_value_bound(w.subrange(8, 16));
    bytes::lemma_le_bytes_len(h.flags as nat, 2);
    bytes::lemma_le_bytes_len(h.payload_len as nat, 4);
    bytes::lemma_le_bytes_len(h.sequence as nat, 8);
    assert(w[0] == header_at(w).msg_type && w[1] == header_at(w).version);
}

/// A message is well framed exactly where it holds a header of a valid type and
/// as much payload as the header says.
pub proof fn law_well_framed(s: Seq<u8>)
    ensures
        well_framed(s) <==> {
            &&& s.len() >= 64
            &&& 1 <= s[0] <= 7 || s[0] == 255
            &&& s.len() - 64 >= header_at(s).payload_len
        },
{
}

/// A book level is written in this order: price, quantity and the number of
/// orders; levels follow each other every thirty-two bytes.
pub proof fn law_level_layout(s: Seq<u8>, at: int, count: nat, i: int)
    requires
        0 <= at && 0 <= i < count && at + 32 * count <= s.len(),
    ensures
        levels_at(s, at, count).len() == count,
        ({
            let l = levels_at(s, at, count)[i];
            let p = at + 32 * i;
            &&& l.price == (bytes::le_at(s, p, 8) as u64) as i64
            &&& l.quantity == (bytes::le_at(s, p + 8, 8) as u64) as i64
            &&& l.order_count == bytes::le_at(s, p + 16, 4)
        }),
{
    let p = at + 32 * i;
    bytes::lemma_le_limits();
    bytes::lemma_le_value_bound(s.subrange(p + 16, p + 20));
}

proof fn lemma_terminator(s: Seq<u8>, from: nat)
    requires
        from <= s.len(),
    ensures
        from <= terminator(s, from) <= s.len(),
        terminator(s, from) < s.len() ==> s[terminator(s, from) as int] == 0,
        forall|i: int| from <= i < terminator(s, from) ==> #[trigger] s[i] != 0,
    decreases s.len() - from,
{
    if from < s.len() && s[from as int] != 0 {
        lemma_terminator(s, from + 1);
    }
}

proof fn lemma_trimmed(s: Seq<u8>, n: nat)
    requires
        n <= s.len(),
    ensures
        trimmed_len(s, n) <= n,
        trimmed_len(s, n) > 0 ==> s[trimmed_len(s, n) - 1] != 0x20,
        forall|i: int| trimmed_len(s, n) <= i < n ==> #[trigger] s[i] == 0x20,
    decreases n,
{
    if n > 0 && s[n - 1] == 0x20 {
        lemma_trimmed(s, (n - 1) as nat);
    }
}

/// A name is what stands before the first zero byte, without the spaces at its
/// end.
pub proof fn law_name_ends_at_padding(s: Seq<u8>)
    ensures
        ({
            let name = name_bytes(s);
            let n = name.len() as int;
            &&& n <= s.len()
            &&& name == s.subrange(0, n)
            &&& forall|i: int| 0 <= i < n ==> #[trigger] name[i] != 0
            &&& n > 0 ==> name.last() != 0x20
            &&& exists|end: int|
                n <= end <= s.len() && (end == s.len() || #[trigger] s[end] == 0) && forall|i: int|
                    n <= i < end ==> #[trigger] s[i] == 0x20
        }),
{
    lemma_terminator(s, 0);
    let t = terminator(s, 0);
    lemma_trimmed(s, t);
    let n = trimmed_len(s, t) as int;
    let end = t as int;
    assert(name_bytes(s).len() == n);
    assert forall|i: int| 0 <= i < n implies #[trigger] name_bytes(s)[i] != 0 by {
        assert(name_bytes(s)[i] == s[i]);
    }
    if n > 0 {
        assert(name_bytes(s).last() == s[n - 1]);
    }
    let mark = s[end];
    assert(n <= end <= s.len() && (end == s.len() || mark == 0) && forall|i: int|
        n <= i < end ==> #[trigger] s[i] == 0x20);
}

/// What a ring buffer holds and what is free make up all of it but one byte.
pub proof fn law_ring_space(r: ZeroCopyRingBuffer)
    requires
        r.wf(),
    ensures
        0 <= r.free() < r.capacity,
        (r.read_pos + (r.capacity - 1 - r.free())) % (r.capacity as int) == r.write_pos,
{
    let c = r.capacity as int;
    if r.write_pos >= r.read_pos {
        vstd::arithmetic::div_mod::lemma_small_mod(r.write_pos as nat, r.capacity as nat);
    } else {
        vstd::arithmetic::div_mod::lemma_mod_add_multiples_vanish(r.write_pos as int, c);
        vstd::arithmetic::div_mod::lemma_small_mod(r.write_pos as nat, r.capacity as nat);
    }
}

} // verus!
