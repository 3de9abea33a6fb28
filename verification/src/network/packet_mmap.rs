//! Tick payloads in raw Ethernet frames.
use crate::bytes;
use crate::bytes::read_le;
use vstd::prelude::*;

verus! {

/// Magic number for valid tick packets ("NAUT" in ASCII).
pub const TICK_MAGIC: u32 = 0x4E415554;

/// Bytes of Ethernet, IPv4 and UDP headers before the payload.
pub const TOTAL_OVERHEAD: usize = 42;

/// Bytes of a tick payload.
pub const TICK_SIZE: usize = 40;

/// Tick structure carried in a network payload.
#[derive(Debug, Clone, Copy, PartialEq, Eq, Structural)]
pub struct NautilusTick {
    /// Magic number for validation.
    pub magic: u32,
    /// Timestamp from exchange (nanoseconds since epoch).
    pub exchange_ts: u64,
    /// Symbol ID (e.g., BTCUSDT = 1).
    pub symbol_id: u32,
    /// Price (scaled integer, 8 decimal places).
    pub price: i64,
    /// Quantity (scaled integer, 8 decimal places).
    pub quantity: i64,
    /// Side: 0 = buy, 1 = sell.
    pub side: u8,
    /// Reserved.
    pub reserved: u32,
    pub reserved_low: u16,
    pub reserved_end: u8,
}

/// Result of parsing a packet.
#[derive(Debug, Clone, Copy, PartialEq, Eq, Structural)]
pub enum ParseResult {
    /// Successfully parsed tick.
    Tick(NautilusTick),
    /// Packet too small.
    TooSmall,
    /// Invalid magic number.
    InvalidMagic,
    /// Checksum failure.
    ChecksumError,
    /// Malformed packet.
    Malformed,
}

/// The tick that forty bytes from a position stand for.
pub open spec fn tick_at(s: Seq<u8>, at: int) -> NautilusTick {
    NautilusTick {
        magic: bytes::le_at(s, at, 4) as u32,
        exchange_ts: bytes::le_at(s, at + 4, 8) as u64,
        symbol_id: bytes::le_at(s, at + 12, 4) as u32,
        price: (bytes::le_at(s, at + 16, 8) as u64) as i64,
        quantity: (bytes::le_at(s, at + 24, 8) as u64) as i64,
        side: s[at + 32],
        reserved: bytes::le_at(s, at + 33, 4) as u32,
        reserved_low: bytes::le_at(s, at + 37, 2) as u16,
        reserved_end: s[at + 39],
    }
}

/// What a frame parses to: an IPv4 UDP frame long enough for a tick, whose
/// payload begins with the magic number, carries a tick.
pub open spec fn parsed(frame: Seq<u8>) -> ParseResult {
    if frame.len() < TOTAL_OVERHEAD + TICK_SIZE {
        ParseResult::TooSmall
    } else if !(frame[12] == 0x08 && frame[13] == 0x00) {
        ParseResult::Malformed
    } else if frame[23] != 17 {
        ParseResult::Malformed
    } else if bytes::le_at(frame, TOTAL_OVERHEAD as int, 4) != TICK_MAGIC {
        ParseResult::InvalidMagic
    } else {
        ParseResult::Tick(tick_at(frame, TOTAL_OVERHEAD as int))
    }
}

/// Parser statistics.
#[derive(Debug, Clone, Copy, PartialEq, Eq, Structural)]
pub struct ParserStats {
    pub packets_parsed: u64,
    pub ticks_extracted: u64,
    pub parse_errors: u64,
}

/// Packet parser for tick extraction.
pub struct PacketParser {
    /// Total packets parsed.
    pub packets_parsed: u64,
    /// Total successful ticks extracted.
    pub ticks_extracted: u64,
    /// Total parse errors.
    pub parse_errors: u64,
}

/// How many of the frames carry a tick.
pub open spec fn tick_count(frames: Seq<Vec<u8>>) -> nat
    decreases frames.len(),
{
    if frames.len() == 0 {
        0
    } else {
        tick_count(frames.drop_last()) + (if parsed(frames.last()@) is Tick {
            1nat
        } else {
            0nat
        })
    }
}

impl PacketParser {
    /// Every packet counted so far gave a tick or an error. The counters wrap
    /// around at the end of their type.
    pub open spec fn balanced(self) -> bool {
        self.packets_parsed == self.ticks_extracted.wrapping_add(self.parse_errors)
    }

    /// Whether nothing was counted yet.
    pub open spec fn fresh(self) -> bool {
        &&& self.packets_parsed == 0
        &&& self.ticks_extracted == 0
        &&& self.parse_errors == 0
    }

    /// The counters after one more frame.
    pub open spec fn counted(self, frame: Seq<u8>) -> PacketParser {
        if parsed(frame) is Tick {
            PacketParser {
                packets_parsed: self.packets_parsed.wrapping_add(1),
                ticks_extracted: self.ticks_extracted.wrapping_add(1),
                parse_errors: self.parse_errors,
            }
        } else {
            PacketParser {
                packets_parsed: self.packets_parsed.wrapping_add(1),
                ticks_extracted: self.ticks_extracted,
                parse_errors: self.parse_errors.wrapping_add(1),
            }
        }
    }

    /// The counters after a run of frames, in their order.
    pub open spec fn counted_all(self, frames: Seq<Vec<u8>>) -> PacketParser
        decreases frames.len(),
    {
        if frames.len() == 0 {
            self
        } else {
            self.counted_all(frames.drop_last()).counted(frames.last()@)
        }
    }
}

fn read_tick(frame: &[u8], at: usize) -> (r: NautilusTick)
    requires
        at + TICK_SIZE <= frame@.len(),
    ensures
        r == tick_at(frame@, at as int),
{
    let len: usize = frame.len();
    proof {
        bytes::lemma_le_limits();
        assert(at + 40 <= len);
    }
    NautilusTick {
        magic: read_le(frame, at, 4) as u32,
        exchange_ts: read_le(frame, at + 4, 8),
        symbol_id: read_le(frame, at + 12, 4) as u32,
        price: read_le(frame, at + 16, 8) as i64,
        quantity: read_le(frame, at + 24, 8) as i64,
        side: frame[at + 32],
        reserved: read_le(frame, at + 33, 4) as u32,
        reserved_low: read_le(frame, at + 37, 2) as u16,
        reserved_end: frame[at + 39],
    }
}

impl PacketParser {
    /// Create a new packet parser.
    pub fn new() -> (r: Self)
        ensures
            r.fresh(),
            r.balanced(),
    {
        PacketParser { packets_parsed: 0, ticks_extracted: 0, parse_errors: 0 }
    }

    /// Parse a raw Ethernet frame and extract a tick.
    pub fn parse(&mut self, data: &[u8]) -> (r: ParseResult)
        ensures
            r == parsed(data@),
            *final(self) == old(self).counted(data@),
            old(self).balanced() ==> final(self).balanced(),
    {
        self.packets_parsed = self.packets_parsed.wrapping_add(1);
        if data.len() < TOTAL_OVERHEAD + TICK_SIZE {
            self.parse_errors = self.parse_errors.wrapping_add(1);
            return ParseResult::TooSmall;
        }
        if !(data[12] == 0x08 && data[13] == 0x00) {
            self.parse_errors = self.parse_errors.wrapping_add(1);
            return ParseResult::Malformed;
        }
        if data[23] != 17 {
            self.parse_errors = self.parse_errors.wrapping_add(1);
            return ParseResult::Malformed;
        }
        let magic: u64 = read_le(data, TOTAL_OVERHEAD, 4);
        if magic != TICK_MAGIC as u64 {
            self.parse_errors = self.parse_errors.wrapping_add(1);
            return ParseResult::InvalidMagic;
        }
        let tick: NautilusTick = read_tick(data, TOTAL_OVERHEAD);
        self.ticks_extracted = self.ticks_extracted.wrapping_add(1);
        ParseResult::Tick(tick)
    }

    /// Parse multiple packets in batch.
    pub fn parse_batch(&mut self, packets: &[Vec<u8>], results: &mut Vec<ParseResult>)
        requires
            old(results).len() >= packets@.len(),
        ensures
            final(results).len() == old(results).len(),
            forall|i: int|
                0 <= i < packets@.len() ==> #[trigger] final(results)@[i] == parsed(packets@[i]@),
            forall|i: int|
                packets@.len() <= i < old(results).len() ==> #[trigger] final(results)@[i] == old(
                    results,
                )@[i],
            *final(self) == old(self).counted_all(packets@),
            old(self).balanced() ==> final(self).balanced(),
    {
        let mut i: usize = 0;
        proof {
            assert(packets@.subrange(0, 0) =~= Seq::<Vec<u8>>::empty());
        }
        while i < packets.len()
            invariant
                i <= packets@.len(),
                results.len() == old(results).len(),
                results.len() >= packets@.len(),
                forall|k: int| 0 <= k < i ==> #[trigger] results@[k] == parsed(packets@[k]@),
                forall|k: int|
                    i <= k < results.len() ==> #[trigger] results@[k] == old(results)@[k],
                *self == old(self).counted_all(packets@.subrange(0, i as int)),
                old(self).balanced() ==> self.balanced(),
            decreases packets@.len() - i,
        {
            proof {
                let next = packets@.subrange(0, i + 1);
                assert(next.drop_last() =~= packets@.subrange(0, i as int));
                assert(next.last() == packets@[i as int]);
            }
            let result: ParseResult = self.parse(packets[i].as_slice());
            results.set(i, result);
            i = i + 1;
        }
        proof {
            assert(packets@.subrange(0, i as int) =~= packets@);
        }
    }

    /// Get parser statistics.
    pub fn get_stats(&self) -> (r: ParserStats)
        ensures
            r.packets_parsed == self.packets_parsed,
            r.ticks_extracted == self.ticks_extracted,
            r.parse_errors == self.parse_errors,
    {
        ParserStats {
            packets_parsed: self.packets_parsed,
            ticks_extracted: self.ticks_extracted,
            parse_errors: self.parse_errors,
        }
    }

    /// Reset statistics counters.
    pub fn reset_stats(&mut self)
        ensures
            final(self).fresh(),
            final(self).balanced(),
    {
        self.packets_parsed = 0;
        self.ticks_extracted = 0;
        self.parse_errors = 0;
    }
}

impl Default for PacketParser {
    fn default() -> (r: Self)
        ensures
            r.fresh(),
            r.balanced(),
    {
        PacketParser::new()
    }
}

/// Whether a frame is long enough to hold the headers; the sum itself is left
/// to the network card.
pub fn validate_udp_checksum(data: &[u8]) -> (r: bool)
    ensures
        r == (data@.len() >= TOTAL_OVERHEAD),
{
    data.len() >= TOTAL_OVERHEAD
}

/// Convert exchange timestamp to local cycles.
pub fn exchange_ts_to_tsc(exchange_ts: u64) -> (r: u64)
    ensures
        r == exchange_ts,
{
    exchange_ts
}

/// A run of frames counts each of them once, as a tick or as an error, up to
/// the wrap of a counter, so counters that balance still do.
pub proof fn law_counters_over_a_run(p: PacketParser, frames: Seq<Vec<u8>>)
    ensures
        tick_count(frames) <= frames.len(),
        p.counted_all(frames).packets_parsed == (p.packets_parsed + frames.len())
            % 0x1_0000_0000_0000_0000,
        p.counted_all(frames).ticks_extracted == (p.ticks_extracted + tick_count(frames))
            % 0x1_0000_0000_0000_0000,
        p.counted_all(frames).parse_errors == (p.parse_errors + (frames.len() - tick_count(frames)))
            % 0x1_0000_0000_0000_0000,
        p.balanced() ==> p.counted_all(frames).balanced(),
    decreases frames.len(),
{
    if frames.len() > 0 {
        let rest = frames.drop_last();
        law_counters_over_a_run(p, rest);
        let c = p.counted_all(rest);
        lemma_counter_wraps(c.packets_parsed, p.packets_parsed + rest.len());
        lemma_counter_wraps(c.ticks_extracted, p.ticks_extracted + tick_count(rest));
        lemma_counter_wraps(
            c.parse_errors,
            p.parse_errors + (rest.len() - tick_count(rest)),
        );
    }
}

proof fn lemma_counter_wraps(counter: u64, sum: int)
    requires
        counter == sum % 0x1_0000_0000_0000_0000,
    ensures
        counter.wrapping_add(1) == (sum + 1) % 0x1_0000_0000_0000_0000,
{
}

/// From fresh counters on, the packets are the ticks and the errors together,
/// as long as no counter wraps.
pub proof fn law_packets_are_ticks_and_errors(p: PacketParser, frames: Seq<Vec<u8>>)
    requires
        p.fresh(),
        frames.len() <= u64::MAX,
    ensures
        p.counted_all(frames).packets_parsed == frames.len(),
        p.counted_all(frames).ticks_extracted == tick_count(frames),
        p.counted_all(frames).packets_parsed == p.counted_all(frames).ticks_extracted
            + p.counted_all(frames).parse_errors,
{
    law_counters_over_a_run(p, frames);
}

/// Every extracted tick carries the magic number.
pub proof fn law_tick_has_magic(frame: Seq<u8>)
    ensures
        parsed(frame) matches ParseResult::Tick(t) ==> t.magic == TICK_MAGIC,
{
}

/// A frame carries a tick exactly where it holds the headers and a tick, is
/// IPv4 and UDP, and its payload begins with the magic number; the first of
/// these that fails is reported.
pub proof fn law_ticks_in_udp_frames(frame: Seq<u8>)
    ensures
        parsed(frame) is TooSmall <==> frame.len() < 82,
        parsed(frame) is Malformed <==> frame.len() >= 82 && !(frame[12] == 8 && frame[13] == 0
            && frame[23] == 17),
        parsed(frame) is InvalidMagic <==> frame.len() >= 82 && frame[12] == 8 && frame[13] == 0
            && frame[23] == 17 && bytes::le_at(frame, 42, 4) != 0x4E41_5554,
        parsed(frame) is Tick <==> frame.len() >= 82 && frame[12] == 8 && frame[13] == 0
            && frame[23] == 17 && bytes::le_at(frame, 42, 4) == 0x4E41_5554,
{
}

/// The fields of a tick stand in its payload in this order: the magic number,
/// the time, the symbol, the price, the quantity and the side.
pub proof fn law_tick_layout(frame: Seq<u8>)
    ensures
        parsed(frame) matches ParseResult::Tick(t) ==> {
            &&& t.exchange_ts == bytes::le_at(frame, 46, 8)
            &&& t.symbol_id == bytes::le_at(frame, 54, 4)
            &&& t.price == (bytes::le_at(frame, 58, 8) as u64) as i64
            &&& t.quantity == (bytes::le_at(frame, 66, 8) as u64) as i64
            &&& t.side == frame[74]
        },
{
    if frame.len() >= 82 {
        bytes::lemma_le_limits();
        bytes::lemma_le_value_bound(frame.subrange(46, 54));
        bytes::lemma_le_value_bound(frame.subrange(54, 58));
    }
}

} // verus!
