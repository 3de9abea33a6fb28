//! Trace events in a bounded ring, numbered in the order in which they were
//! offered.
use crate::math;
use crate::math::{check_power_of_two, Ratio};
use crate::ring::IndexRing;
use vstd::prelude::*;

verus! {

/// Maximum number of events in the ring buffer
pub const MAX_EVENTS: usize = 1_048_576;

/// Provider id of the trading system
pub const NAUTILUS_PROVIDER_GUID: u128 = 0x12345678_90abcdef_12345678_90abcdef;

/// Event types for tracing
#[derive(Debug, Clone, Copy, PartialEq, Eq, Structural)]
pub enum EventType {
    CasFailure,
    CacheLineBounce,
    LockContention,
    MemoryAllocation,
    NetworkLatency,
    OrderSubmission,
    OrderFill,
    MarketDataUpdate,
    HjbSolveStart,
    HjbSolveEnd,
    Custom,
}

impl EventType {
    /// The number of the type in a trace.
    pub fn code(self) -> (r: u8)
        ensures
            r == (match self {
                EventType::CasFailure => 1u8,
                EventType::CacheLineBounce => 2,
                EventType::LockContention => 3,
                EventType::MemoryAllocation => 4,
                EventType::NetworkLatency => 5,
                EventType::OrderSubmission => 6,
                EventType::OrderFill => 7,
                EventType::MarketDataUpdate => 8,
                EventType::HjbSolveStart => 9,
                EventType::HjbSolveEnd => 10,
                EventType::Custom => 255,
            }),
    {
        match self {
            EventType::CasFailure => 1,
            EventType::CacheLineBounce => 2,
            EventType::LockContention => 3,
            EventType::MemoryAllocation => 4,
            EventType::NetworkLatency => 5,
            EventType::OrderSubmission => 6,
            EventType::OrderFill => 7,
            EventType::MarketDataUpdate => 8,
            EventType::HjbSolveStart => 9,
            EventType::HjbSolveEnd => 10,
            EventType::Custom => 255,
        }
    }
}

/// Event severity levels
#[derive(Debug, Clone, Copy, PartialEq, Eq, Structural)]
pub enum EventLevel {
    Verbose,
    Informational,
    Warning,
    Error,
    Critical,
}

impl EventLevel {
    /// The number of the level in a trace.
    pub fn code(self) -> (r: u8)
        ensures
            r == (match self {
                EventLevel::Verbose => 1u8,
                EventLevel::Informational => 2,
                EventLevel::Warning => 3,
                EventLevel::Error => 4,
                EventLevel::Critical => 5,
            }),
    {
        match self {
            EventLevel::Verbose => 1,
            EventLevel::Informational => 2,
            EventLevel::Warning => 3,
            EventLevel::Error => 4,
            EventLevel::Critical => 5,
        }
    }
}

/// Trace event structure
#[derive(Debug, Clone, Copy, PartialEq, Eq, Structural)]
pub struct EtwEvent {
    /// Timestamp in nanoseconds
    pub timestamp_ns: u64,
    /// Event type identifier
    pub event_type: EventType,
    /// Severity level
    pub level: EventLevel,
    /// Thread ID that generated the event
    pub thread_id: u32,
    /// CPU core number
    pub cpu_core: u16,
    /// Event flags
    pub flags: u16,
    /// Event-specific data payload (first part)
    pub payload_a: u64,
    /// Event-specific data payload (second part)
    pub payload_b: u64,
    /// Sequence number for ordering verification
    pub sequence: u64,
}

pub open spec fn blank_event() -> EtwEvent {
    EtwEvent {
        timestamp_ns: 0,
        event_type: EventType::Custom,
        level: EventLevel::Informational,
        thread_id: 0,
        cpu_core: 0,
        flags: 0,
        payload_a: 0,
        payload_b: 0,
        sequence: 0,
    }
}

impl Default for EtwEvent {
    fn default() -> (r: Self)
        ensures
            r == blank_event(),
    {
        EtwEvent {
            timestamp_ns: 0,
            event_type: EventType::Custom,
            level: EventLevel::Informational,
            thread_id: 0,
            cpu_core: 0,
            flags: 0,
            payload_a: 0,
            payload_b: 0,
            sequence: 0,
        }
    }
}

#[derive(Debug, Clone, Copy, PartialEq, Eq, Structural)]
pub struct RingBufferStats {
    pub total_written: usize,
    pub dropped: usize,
    pub currently_used: usize,
    pub capacity: usize,
    pub utilization: Ratio,
}

/// Ring buffer for trace events
pub struct EtwRingBuffer {
    /// Events waiting, oldest first
    pub ring: IndexRing<EtwEvent>,
    /// Total events written (for overflow tracking)
    pub total_written: usize,
    /// Dropped events count (when buffer is full)
    pub dropped_count: usize,
    /// Current write sequence number
    pub sequence: u64,
}

impl View for EtwRingBuffer {
    type V = Seq<EtwEvent>;

    /// The events waiting, oldest first.
    open spec fn view(&self) -> Seq<EtwEvent> {
        self.ring@
    }
}

/// What a request for a ring buffer of some capacity is answered.
pub open spec fn capacity_error(capacity: usize) -> Option<Seq<char>> {
    if !math::is_power_of_two(capacity as int) {
        Some("Capacity must be a power of 2"@)
    } else if capacity > MAX_EVENTS {
        Some("Capacity exceeds maximum 1048576"@)
    } else {
        None
    }
}

impl EtwRingBuffer {
    pub open spec fn wf(&self) -> bool {
        self.ring.wf() && self.ring.size <= MAX_EVENTS
    }

    /// Whether one more event finds a slot; one slot always stays free.
    pub open spec fn has_room(&self) -> bool {
        self@.len() < self.ring.size - 1
    }

    /// Create a new ring buffer with specified capacity
    pub fn new(capacity: usize) -> (r: Result<Self, String>)
        ensures
            match r {
                Ok(b) => capacity_error(capacity) is None && b.wf() && b.ring.size == capacity
                    && b@ == Seq::<EtwEvent>::empty() && b.total_written == 0 && b.dropped_count
                    == 0 && b.sequence == 0,
                Err(e) => capacity_error(capacity) == Some(e@),
            },
    {
        if !check_power_of_two(capacity) {
            return Err("Capacity must be a power of 2".to_owned());
        }
        if capacity > MAX_EVENTS {
            return Err("Capacity exceeds maximum 1048576".to_owned());
        }
        Ok(
            EtwRingBuffer {
                ring: IndexRing::new(capacity),
                total_written: 0,
                dropped_count: 0,
                sequence: 0,
            },
        )
    }

    /// Try to write an event to the buffer (non-blocking)
    /// Returns true if successful, false if buffer is full
    pub fn try_write(&mut self, event: EtwEvent) -> (written: bool)
        requires
            old(self).wf(),
        ensures
            final(self).wf(),
            final(self).ring.size == old(self).ring.size,
            written == old(self).has_room(),
            final(self).sequence == old(self).sequence.wrapping_add(1),
            final(self)@ == (if written {
                old(self)@.push(EtwEvent { sequence: old(self).sequence, ..event })
            } else {
                old(self)@
            }),
            final(self).total_written == (if written {
                old(self).total_written.wrapping_add(1)
            } else {
                old(self).total_written
            }),
            final(self).dropped_count == (if written {
                old(self).dropped_count
            } else {
                old(self).dropped_count.wrapping_add(1)
            }),
    {
        let mut numbered: EtwEvent = event;
        numbered.sequence = self.sequence;
        self.sequence = self.sequence.wrapping_add(1);
        if !self.ring.push(numbered) {
            self.dropped_count = self.dropped_count.wrapping_add(1);
            return false;
        }
        self.total_written = self.total_written.wrapping_add(1);
        true
    }

    /// Write an event where there is space for it
    pub fn write(&mut self, event: EtwEvent)
        requires
            old(self).wf(),
            old(self).has_room(),
        ensures
            final(self).wf(),
            final(self).ring.size == old(self).ring.size,
            final(self).sequence == old(self).sequence.wrapping_add(1),
            final(self)@ == old(self)@.push(EtwEvent { sequence: old(self).sequence, ..event }),
            final(self).total_written == old(self).total_written.wrapping_add(1),
            final(self).dropped_count == old(self).dropped_count,
    {
        let _ = self.try_write(event);
    }

    /// Try to read an event from the buffer (non-blocking)
    pub fn try_read(&mut self) -> (r: Option<EtwEvent>)
        requires
            old(self).wf(),
        ensures
            final(self).wf(),
            final(self).ring.size == old(self).ring.size,
            match r {
                Some(e) => old(self)@.len() > 0 && e == old(self)@[0] && final(self)@ == old(self)@.subrange(1, old(self)@.len() as int),
                None => old(self)@.len() == 0 && final(self)@ == old(self)@,
            },
            final(self).sequence == old(self).sequence,
            final(self).total_written == old(self).total_written,
            final(self).dropped_count == old(self).dropped_count,
    {
        self.ring.pop()
    }

    /// Get statistics about the buffer
    pub fn stats(&self) -> (r: RingBufferStats)
        requires
            self.wf(),
        ensures
            r == (RingBufferStats {
                total_written: self.total_written,
                dropped: self.dropped_count,
                currently_used: self@.len() as usize,
                capacity: self.ring.size,
                utilization: Ratio { num: self@.len() as u64, den: self.ring.size as u64 },
            }),
    {
        let used: usize = self.ring.len();
        RingBufferStats {
            total_written: self.total_written,
            dropped: self.dropped_count,
            currently_used: used,
            capacity: self.ring.size,
            utilization: Ratio { num: used as u64, den: self.ring.size as u64 },
        }
    }
}

#[derive(Debug, Clone, Copy, PartialEq, Eq, Structural)]
pub struct FlushResult {
    pub flushed: usize,
    pub failed: usize,
}

/// Where an event comes from.
#[derive(Debug, Clone, Copy, PartialEq, Eq, Structural)]
pub struct EventOrigin {
    pub timestamp_ns: u64,
    pub thread_id: u32,
    pub cpu_core: u16,
}

/// Trace emitter
pub struct EtwEmitter {
    pub buffer: EtwRingBuffer,
    pub provider_id: u128,
    pub enabled: bool,
}

impl EtwEmitter {
    pub open spec fn wf(&self) -> bool {
        self.buffer.wf()
    }

    /// What becomes of an emitter when an event is recorded.
    pub open spec fn recorded(&self, after: &EtwEmitter, event: EtwEvent) -> bool {
        &&& after.wf()
        &&& after.enabled == self.enabled
        &&& after.provider_id == self.provider_id
        &&& if !self.enabled {
            after.buffer == self.buffer
        } else {
            &&& after.buffer.ring.size == self.buffer.ring.size
            &&& after.buffer.sequence == self.buffer.sequence.wrapping_add(1)
            &&& after.buffer@ == (if self.buffer.has_room() {
                self.buffer@.push(EtwEvent { sequence: self.buffer.sequence, ..event })
            } else {
                self.buffer@
            })
            &&& after.buffer.dropped_count == (if self.buffer.has_room() {
                self.buffer.dropped_count
            } else {
                self.buffer.dropped_count.wrapping_add(1)
            })
            &&& after.buffer.total_written == (if self.buffer.has_room() {
                self.buffer.total_written.wrapping_add(1)
            } else {
                self.buffer.total_written
            })
        }
    }

    /// Create a new emitter
    pub fn new(buffer_capacity: usize) -> (r: Result<Self, String>)
        ensures
            match r {
                Ok(e) => capacity_error(buffer_capacity) is None && e.wf() && e.buffer.ring.size
                    == buffer_capacity && e.buffer@ == Seq::<EtwEvent>::empty() && e.enabled
                    && e.provider_id == NAUTILUS_PROVIDER_GUID && e.buffer.sequence == 0
                    && e.buffer.total_written == 0 && e.buffer.dropped_count == 0,
                Err(e) => capacity_error(buffer_capacity) == Some(e@),
            },
    {
        match EtwRingBuffer::new(buffer_capacity) {
            Ok(buffer) => Ok(
                EtwEmitter { buffer, provider_id: NAUTILUS_PROVIDER_GUID, enabled: true },
            ),
            Err(e) => Err(e),
        }
    }

    /// Enable or disable tracing
    pub fn set_enabled(&mut self, enabled: bool)
        ensures
            *final(self) == (EtwEmitter { enabled, ..*old(self) }),
    {
        self.enabled = enabled;
    }

    /// Check if tracing is enabled
    pub fn is_enabled(&self) -> (r: bool)
        ensures
            r == self.enabled,
    {
        self.enabled
    }

    fn record(&mut self, event: EtwEvent)
        requires
            old(self).wf(),
        ensures
            old(self).recorded(final(self), event),
    {
        if !self.enabled {
            return;
        }
        let _ = self.buffer.try_write(event);
    }

    /// Record a CAS failure event
    pub fn record_cas_failure(
        &mut self,
        origin: EventOrigin,
        address: u64,
        expected: u64,
        actual: u64,
        attempt_count: u32,
    )
        requires
            old(self).wf(),
        ensures
            old(self).recorded(
                final(self),
                EtwEvent {
                    timestamp_ns: origin.timestamp_ns,
                    event_type: EventType::CasFailure,
                    level: EventLevel::Warning,
                    thread_id: origin.thread_id,
                    cpu_core: origin.cpu_core,
                    flags: (attempt_count % 0x1_0000) as u16,
                    payload_a: address,
                    payload_b: expected,
                    sequence: 0,
                },
            ),
    {
        self.record(
            EtwEvent {
                timestamp_ns: origin.timestamp_ns,
                event_type: EventType::CasFailure,
                level: EventLevel::Warning,
                thread_id: origin.thread_id,
                cpu_core: origin.cpu_core,
                flags: (attempt_count % 0x1_0000) as u16,
                payload_a: address,
                payload_b: expected,
                sequence: 0,
            },
        );
    }

    /// Record a cache line bounce event
    pub fn record_cache_line_bounce(
        &mut self,
        origin: EventOrigin,
        cache_line_addr: u64,
        owning_core: u16,
        requesting_core: u16,
        latency_ns: u64,
    )
        requires
            old(self).wf(),
        ensures
            old(self).recorded(
                final(self),
                EtwEvent {
                    timestamp_ns: origin.timestamp_ns,
                    event_type: EventType::CacheLineBounce,
                    level: EventLevel::Verbose,
                    thread_id: origin.thread_id,
                    cpu_core: owning_core,
                    flags: requesting_core,
                    payload_a: cache_line_addr,
                    payload_b: latency_ns,
                    sequence: 0,
                },
            ),
    {
        self.record(
            EtwEvent {
                timestamp_ns: origin.timestamp_ns,
                event_type: EventType::CacheLineBounce,
                level: EventLevel::Verbose,
                thread_id: origin.thread_id,
                cpu_core: owning_core,
                flags: requesting_core,
                payload_a: cache_line_addr,
                payload_b: latency_ns,
                sequence: 0,
            },
        );
    }

    /// Record HJB solver timing
    pub fn record_hjb_solve_start(&mut self, origin: EventOrigin, iteration: u64, grid_size: u32)
        requires
            old(self).wf(),
        ensures
            old(self).recorded(
                final(self),
                EtwEvent {
                    timestamp_ns: origin.timestamp_ns,
                    event_type: EventType::HjbSolveStart,
                    level: EventLevel::Verbose,
                    thread_id: origin.thread_id,
                    cpu_core: origin.cpu_core,
                    flags: 0,
                    payload_a: iteration,
                    payload_b: grid_size as u64,
                    sequence: 0,
                },
            ),
    {
        self.record(
            EtwEvent {
                timestamp_ns: origin.timestamp_ns,
                event_type: EventType::HjbSolveStart,
                level: EventLevel::Verbose,
                thread_id: origin.thread_id,
                cpu_core: origin.cpu_core,
                flags: 0,
                payload_a: iteration,
                payload_b: grid_size as u64,
                sequence: 0,
            },
        );
    }

    pub fn record_hjb_solve_end(
        &mut self,
        origin: EventOrigin,
        iteration: u64,
        duration_ns: u64,
        converged: bool,
    )
        requires
            old(self).wf(),
        ensures
            old(self).recorded(
                final(self),
                EtwEvent {
                    timestamp_ns: origin.timestamp_ns,
                    event_type: EventType::HjbSolveEnd,
                    level: EventLevel::Verbose,
                    thread_id: origin.thread_id,
                    cpu_core: origin.cpu_core,
                    flags: if converged {
                        1
                    } else {
                        0
                    },
                    payload_a: iteration,
                    payload_b: duration_ns,
                    sequence: 0,
                },
            ),
    {
        self.record(
            EtwEvent {
                timestamp_ns: origin.timestamp_ns,
                event_type: EventType::HjbSolveEnd,
                level: EventLevel::Verbose,
                thread_id: origin.thread_id,
                cpu_core: origin.cpu_core,
                flags: if converged {
                    1
                } else {
                    0
                },
                payload_a: iteration,
                payload_b: duration_ns,
                sequence: 0,
            },
        );
    }

    /// Record a custom event with arbitrary payloads
    pub fn record_custom(
        &mut self,
        origin: EventOrigin,
        level: EventLevel,
        payload_a: u64,
        payload_b: u64,
        flags: u16,
    )
        requires
            old(self).wf(),
        ensures
            old(self).recorded(
                final(self),
                EtwEvent {
                    timestamp_ns: origin.timestamp_ns,
                    event_type: EventType::Custom,
                    level,
                    thread_id: origin.thread_id,
                    cpu_core: origin.cpu_core,
                    flags,
                    payload_a,
                    payload_b,
                    sequence: 0,
                },
            ),
    {
        self.record(
            EtwEvent {
                timestamp_ns: origin.timestamp_ns,
                event_type: EventType::Custom,
                level,
                thread_id: origin.thread_id,
                cpu_core: origin.cpu_core,
                flags,
                payload_a,
                payload_b,
                sequence: 0,
            },
        );
    }

    /// Flush events to the logger (called periodically): every waiting event
    /// is handed over.
    pub fn flush_to_logger(&mut self) -> (r: FlushResult)
        requires
            old(self).wf(),
        ensures
            final(self).wf(),
            r == (FlushResult { flushed: old(self).buffer@.len() as usize, failed: 0 }),
            final(self).buffer@ == Seq::<EtwEvent>::empty(),
            final(self).buffer.ring.size == old(self).buffer.ring.size,
            final(self).buffer.total_written == old(self).buffer.total_written,
            final(self).buffer.dropped_count == old(self).buffer.dropped_count,
            final(self).buffer.sequence == old(self).buffer.sequence,
            final(self).enabled == old(self).enabled,
            final(self).provider_id == old(self).provider_id,
    {
        let mut flushed: usize = 0;
        let mut failed: usize = 0;
        let mut more: bool = true;
        while more
            invariant
                self.wf(),
                failed == 0,
                flushed + self.buffer@.len() == old(self).buffer@.len(),
                old(self).buffer@.len() <= MAX_EVENTS,
                !more ==> self.buffer@.len() == 0,
                self.buffer.ring.size == old(self).buffer.ring.size,
                self.buffer.total_written == old(self).buffer.total_written,
                self.buffer.dropped_count == old(self).buffer.dropped_count,
                self.buffer.sequence == old(self).buffer.sequence,
                self.enabled == old(self).enabled,
                self.provider_id == old(self).provider_id,
            decreases
                    self.buffer@.len(),
                    if more {
                        1int
                    } else {
                        0
                    },
        {
            match self.buffer.try_read() {
                Some(event) => {
                    if self.emit_event_to_os(&event) {
                        flushed = flushed + 1;
                    } else {
                        failed = failed + 1;
                        more = false;
                    }
                },
                None => {
                    more = false;
                },
            }
        }
        assert(self.buffer@ =~= Seq::<EtwEvent>::empty());
        FlushResult { flushed, failed }
    }

    /// Hands an event over; the logger takes every one.
    fn emit_event_to_os(&self, _event: &EtwEvent) -> (r: bool)
        ensures
            r,
    {
        true
    }

    /// Get buffer statistics
    pub fn stats(&self) -> (r: RingBufferStats)
        requires
            self.wf(),
        ensures
            r == (RingBufferStats {
                total_written: self.buffer.total_written,
                dropped: self.buffer.dropped_count,
                currently_used: self.buffer@.len() as usize,
                capacity: self.buffer.ring.size,
                utilization: Ratio {
                    num: self.buffer@.len() as u64,
                    den: self.buffer.ring.size as u64,
                },
            }),
    {
        self.buffer.stats()
    }
}

/// A capacity is refused exactly where it is no power of two or more than a
/// mebi events.
pub proof fn law_refused_capacities(capacity: usize)
    ensures
        capacity_error(capacity) is None <==> math::is_power_of_two(capacity as int) && capacity
            <= 1024 * 1024,
        !math::is_power_of_two(capacity as int) ==> capacity_error(capacity) == Some(
            "Capacity must be a power of 2"@,
        ),
{
}

/// A buffer has room until all its places but one are taken.
pub proof fn law_room_for_one_less(b: EtwRingBuffer)
    ensures
        b.has_room() <==> b@.len() + 1 < b.ring.size,
{
}

/// An emitter that is switched on numbers every event and puts it behind those
/// that wait, or counts it as dropped where there is no room; one that is
/// switched off does nothing.
pub proof fn law_emitter_records(before: EtwEmitter, after: EtwEmitter, event: EtwEvent)
    requires
        before.recorded(&after, event),
        before.buffer.sequence < u64::MAX,
        before.buffer.dropped_count < usize::MAX,
        before.buffer.total_written < usize::MAX,
    ensures
        !before.enabled ==> after.buffer == before.buffer,
        before.enabled ==> after.buffer.sequence == before.buffer.sequence + 1,
        before.enabled && before.buffer.has_room() ==> {
            &&& after.buffer@.drop_last() == before.buffer@
            &&& after.buffer@.last().sequence == before.buffer.sequence
            &&& after.buffer@.last().timestamp_ns == event.timestamp_ns
            &&& after.buffer@.last().event_type == event.event_type
            &&& after.buffer@.last().payload_a == event.payload_a
            &&& after.buffer@.last().payload_b == event.payload_b
            &&& after.buffer.total_written == before.buffer.total_written + 1
            &&& after.buffer.dropped_count == before.buffer.dropped_count
        },
        before.enabled && !before.buffer.has_room() ==> {
            &&& after.buffer@ == before.buffer@
            &&& after.buffer.dropped_count == before.buffer.dropped_count + 1
            &&& after.buffer.total_written == before.buffer.total_written
        },
        after.enabled == before.enabled,
{
    if before.enabled && before.buffer.has_room() {
        assert(after.buffer@.drop_last() =~= before.buffer@);
    }
}

} // verus!
