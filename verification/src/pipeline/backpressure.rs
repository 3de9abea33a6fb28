//! A telemetry buffer that sheds the least important events first when it
//! fills up.
use crate::math;
use crate::ring::IndexRing;
use crate::text;
use crate::text::append_u64;
use vstd::prelude::*;
use vstd::string::*;

verus! {

/// Maximum telemetry events in buffer
pub const MAX_TELEMETRY_BUFFER: usize = 4_194_304;

/// Bytes of payload that an event holds
pub const PAYLOAD_BYTES: usize = 48;

/// Priority levels for telemetry events
#[derive(Debug, Clone, Copy, PartialEq, Eq, Structural)]
pub enum TelemetryPriority {
    /// Never shed - execution fills, cancels
    Critical,
    /// Rarely shed - order book updates
    High,
    /// Sometimes shed - signals, features
    Medium,
    /// First to be shed - debug info, metrics
    Low,
}

impl TelemetryPriority {
    /// The place of the priority, the most important first.
    pub open spec fn rank(self) -> int {
        match self {
            TelemetryPriority::Critical => 0,
            TelemetryPriority::High => 1,
            TelemetryPriority::Medium => 2,
            TelemetryPriority::Low => 3,
        }
    }

    pub fn index(self) -> (r: usize)
        ensures
            r == self.rank(),
            r < 4,
    {
        match self {
            TelemetryPriority::Critical => 0,
            TelemetryPriority::High => 1,
            TelemetryPriority::Medium => 2,
            TelemetryPriority::Low => 3,
        }
    }
}

/// Telemetry event structure
#[derive(Debug, Clone, Copy)]
pub struct TelemetryEvent {
    /// Timestamp (nanoseconds)
    pub timestamp_ns: u64,
    /// Event type hash
    pub event_type: u64,
    /// Symbol hash
    pub symbol_hash: u64,
    /// Priority level
    pub priority: TelemetryPriority,
    /// Data payload
    pub payload: [u8; 48],
    /// Payload length
    pub payload_len: u16,
    /// Is occupied
    pub is_occupied: bool,
}

impl Default for TelemetryEvent {
    fn default() -> (r: Self)
        ensures
            r.timestamp_ns == 0,
            r.event_type == 0,
            r.symbol_hash == 0,
            r.priority == TelemetryPriority::Low,
            forall|i: int| 0 <= i < PAYLOAD_BYTES ==> #[trigger] r.payload@[i] == 0,
            r.payload_len == 0,
            !r.is_occupied,
    {
        TelemetryEvent {
            timestamp_ns: 0,
            event_type: 0,
            symbol_hash: 0,
            priority: TelemetryPriority::Low,
            payload: [0u8; 48],
            payload_len: 0,
            is_occupied: false,
        }
    }
}

/// Backpressure statistics
#[derive(Debug, Clone, Copy)]
pub struct BackpressureStats {
    pub total_received: u64,
    pub total_dropped: u64,
    pub dropped_by_priority: [u64; 4],
    pub last_drop_timestamp_ns: u64,
    pub max_latency_ns: u64,
    pub current_latency_ns: u64,
}

impl BackpressureStats {
    pub open spec fn blank(&self) -> bool {
        &&& self.total_received == 0
        &&& self.total_dropped == 0
        &&& forall|i: int| 0 <= i < 4 ==> #[trigger] self.dropped_by_priority@[i] == 0
        &&& self.last_drop_timestamp_ns == 0
        &&& self.max_latency_ns == 0
        &&& self.current_latency_ns == 0
    }
}

impl Default for BackpressureStats {
    fn default() -> (r: Self)
        ensures
            r.blank(),
    {
        BackpressureStats {
            total_received: 0,
            total_dropped: 0,
            dropped_by_priority: [0u64; 4],
            last_drop_timestamp_ns: 0,
            max_latency_ns: 0,
            current_latency_ns: 0,
        }
    }
}

/// The log line for an event that was shed.
pub open spec fn drop_text(event: TelemetryEvent) -> Seq<char> {
    "[BACKPRESSURE_DROP] ts="@ + text::decimal(event.timestamp_ns as nat) + " priority="@
        + text::decimal(event.priority.rank() as nat) + " type="@ + text::decimal(
        event.event_type as nat,
    ) + " symbol="@ + text::decimal(event.symbol_hash as nat)
}

fn drop_line(event: &TelemetryEvent) -> (r: String)
    ensures
        r@ == drop_text(*event),
{
    let mut line: String = "[BACKPRESSURE_DROP] ts=".to_owned();
    append_u64(&mut line, event.timestamp_ns);
    line.append(" priority=");
    append_u64(&mut line, event.priority.index() as u64);
    line.append(" type=");
    append_u64(&mut line, event.event_type);
    line.append(" symbol=");
    append_u64(&mut line, event.symbol_hash);
    line
}

/// Backpressure-aware telemetry buffer
pub struct BackpressureBuffer {
    /// Ring buffer for events
    pub buffer: IndexRing<TelemetryEvent>,
    /// Backpressure thresholds (percentage of buffer full)
    pub warning_threshold_pct: u8,
    pub drop_low_threshold_pct: u8,
    pub drop_medium_threshold_pct: u8,
    pub drop_high_threshold_pct: u8,
    /// Statistics
    pub stats: BackpressureStats,
    /// Is backpressure active
    pub backpressure_active: bool,
    /// Whether the event offered last was shed
    pub shedding: bool,
    /// Lines for the log, once there is one
    pub log_lines: Option<Vec<String>>,
}

impl View for BackpressureBuffer {
    type V = Seq<TelemetryEvent>;

    /// The events waiting, oldest first.
    open spec fn view(&self) -> Seq<TelemetryEvent> {
        self.buffer@
    }
}

/// The percentage of the buffer that a number of events fills.
pub open spec fn percent_full(n: nat) -> int {
    (n as int * 100) / (MAX_TELEMETRY_BUFFER as int)
}

/// The most important of the events, in their order.
pub open spec fn critical_only(s: Seq<TelemetryEvent>) -> Seq<TelemetryEvent>
    decreases s.len(),
{
    if s.len() == 0 {
        s
    } else {
        let rest = critical_only(s.drop_last());
        if s.last().priority == TelemetryPriority::Critical {
            rest.push(s.last())
        } else {
            rest
        }
    }
}

/// The log lines for the other events, in their order.
pub open spec fn drained_text(s: Seq<TelemetryEvent>) -> Seq<Seq<char>>
    decreases s.len(),
{
    if s.len() == 0 {
        Seq::empty()
    } else {
        let rest = drained_text(s.drop_last());
        if s.last().priority == TelemetryPriority::Critical {
            rest
        } else {
            rest.push(drop_text(s.last()))
        }
    }
}

/// What a log holds as text.
pub open spec fn log_text(lines: Option<Vec<String>>) -> Option<Seq<Seq<char>>> {
    match lines {
        Some(v) => Some(Seq::new(v@.len(), |i: int| v@[i]@)),
        None => None,
    }
}

/// A log with more lines at its end, where there is a log.
pub open spec fn logged(log: Option<Seq<Seq<char>>>, more: Seq<Seq<char>>) -> Option<
    Seq<Seq<char>>,
> {
    match log {
        Some(v) => Some(v + more),
        None => None,
    }
}

impl BackpressureBuffer {
    pub open spec fn wf(&self) -> bool {
        self.buffer.wf() && self.buffer.size == MAX_TELEMETRY_BUFFER
    }

    /// Whether an event of a priority is shed. While events are being shed,
    /// those of medium priority go at the threshold of the low ones.
    pub open spec fn sheds(&self, priority: TelemetryPriority) -> bool {
        let full = percent_full(self@.len());
        match priority {
            TelemetryPriority::Critical => false,
            TelemetryPriority::Low => full >= self.drop_low_threshold_pct,
            TelemetryPriority::Medium => full >= self.drop_medium_threshold_pct || (self.shedding
                && full >= self.drop_low_threshold_pct),
            TelemetryPriority::High => full >= self.drop_high_threshold_pct,
        }
    }

    /// The settings are kept.
    pub open spec fn same_settings(&self, other: &BackpressureBuffer) -> bool {
        &&& self.warning_threshold_pct == other.warning_threshold_pct
        &&& self.drop_low_threshold_pct == other.drop_low_threshold_pct
        &&& self.drop_medium_threshold_pct == other.drop_medium_threshold_pct
        &&& self.drop_high_threshold_pct == other.drop_high_threshold_pct
    }

    /// The counters have room for more events.
    pub open spec fn counters_open(&self) -> bool {
        &&& self.stats.total_received < u64::MAX
        &&& self.stats.total_dropped < u64::MAX - MAX_TELEMETRY_BUFFER
        &&& forall|i: int| 0 <= i < 4 ==> #[trigger] self.stats.dropped_by_priority@[i] < u64::MAX
    }

    /// Create new backpressure buffer
    pub fn new(warning_pct: u8, drop_low_pct: u8, drop_med_pct: u8, drop_high_pct: u8) -> (r: Self)
        ensures
            r.wf(),
            r@ == Seq::<TelemetryEvent>::empty(),
            r.warning_threshold_pct == warning_pct,
            r.drop_low_threshold_pct == drop_low_pct,
            r.drop_medium_threshold_pct == drop_med_pct,
            r.drop_high_threshold_pct == drop_high_pct,
            r.stats.blank(),
            !r.backpressure_active,
            !r.shedding,
            r.log_lines is None,
    {
        BackpressureBuffer {
            buffer: IndexRing::new(MAX_TELEMETRY_BUFFER),
            warning_threshold_pct: warning_pct,
            drop_low_threshold_pct: drop_low_pct,
            drop_medium_threshold_pct: drop_med_pct,
            drop_high_threshold_pct: drop_high_pct,
            stats: BackpressureStats::default(),
            backpressure_active: false,
            shedding: false,
            log_lines: None,
        }
    }

    /// Starts keeping lines for the log.
    pub fn open_log(&mut self)
        ensures
            log_text(final(self).log_lines) == Some(Seq::<Seq<char>>::empty()),
            *final(self) == (BackpressureBuffer {
                log_lines: final(self).log_lines,
                ..*old(self)
            }),
    {
        self.log_lines = Some(Vec::new());
        assert(log_text(self.log_lines)->0 =~= Seq::<Seq<char>>::empty());
    }

    /// Hands out the lines kept for the log.
    pub fn take_log_lines(&mut self) -> (r: Vec<String>)
        ensures
            match log_text(old(self).log_lines) {
                Some(lines) => Seq::new(r@.len(), |i: int| r@[i]@) == lines && log_text(
                    final(self).log_lines,
                ) == Some(Seq::<Seq<char>>::empty()),
                None => r@.len() == 0 && final(self).log_lines is None,
            },
            *final(self) == (BackpressureBuffer {
                log_lines: final(self).log_lines,
                ..*old(self)
            }),
    {
        let mut lines: Option<Vec<String>> = None;
        std::mem::swap(&mut lines, &mut self.log_lines);
        match lines {
            Some(v) => {
                self.log_lines = Some(Vec::new());
                assert(log_text(self.log_lines)->0 =~= Seq::<Seq<char>>::empty());
                v
            },
            None => Vec::new(),
        }
    }

    /// Logs a shed event
    fn log_dropped_event(&mut self, event: &TelemetryEvent)
        ensures
            log_text(final(self).log_lines) == logged(
                log_text(old(self).log_lines),
                seq![drop_text(*event)],
            ),
            *final(self) == (BackpressureBuffer {
                log_lines: final(self).log_lines,
                ..*old(self)
            }),
    {
        let mut lines: Option<Vec<String>> = None;
        std::mem::swap(&mut lines, &mut self.log_lines);
        match lines {
            Some(v) => {
                let mut more: Vec<String> = v;
                more.push(drop_line(event));
                self.log_lines = Some(more);
                assert(log_text(self.log_lines)->0 =~= log_text(old(self).log_lines)->0 + seq![
                    drop_text(*event),
                ]);
            },
            None => {},
        }
    }

    /// Push telemetry event with backpressure handling
    pub fn push(&mut self, event: TelemetryEvent, now_ns: u64) -> (r: Result<bool, &'static str>)
        requires
            old(self).wf(),
            old(self).counters_open(),
        ensures
            final(self).wf(),
            final(self).same_settings(old(self)),
            ({
                let shed = old(self).sheds(event.priority);
                let full = old(self)@.len() == MAX_TELEMETRY_BUFFER - 1;
                let latency = math::max_int(now_ns - event.timestamp_ns, 0);
                let rank = event.priority.rank();
                &&& match r {
                    Ok(stored) => stored == !shed && (shed || !full),
                    Err(e) => !shed && full && e@ == "BUFFER_FULL"@,
                }
                &&& final(self)@ == (if shed || full {
                    old(self)@
                } else {
                    old(self)@.push(TelemetryEvent { is_occupied: true, ..event })
                })
                &&& final(self).stats.total_received == old(self).stats.total_received + 1
                &&& final(self).stats.current_latency_ns == latency
                &&& final(self).stats.max_latency_ns == math::max_int(
                    old(self).stats.max_latency_ns as int,
                    latency,
                )
                &&& final(self).stats.total_dropped == old(self).stats.total_dropped + (if shed
                    || full {
                    1int
                } else {
                    0
                })
                &&& final(self).stats.last_drop_timestamp_ns == (if shed || full {
                    now_ns
                } else {
                    old(self).stats.last_drop_timestamp_ns
                })
                &&& forall|i: int|
                    0 <= i < 4 ==> #[trigger] final(self).stats.dropped_by_priority@[i] == old(self).stats.dropped_by_priority@[i] + (if i == rank && (shed || full) {
                        1int
                    } else {
                        0
                    })
                &&& final(self).backpressure_active == (if shed {
                    true
                } else if full {
                    old(self).backpressure_active
                } else {
                    percent_full(old(self)@.len() + 1) >= old(self).warning_threshold_pct
                })
                &&& final(self).shedding == (shed || full)
                &&& log_text(final(self).log_lines) == (if shed || full {
                    logged(log_text(old(self).log_lines), seq![drop_text(event)])
                } else {
                    log_text(old(self).log_lines)
                })
            }),
    {
        self.stats.total_received = self.stats.total_received + 1;
        let latency: u64 = now_ns.saturating_sub(event.timestamp_ns);
        self.stats.current_latency_ns = latency;
        if latency > self.stats.max_latency_ns {
            self.stats.max_latency_ns = latency;
        }
        let utilization: u8 = self.get_utilization_pct();
        let should_drop: bool = match event.priority {
            TelemetryPriority::Critical => false,
            TelemetryPriority::Low => utilization >= self.drop_low_threshold_pct,
            TelemetryPriority::Medium => utilization >= self.drop_medium_threshold_pct || (
            self.shedding && utilization >= self.drop_low_threshold_pct),
            TelemetryPriority::High => utilization >= self.drop_high_threshold_pct,
        };
        if should_drop {
            self.count_drop(&event, now_ns);
            self.backpressure_active = true;
            return Ok(false);
        }
        let mut stored: TelemetryEvent = event;
        stored.is_occupied = true;
        if !self.buffer.push(stored) {
            self.count_drop(&event, now_ns);
            return Err("BUFFER_FULL");
        }
        self.shedding = false;
        let new_util: u8 = self.get_utilization_pct();
        self.backpressure_active = new_util >= self.warning_threshold_pct;
        Ok(true)
    }

    fn count_drop(&mut self, event: &TelemetryEvent, now_ns: u64)
        requires
            old(self).wf(),
            old(self).stats.total_dropped < u64::MAX,
            forall|i: int|
                0 <= i < 4 ==> #[trigger] old(self).stats.dropped_by_priority@[i] < u64::MAX,
        ensures
            final(self).wf(),
            final(self).buffer == old(self).buffer,
            final(self).same_settings(old(self)),
            final(self).backpressure_active == old(self).backpressure_active,
            final(self).shedding,
            final(self).stats.total_received == old(self).stats.total_received,
            final(self).stats.total_dropped == old(self).stats.total_dropped + 1,
            final(self).stats.last_drop_timestamp_ns == now_ns,
            final(self).stats.max_latency_ns == old(self).stats.max_latency_ns,
            final(self).stats.current_latency_ns == old(self).stats.current_latency_ns,
            forall|i: int|
                0 <= i < 4 ==> #[trigger] final(self).stats.dropped_by_priority@[i] == old(self).stats.dropped_by_priority@[i] + (if i == event.priority.rank() {
                    1int
                } else {
                    0
                }),
            log_text(final(self).log_lines) == logged(
                log_text(old(self).log_lines),
                seq![drop_text(*event)],
            ),
    {
        let index: usize = event.priority.index();
        self.stats.total_dropped = self.stats.total_dropped + 1;
        self.stats.dropped_by_priority[index] = self.stats.dropped_by_priority[index] + 1;
        self.stats.last_drop_timestamp_ns = now_ns;
        self.shedding = true;
        self.log_dropped_event(event);
    }

    /// Pop oldest event for processing
    pub fn pop(&mut self) -> (r: Option<TelemetryEvent>)
        requires
            old(self).wf(),
        ensures
            final(self).wf(),
            match r {
                Some(e) => old(self)@.len() > 0 && e == old(self)@[0] && final(self)@ == old(self)@.subrange(1, old(self)@.len() as int),
                None => old(self)@.len() == 0 && final(self)@ == old(self)@,
            },
            *final(self) == (BackpressureBuffer { buffer: final(self).buffer, ..*old(self) }),
    {
        self.buffer.pop()
    }

    /// Get current buffer utilization percentage
    pub fn get_utilization_pct(&self) -> (r: u8)
        requires
            self.wf(),
        ensures
            r == percent_full(self@.len()),
    {
        let used: u64 = self.buffer.len() as u64;
        let size: u64 = MAX_TELEMETRY_BUFFER as u64;
        assert(size == 4_194_304);
        ((used * 100) / size) as u8
    }

    /// Check if backpressure is active
    pub fn is_backpressure_active(&self) -> (r: bool)
        ensures
            r == self.backpressure_active,
    {
        self.backpressure_active
    }

    /// Get statistics
    pub fn get_stats(&self) -> (r: BackpressureStats)
        ensures
            r == self.stats,
    {
        self.stats
    }

    /// Emergency drain - clear buffer keeping only critical events
    pub fn emergency_drain(&mut self) -> (drained: usize)
        requires
            old(self).wf(),
            old(self).counters_open(),
        ensures
            final(self).wf(),
            final(self)@ == critical_only(old(self)@),
            drained == old(self)@.len() - critical_only(old(self)@).len(),
            final(self).stats == (BackpressureStats {
                total_dropped: (old(self).stats.total_dropped + drained) as u64,
                ..old(self).stats
            }),
            log_text(final(self).log_lines) == logged(
                log_text(old(self).log_lines),
                drained_text(old(self)@),
            ),
            final(self).same_settings(old(self)),
            final(self).backpressure_active == old(self).backpressure_active,
            final(self).shedding == old(self).shedding,
    {
        let ghost all = self@;
        let n: usize = self.buffer.len();
        let mut kept: IndexRing<TelemetryEvent> = IndexRing::new(MAX_TELEMETRY_BUFFER);
        let mut drained: usize = 0;
        let mut i: usize = 0;
        proof {
            assert(all.subrange(0, 0) =~= Seq::<TelemetryEvent>::empty());
            assert(critical_only(all.subrange(0, 0)) =~= Seq::<TelemetryEvent>::empty());
            if log_text(self.log_lines) is Some {
                let l = log_text(self.log_lines)->0;
                assert(l + drained_text(all.subrange(0, 0)) =~= l);
            }
        }
        while i < n
            invariant
                i <= n,
                self.wf(),
                all == self@,
                n == all.len(),
                n < MAX_TELEMETRY_BUFFER,
                kept.wf(),
                kept.size == MAX_TELEMETRY_BUFFER,
                kept@ == critical_only(all.subrange(0, i as int)),
                kept@.len() + drained == i,
                log_text(self.log_lines) == logged(
                    log_text(old(self).log_lines),
                    drained_text(all.subrange(0, i as int)),
                ),
                *self == (BackpressureBuffer { log_lines: self.log_lines, ..*old(self) }),
            decreases n - i,
        {
            let event: TelemetryEvent = self.buffer.get(i);
            proof {
                let next = all.subrange(0, i + 1);
                assert(next.drop_last() =~= all.subrange(0, i as int));
                assert(next.last() == event);
            }
            if event.priority != TelemetryPriority::Critical {
                let ghost before = log_text(self.log_lines);
                self.log_dropped_event(&event);
                drained = drained + 1;
                proof {
                    if log_text(old(self).log_lines) is Some {
                        let l = log_text(old(self).log_lines)->0;
                        let d = drained_text(all.subrange(0, i as int));
                        assert((l + d) + seq![drop_text(event)] =~= l + d.push(drop_text(event)));
                    }
                }
            } else {
                let _ = kept.push(event);
            }
            i = i + 1;
        }
        assert(all.subrange(0, n as int) =~= all);
        self.buffer = kept;
        if drained > 0 {
            self.stats.total_dropped = self.stats.total_dropped + drained as u64;
        }
        drained
    }
}

/// Critical events are never shed.
pub proof fn law_critical_kept(b: BackpressureBuffer)
    ensures
        !b.sheds(TelemetryPriority::Critical),
{
}

/// A less important event is shed wherever a more important one is, where the
/// thresholds rise with the importance.
pub proof fn law_shed_order(b: BackpressureBuffer)
    requires
        b.drop_low_threshold_pct <= b.drop_medium_threshold_pct,
        b.drop_medium_threshold_pct <= b.drop_high_threshold_pct,
    ensures
        b.sheds(TelemetryPriority::High) ==> b.sheds(TelemetryPriority::Medium),
        b.sheds(TelemetryPriority::Medium) ==> b.sheds(TelemetryPriority::Low),
{
}

/// An emergency drain keeps every critical event and nothing else.
pub proof fn law_drain_keeps_critical(s: Seq<TelemetryEvent>)
    ensures
        critical_only(s).len() <= s.len(),
        forall|i: int|
            0 <= i < critical_only(s).len() ==> (#[trigger] critical_only(s)[i]).priority
                == TelemetryPriority::Critical,
        forall|i: int|
            0 <= i < s.len() && (#[trigger] s[i]).priority == TelemetryPriority::Critical
                ==> critical_only(s).contains(s[i]),
    decreases s.len(),
{
    if s.len() > 0 {
        let t = s.drop_last();
        law_drain_keeps_critical(t);
        let rest = critical_only(t);
        assert forall|i: int|
            0 <= i < s.len() && (#[trigger] s[i]).priority
                == TelemetryPriority::Critical implies critical_only(s).contains(s[i]) by {
            if i < t.len() {
                assert(t[i] == s[i]);
                let k = rest.index_of(s[i]);
                assert(critical_only(s)[k] == s[i]);
            } else {
                assert(critical_only(s)[rest.len() as int] == s[i]);
            }
        }
    }
}

/// Creates a telemetry event with as much of the payload as it can hold
pub fn make_telemetry(
    event_type: u64,
    symbol: u64,
    priority: TelemetryPriority,
    payload: &[u8],
    now_ns: u64,
) -> (r: TelemetryEvent)
    ensures
        r.timestamp_ns == now_ns,
        r.event_type == event_type,
        r.symbol_hash == symbol,
        r.priority == priority,
        r.payload_len == math::min_int(payload@.len() as int, PAYLOAD_BYTES as int),
        forall|i: int|
            0 <= i < PAYLOAD_BYTES ==> #[trigger] r.payload@[i] == (if i < r.payload_len {
                payload@[i]
            } else {
                0
            }),
        r.is_occupied,
{
    let copy_len: usize = if payload.len() < PAYLOAD_BYTES {
        payload.len()
    } else {
        PAYLOAD_BYTES
    };
    let mut data: [u8; 48] = [0u8; 48];
    let mut i: usize = 0;
    while i < copy_len
        invariant
            i <= copy_len,
            copy_len <= PAYLOAD_BYTES,
            copy_len <= payload@.len(),
            forall|k: int|
                0 <= k < PAYLOAD_BYTES ==> #[trigger] data@[k] == (if k < i {
                    payload@[k]
                } else {
                    0
                }),
        decreases copy_len - i,
    {
        data[i] = payload[i];
        i = i + 1;
    }
    TelemetryEvent {
        timestamp_ns: now_ns,
        event_type,
        symbol_hash: symbol,
        priority,
        payload: data,
        payload_len: copy_len as u16,
        is_occupied: true,
    }
}

/// Priorities rank from critical to low.
pub proof fn law_priority_ranks()
    ensures
        TelemetryPriority::Critical.rank() == 0,
        TelemetryPriority::High.rank() == 1,
        TelemetryPriority::Medium.rank() == 2,
        TelemetryPriority::Low.rank() == 3,
{
}

/// An event is shed once the buffer is as full as the threshold of its
/// priority, in hundredths; while shedding goes on, medium events go with the
/// low ones.
pub proof fn law_events_shed_by_fullness(b: BackpressureBuffer)
    ensures
        ({
            let full = |pct: int| 100 * b@.len() >= pct * 4_194_304;
            &&& b.sheds(TelemetryPriority::Low) <==> full(b.drop_low_threshold_pct as int)
            &&& b.sheds(TelemetryPriority::High) <==> full(b.drop_high_threshold_pct as int)
            &&& b.sheds(TelemetryPriority::Medium) <==> full(b.drop_medium_threshold_pct as int)
                || (b.shedding && full(b.drop_low_threshold_pct as int))
        }),
{
    let n = b@.len() as int;
    assert(forall|pct: int|
        percent_full(b@.len()) >= pct <==> 100 * n >= #[trigger] (pct * 4_194_304));
}

/// Draining splits the events, in their order, into the critical ones, which
/// stay, and the others, each of which leaves a line.
pub proof fn law_drain_splits_events(s: Seq<TelemetryEvent>, e: TelemetryEvent)
    ensures
        e.priority == TelemetryPriority::Critical ==> critical_only(s.push(e)) == critical_only(
            s,
        ).push(e) && drained_text(s.push(e)) == drained_text(s),
        e.priority != TelemetryPriority::Critical ==> critical_only(s.push(e)) == critical_only(s)
            && drained_text(s.push(e)) == drained_text(s).push(drop_text(e)),
        critical_only(Seq::<TelemetryEvent>::empty()).len() == 0,
        drained_text(Seq::<TelemetryEvent>::empty()).len() == 0,
{
    assert(s.push(e).drop_last() =~= s);
}

/// The line of a dropped event begins with when it came and ends with its
/// symbol.
pub proof fn law_drop_line(e: TelemetryEvent)
    ensures
        ("[BACKPRESSURE_DROP] ts="@ + text::decimal(e.timestamp_ns as nat)).is_prefix_of(
            drop_text(e),
        ),
        (" symbol="@ + text::decimal(e.symbol_hash as nat)).is_suffix_of(drop_text(e)),
{
    let t = drop_text(e);
    let head = "[BACKPRESSURE_DROP] ts="@ + text::decimal(e.timestamp_ns as nat);
    let tail = " symbol="@ + text::decimal(e.symbol_hash as nat);
    assert(head =~= t.subrange(0, head.len() as int));
    assert(tail =~= t.subrange(t.len() - tail.len(), t.len() as int));
}

/// A log that is kept takes every line at its end; one that is not stays so.
pub proof fn law_log_takes_lines(log: Seq<Seq<char>>, more: Seq<Seq<char>>)
    ensures
        logged(Some(log), more) == Some(log + more),
        logged(None, more) is None,
{
}

} // verus!
