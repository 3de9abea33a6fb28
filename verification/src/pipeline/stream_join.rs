//! Temporal joins of event streams under watermarks.
use crate::math;
use crate::ring::IndexRing;
use vstd::prelude::*;

verus! {

/// Maximum events per stream buffer
pub const MAX_EVENTS_PER_STREAM: usize = 1_048_576;

/// Maximum number of streams to join
pub const MAX_STREAMS: usize = 16;

/// Event types supported
#[derive(Debug, Clone, Copy, PartialEq, Eq, Structural)]
pub enum EventType {
    Tick,
    Trade,
    OrderBookUpdate,
    Quote,
    Custom(u8),
}

/// Temporal event with watermarks
#[derive(Debug, Clone, Copy, PartialEq, Eq, Structural)]
pub struct TemporalEvent {
    /// Event timestamp (nanoseconds)
    pub timestamp_ns: u64,
    /// Watermark (guaranteed no earlier events)
    pub watermark_ns: u64,
    /// Event type
    pub event_type: EventType,
    /// Symbol hash
    pub symbol_hash: u64,
    /// Price (fixed-point * 10^8)
    pub price: i64,
    /// Quantity (fixed-point * 10^8)
    pub quantity: i64,
    /// Sequence number for ordering
    pub sequence: u64,
    /// Is processed
    pub is_processed: bool,
}

/// The event that stands where a stream takes no part.
pub open spec fn no_event() -> TemporalEvent {
    TemporalEvent {
        timestamp_ns: 0,
        watermark_ns: 0,
        event_type: EventType::Tick,
        symbol_hash: 0,
        price: 0,
        quantity: 0,
        sequence: 0,
        is_processed: false,
    }
}

impl Default for TemporalEvent {
    fn default() -> (r: Self)
        ensures
            r == no_event(),
    {
        TemporalEvent {
            timestamp_ns: 0,
            watermark_ns: 0,
            event_type: EventType::Tick,
            symbol_hash: 0,
            price: 0,
            quantity: 0,
            sequence: 0,
            is_processed: false,
        }
    }
}

/// Stream buffer for one event type
pub struct StreamBuffer {
    pub events: IndexRing<TemporalEvent>,
    pub watermark_ns: u64,
    pub is_active: bool,
}

impl View for StreamBuffer {
    type V = Seq<TemporalEvent>;

    /// The events waiting, oldest first.
    open spec fn view(&self) -> Seq<TemporalEvent> {
        self.events@
    }
}

/// Whether the oldest event of a stream may be emitted.
pub open spec fn ready(q: Seq<TemporalEvent>, watermark: u64) -> bool {
    q.len() > 0 && q[0].timestamp_ns <= watermark
}

impl Default for StreamBuffer {
    fn default() -> (r: Self)
        ensures
            r.wf(),
            r@ == Seq::<TemporalEvent>::empty(),
            r.watermark_ns == 0,
            r.is_active,
    {
        StreamBuffer {
            events: IndexRing::new(MAX_EVENTS_PER_STREAM),
            watermark_ns: 0,
            is_active: true,
        }
    }
}

impl StreamBuffer {
    pub open spec fn wf(&self) -> bool {
        self.events.wf() && self.events.size == MAX_EVENTS_PER_STREAM
    }

    /// Push event to buffer; false signals backpressure
    pub fn push(&mut self, event: TemporalEvent) -> (stored: bool)
        requires
            old(self).wf(),
        ensures
            final(self).wf(),
            stored == (old(self)@.len() < MAX_EVENTS_PER_STREAM - 1),
            final(self)@ == (if stored {
                old(self)@.push(event)
            } else {
                old(self)@
            }),
            final(self).watermark_ns == old(self).watermark_ns,
            final(self).is_active == old(self).is_active,
    {
        self.events.push(event)
    }

    /// Pop oldest event that passes watermark check
    pub fn pop_with_watermark(&mut self, current_watermark: u64) -> (r: Option<TemporalEvent>)
        requires
            old(self).wf(),
        ensures
            final(self).wf(),
            if ready(old(self)@, current_watermark) {
                &&& r == Some(old(self)@[0])
                &&& final(self)@ == old(self)@.subrange(1, old(self)@.len() as int)
            } else {
                r is None && final(self)@ == old(self)@
            },
            final(self).watermark_ns == old(self).watermark_ns,
            final(self).is_active == old(self).is_active,
    {
        if self.events.len() == 0 {
            return None;
        }
        let event: TemporalEvent = self.events.get(0);
        if event.timestamp_ns > current_watermark {
            return None;
        }
        self.events.pop()
    }

    /// Whether the oldest event may be emitted
    fn is_ready(&self, current_watermark: u64) -> (r: bool)
        requires
            self.wf(),
        ensures
            r == ready(self@, current_watermark),
    {
        self.events.len() > 0 && self.events.get(0).timestamp_ns <= current_watermark
    }

    /// Update watermark
    pub fn update_watermark(&mut self, watermark: u64)
        ensures
            *final(self) == (StreamBuffer { watermark_ns: watermark, ..*old(self) }),
    {
        self.watermark_ns = watermark;
    }

    /// Get current watermark
    pub fn get_watermark(&self) -> (r: u64)
        ensures
            r == self.watermark_ns,
    {
        self.watermark_ns
    }

    /// Get pending event count
    pub fn pending_count(&self) -> (r: usize)
        requires
            self.wf(),
        ensures
            r == self@.len(),
    {
        self.events.len()
    }

    /// Whether the stream takes part in a join: it has a watermark or events.
    pub open spec fn takes_part(&self) -> bool {
        self.watermark_ns > 0 || self@.len() > 0
    }
}

/// The first stream from `i` on that takes part and has no event ready.
pub open spec fn blocked_at(
    q: Seq<Seq<TemporalEvent>>,
    part: Seq<bool>,
    watermark: u64,
    i: int,
) -> int
    decreases MAX_STREAMS - i,
{
    if i >= MAX_STREAMS {
        MAX_STREAMS as int
    } else if part[i] && !ready(q[i], watermark) {
        i
    } else {
        blocked_at(q, part, watermark, i + 1)
    }
}

/// The queues after one event is taken from each participant before `upto`.
pub open spec fn popped(
    q: Seq<Seq<TemporalEvent>>,
    part: Seq<bool>,
    upto: int,
) -> Seq<Seq<TemporalEvent>> {
    Seq::new(
        MAX_STREAMS as nat,
        |i: int|
            if part[i] && i < upto {
                q[i].subrange(1, q[i].len() as int)
            } else {
                q[i]
            },
    )
}

/// The oldest event of each participant.
pub open spec fn front(q: Seq<Seq<TemporalEvent>>, part: Seq<bool>) -> Seq<TemporalEvent> {
    Seq::new(
        MAX_STREAMS as nat,
        |i: int|
            if part[i] {
                q[i][0]
            } else {
                no_event()
            },
    )
}

/// The latest time among the oldest events of the first `n` streams.
pub open spec fn latest(q: Seq<Seq<TemporalEvent>>, part: Seq<bool>, n: int) -> int
    decreases n,
{
    if n <= 0 {
        0
    } else if part[n - 1] {
        math::max_int(latest(q, part, n - 1), q[n - 1][0].timestamp_ns as int)
    } else {
        latest(q, part, n - 1)
    }
}

/// The earliest time among the oldest events of the first `n` streams.
pub open spec fn earliest(q: Seq<Seq<TemporalEvent>>, part: Seq<bool>, n: int) -> int
    decreases n,
{
    if n <= 0 {
        u64::MAX as int
    } else if part[n - 1] {
        math::min_int(earliest(q, part, n - 1), q[n - 1][0].timestamp_ns as int)
    } else {
        earliest(q, part, n - 1)
    }
}

/// Whether the oldest events lie within the latency of each other.
pub open spec fn consistent(
    q: Seq<Seq<TemporalEvent>>,
    part: Seq<bool>,
    max_latency_ns: u64,
) -> bool {
    latest(q, part, MAX_STREAMS as int) - earliest(q, part, MAX_STREAMS as int) <= max_latency_ns
}

/// The tuples that a join of the queues gives: round by round the oldest event
/// of each participant, where they lie close enough together. `lead` is a
/// participant.
pub open spec fn tuples(
    q: Seq<Seq<TemporalEvent>>,
    part: Seq<bool>,
    lead: int,
    watermark: u64,
    max_latency_ns: u64,
) -> Seq<Seq<TemporalEvent>>
    decreases q[lead].len(),
{
    if !(0 <= lead < MAX_STREAMS && part[lead] && q[lead].len() > 0) || blocked_at(
        q,
        part,
        watermark,
        0,
    ) < MAX_STREAMS {
        Seq::empty()
    } else {
        let rest = tuples(
            popped(q, part, MAX_STREAMS as int),
            part,
            lead,
            watermark,
            max_latency_ns,
        );
        if consistent(q, part, max_latency_ns) {
            seq![front(q, part)] + rest
        } else {
            rest
        }
    }
}

/// The queues that a join leaves. The round in which a participant has nothing
/// ready ends the join and takes nothing.
pub open spec fn leftover(
    q: Seq<Seq<TemporalEvent>>,
    part: Seq<bool>,
    lead: int,
    watermark: u64,
) -> Seq<Seq<TemporalEvent>>
    decreases q[lead].len(),
{
    if !(0 <= lead < MAX_STREAMS && part[lead] && q[lead].len() > 0) || blocked_at(
        q,
        part,
        watermark,
        0,
    ) < MAX_STREAMS {
        q
    } else {
        leftover(popped(q, part, MAX_STREAMS as int), part, lead, watermark)
    }
}

/// Whether a tuple holds the events that stand at one place of all the
/// participants' queues, none of them past the watermark.
pub open spec fn stands_at(
    q: Seq<Seq<TemporalEvent>>,
    part: Seq<bool>,
    watermark: u64,
    place: int,
    t: Seq<TemporalEvent>,
) -> bool {
    forall|i: int|
        0 <= i < MAX_STREAMS && part[i] ==> place < q[i].len() && #[trigger] t[i] == q[i][place]
            && t[i].timestamp_ns <= watermark
}

/// Where in the queues the events of each tuple stood, counted from `at`.
pub open spec fn places(
    q: Seq<Seq<TemporalEvent>>,
    part: Seq<bool>,
    lead: int,
    watermark: u64,
    max_latency_ns: u64,
    at: int,
) -> Seq<int>
    decreases q[lead].len(),
{
    if !(0 <= lead < MAX_STREAMS && part[lead] && q[lead].len() > 0) || blocked_at(
        q,
        part,
        watermark,
        0,
    ) < MAX_STREAMS {
        Seq::empty()
    } else {
        let rest = places(
            popped(q, part, MAX_STREAMS as int),
            part,
            lead,
            watermark,
            max_latency_ns,
            at + 1,
        );
        if consistent(q, part, max_latency_ns) {
            seq![at] + rest
        } else {
            rest
        }
    }
}

/// A join keeps the order of every stream: tuple `k` holds the events that
/// stand at place `k` of `places` in all the participants' queues, none of them
/// past the watermark, and the places grow with the tuples. So nothing but what
/// was waiting comes out, no event twice and none before an older one of its
/// stream. All the places lie in the rounds that the join takes.
pub proof fn law_join_keeps_stream_order(
    q: Seq<Seq<TemporalEvent>>,
    part: Seq<bool>,
    lead: int,
    watermark: u64,
    max_latency_ns: u64,
)
    requires
        q.len() == MAX_STREAMS,
        part.len() == MAX_STREAMS,
    ensures
        ({
            let t = tuples(q, part, lead, watermark, max_latency_ns);
            let p = places(q, part, lead, watermark, max_latency_ns, 0);
            &&& p.len() == t.len()
            &&& forall|k: int|
                0 <= k < t.len() ==> stands_at(q, part, watermark, #[trigger] p[k], t[k])
            &&& forall|k: int|
                0 <= k < p.len() ==> 0 <= #[trigger] p[k] < rounds(q, part, lead, watermark)
            &&& forall|a: int, b: int| 0 <= a < b < p.len() ==> #[trigger] p[a] < #[trigger] p[b]
        }),
{
    lemma_places(q, part, lead, watermark, max_latency_ns, 0);
}

proof fn lemma_places(
    q: Seq<Seq<TemporalEvent>>,
    part: Seq<bool>,
    lead: int,
    watermark: u64,
    max_latency_ns: u64,
    at: int,
)
    requires
        q.len() == MAX_STREAMS,
        part.len() == MAX_STREAMS,
    ensures
        ({
            let t = tuples(q, part, lead, watermark, max_latency_ns);
            let p = places(q, part, lead, watermark, max_latency_ns, at);
            &&& p.len() == t.len()
            &&& forall|k: int|
                0 <= k < t.len() ==> stands_at(q, part, watermark, #[trigger] p[k] - at, t[k])
            &&& forall|k: int|
                0 <= k < p.len() ==> at <= #[trigger] p[k] < at + rounds(q, part, lead, watermark)
            &&& forall|a: int, b: int| 0 <= a < b < p.len() ==> #[trigger] p[a] < #[trigger] p[b]
        }),
    decreases q[lead].len(),
{
    let t = tuples(q, part, lead, watermark, max_latency_ns);
    let p = places(q, part, lead, watermark, max_latency_ns, at);
    if (0 <= lead < MAX_STREAMS && part[lead] && q[lead].len() > 0) && !(blocked_at(
        q,
        part,
        watermark,
        0,
    ) < MAX_STREAMS) {
        let next = popped(q, part, MAX_STREAMS as int);
        let t2 = tuples(next, part, lead, watermark, max_latency_ns);
        let p2 = places(next, part, lead, watermark, max_latency_ns, at + 1);
        lemma_unblocked(q, part, watermark, 0);
        lemma_places(next, part, lead, watermark, max_latency_ns, at + 1);
        let shift: int = if consistent(q, part, max_latency_ns) {
            1
        } else {
            0
        };
        assert forall|k: int| 0 <= k < t.len() implies stands_at(
            q,
            part,
            watermark,
            #[trigger] p[k] - at,
            t[k],
        ) by {
            if k < shift {
                assert(t[k] == front(q, part));
                assert forall|i: int| 0 <= i < MAX_STREAMS && part[i] implies 0 < q[i].len()
                    && #[trigger] t[k][i] == q[i][0] && t[k][i].timestamp_ns <= watermark by {
                    assert(ready(q[i], watermark));
                }
            } else {
                let place = p2[k - shift] - (at + 1);
                assert(t[k] == t2[k - shift] && p[k] == p2[k - shift]);
                assert(stands_at(next, part, watermark, place, t2[k - shift]));
                assert forall|i: int| 0 <= i < MAX_STREAMS && part[i] implies place + 1 < q[i].len()
                    && #[trigger] t[k][i] == q[i][place + 1] && t[k][i].timestamp_ns
                    <= watermark by {
                    assert(t2[k - shift][i] == next[i][place]);
                    assert(ready(q[i], watermark));
                    assert(next[i] == q[i].subrange(1, q[i].len() as int));
                }
            }
        }
    }
}

/// The queues with more events ingested behind those that wait.
pub open spec fn refilled(
    q: Seq<Seq<TemporalEvent>>,
    more: Seq<Seq<TemporalEvent>>,
) -> Seq<Seq<TemporalEvent>> {
    Seq::new(MAX_STREAMS as nat, |i: int| q[i] + more[i])
}

/// The order holds from one join to the next, whatever was ingested between
/// them: of all the events that a stream had, the later join takes only such
/// as come after those that the earlier one took.
pub proof fn law_later_join_takes_later_events(
    q: Seq<Seq<TemporalEvent>>,
    part: Seq<bool>,
    lead: int,
    watermark: u64,
    max_latency_ns: u64,
    more: Seq<Seq<TemporalEvent>>,
    later_part: Seq<bool>,
    later_lead: int,
    later_watermark: u64,
    i: int,
    a: int,
    b: int,
)
    requires
        q.len() == MAX_STREAMS,
        part.len() == MAX_STREAMS,
        more.len() == MAX_STREAMS,
        later_part.len() == MAX_STREAMS,
        0 <= i < MAX_STREAMS,
        part[i],
        later_part[i],
        0 <= a < tuples(q, part, lead, watermark, max_latency_ns).len(),
        0 <= b < tuples(
            refilled(leftover(q, part, lead, watermark), more),
            later_part,
            later_lead,
            later_watermark,
            max_latency_ns,
        ).len(),
    ensures
        ({
            let all = q[i] + more[i];
            let left = refilled(leftover(q, part, lead, watermark), more);
            let early = places(q, part, lead, watermark, max_latency_ns, 0)[a];
            let late = rounds(q, part, lead, watermark) + places(
                left,
                later_part,
                later_lead,
                later_watermark,
                max_latency_ns,
                0,
            )[b];
            &&& 0 <= early < late < all.len()
            &&& tuples(q, part, lead, watermark, max_latency_ns)[a][i] == all[early]
            &&& tuples(left, later_part, later_lead, later_watermark, max_latency_ns)[b][i]
                == all[late]
        }),
{
    let all = q[i] + more[i];
    let left = refilled(leftover(q, part, lead, watermark), more);
    let n = rounds(q, part, lead, watermark) as int;
    let p1 = places(q, part, lead, watermark, max_latency_ns, 0);
    let p2 = places(left, later_part, later_lead, later_watermark, max_latency_ns, 0);
    let t1 = tuples(q, part, lead, watermark, max_latency_ns);
    let t2 = tuples(left, later_part, later_lead, later_watermark, max_latency_ns);
    law_join_keeps_stream_order(q, part, lead, watermark, max_latency_ns);
    law_join_keeps_stream_order(left, later_part, later_lead, later_watermark, max_latency_ns);
    law_join_takes_whole_rounds(q, part, lead, watermark, i);
    assert(stands_at(q, part, watermark, p1[a], t1[a]));
    assert(stands_at(left, later_part, later_watermark, p2[b], t2[b]));
    assert(t1[a][i] == q[i][p1[a]]);
    assert(t2[b][i] == left[i][p2[b]]);
    assert(left[i] =~= all.subrange(n, all.len() as int));
}

/// The watermark of a join is the lowest that a stream has, where one has any
/// below the largest time; otherwise it lies the latency back from now.
pub proof fn law_join_watermark_is_lowest(e: StreamJoinEngine, now_ns: u64)
    requires
        e.wf(),
    ensures
        (exists|i: int|
            0 <= i < MAX_STREAMS && 0 < #[trigger] e.buffers@[i].watermark_ns < u64::MAX) ==> {
            &&& exists|i: int|
                0 <= i < MAX_STREAMS && #[trigger] e.buffers@[i].watermark_ns == e.join_watermark(
                    now_ns,
                )
            &&& e.join_watermark(now_ns) > 0
            &&& forall|i: int|
                0 <= i < MAX_STREAMS && #[trigger] e.buffers@[i].watermark_ns > 0
                    ==> e.join_watermark(now_ns) <= e.buffers@[i].watermark_ns
        },
        (forall|i: int|
            0 <= i < MAX_STREAMS ==> !(0 < #[trigger] e.buffers@[i].watermark_ns < u64::MAX))
            ==> e.join_watermark(now_ns) == math::max_int(now_ns - e.max_latency_ns, 0),
{
    lemma_lowest_mark(e.buffers@, MAX_STREAMS as int);
}

proof fn lemma_lowest_mark(b: Seq<StreamBuffer>, n: int)
    requires
        0 <= n <= b.len(),
    ensures
        lowest_mark(b, n) > 0,
        lowest_mark(b, n) == u64::MAX || exists|i: int|
            0 <= i < n && #[trigger] b[i].watermark_ns == lowest_mark(b, n),
        forall|i: int|
            0 <= i < n && #[trigger] b[i].watermark_ns > 0 ==> lowest_mark(b, n)
                <= b[i].watermark_ns,
    decreases n,
{
    if n > 0 {
        lemma_lowest_mark(b, n - 1);
        assert(b[n - 1].watermark_ns >= 0);
    }
}

/// Where no participant is blocked, every participant is ready.
proof fn lemma_unblocked(q: Seq<Seq<TemporalEvent>>, part: Seq<bool>, watermark: u64, i: int)
    requires
        blocked_at(q, part, watermark, i) >= MAX_STREAMS,
    ensures
        forall|j: int| i <= j < MAX_STREAMS && part[j] ==> #[trigger] ready(q[j], watermark),
    decreases MAX_STREAMS - i,
{
    if i < MAX_STREAMS {
        lemma_unblocked(q, part, watermark, i + 1);
    }
}

/// The times of a participant lie between the earliest and the latest.
proof fn lemma_time_range(q: Seq<Seq<TemporalEvent>>, part: Seq<bool>, n: int, i: int)
    requires
        0 <= i < n,
        part[i],
    ensures
        earliest(q, part, n) <= q[i][0].timestamp_ns <= latest(q, part, n),
    decreases n,
{
    if i < n - 1 {
        lemma_time_range(q, part, n - 1, i);
    }
}

/// The lowest watermark of the first `n` streams that have one.
pub open spec fn lowest_mark(b: Seq<StreamBuffer>, n: int) -> u64
    decreases n,
{
    if n <= 0 {
        u64::MAX
    } else {
        let low = lowest_mark(b, n - 1);
        let mark = b[n - 1].watermark_ns;
        if 0 < mark < low {
            mark
        } else {
            low
        }
    }
}

/// The first participant from `i` on.
pub open spec fn first_part(part: Seq<bool>, i: int) -> int
    decreases MAX_STREAMS - i,
{
    if i >= MAX_STREAMS {
        MAX_STREAMS as int
    } else if part[i] {
        i
    } else {
        first_part(part, i + 1)
    }
}

/// Temporal stream join engine
pub struct StreamJoinEngine {
    /// Buffers per stream type
    pub buffers: Vec<StreamBuffer>,
    /// Global watermark (minimum across all streams)
    pub global_watermark: u64,
    /// Join latency threshold (nanoseconds)
    pub max_latency_ns: u64,
    /// Dropped event counter (for backpressure logging)
    pub dropped_count: u64,
    /// Total joined events
    pub joined_count: u64,
}

impl StreamJoinEngine {
    pub open spec fn wf(&self) -> bool {
        &&& self.buffers.len() == MAX_STREAMS
        &&& forall|i: int| 0 <= i < MAX_STREAMS ==> (#[trigger] self.buffers@[i]).wf()
    }

    /// The events waiting in each stream.
    pub open spec fn queues(&self) -> Seq<Seq<TemporalEvent>> {
        Seq::new(MAX_STREAMS as nat, |i: int| self.buffers@[i]@)
    }

    /// Which streams take part in a join.
    pub open spec fn participants(&self) -> Seq<bool> {
        Seq::new(MAX_STREAMS as nat, |i: int| self.buffers@[i].takes_part())
    }

    /// The watermark of a join at a time: the lowest that a stream has, or what
    /// lies the latency back where none has one.
    pub open spec fn join_watermark(&self, now_ns: u64) -> u64 {
        let low = lowest_mark(self.buffers@, MAX_STREAMS as int);
        if low == u64::MAX {
            if now_ns >= self.max_latency_ns {
                (now_ns - self.max_latency_ns) as u64
            } else {
                0
            }
        } else {
            low
        }
    }

    /// Create new stream join engine
    pub fn new(max_latency_ms: u64) -> (r: Self)
        requires
            max_latency_ms * 1_000_000 <= u64::MAX,
        ensures
            r.wf(),
            forall|i: int|
                0 <= i < MAX_STREAMS ==> (#[trigger] r.buffers@[i])@ == Seq::<
                    TemporalEvent,
                >::empty() && r.buffers@[i].watermark_ns == 0,
            r.global_watermark == 0,
            r.max_latency_ns == max_latency_ms * 1_000_000,
            r.dropped_count == 0,
            r.joined_count == 0,
    {
        let mut buffers: Vec<StreamBuffer> = Vec::with_capacity(MAX_STREAMS);
        while buffers.len() < MAX_STREAMS
            invariant
                buffers.len() <= MAX_STREAMS,
                forall|i: int|
                    0 <= i < buffers.len() ==> (#[trigger] buffers@[i]).wf() && buffers@[i]@
                        == Seq::<TemporalEvent>::empty() && buffers@[i].watermark_ns == 0,
            decreases MAX_STREAMS - buffers.len(),
        {
            buffers.push(StreamBuffer::default());
        }
        StreamJoinEngine {
            buffers,
            global_watermark: 0,
            max_latency_ns: max_latency_ms * 1_000_000,
            dropped_count: 0,
            joined_count: 0,
        }
    }

    /// Ingest event into appropriate stream
    pub fn ingest(&mut self, stream_id: usize, event: TemporalEvent) -> (stored: bool)
        requires
            old(self).wf(),
        ensures
            final(self).wf(),
            stored == (stream_id < MAX_STREAMS && old(self).queues()[stream_id as int].len()
                < MAX_EVENTS_PER_STREAM - 1),
            final(self).queues() == (if stored {
                old(self).queues().update(
                    stream_id as int,
                    old(self).queues()[stream_id as int].push(event),
                )
            } else {
                old(self).queues()
            }),
            forall|i: int|
                0 <= i < MAX_STREAMS ==> (#[trigger] final(self).buffers@[i]).watermark_ns == old(self).buffers@[i].watermark_ns,
            final(self).dropped_count == (if stream_id < MAX_STREAMS && !stored {
                old(self).dropped_count.wrapping_add(1)
            } else {
                old(self).dropped_count
            }),
            final(self).joined_count == old(self).joined_count,
            final(self).global_watermark == old(self).global_watermark,
            final(self).max_latency_ns == old(self).max_latency_ns,
    {
        if stream_id >= MAX_STREAMS {
            return false;
        }
        let ghost before = self.buffers@;
        let stored: bool = self.buffers[stream_id].push(event);
        proof {
            assert forall|i: int| 0 <= i < MAX_STREAMS implies (#[trigger] self.buffers@[i]).wf()
                && self.buffers@[i].watermark_ns == before[i].watermark_ns by {
                if i != stream_id {
                    assert(self.buffers@[i] == before[i]);
                }
            }
            assert(self.queues() =~= (if stored {
                old(self).queues().update(
                    stream_id as int,
                    old(self).queues()[stream_id as int].push(event),
                )
            } else {
                old(self).queues()
            })) by {
                assert forall|i: int| 0 <= i < MAX_STREAMS && i != stream_id implies
                    #[trigger] self.queues()[i] == old(self).queues()[i] by {
                    assert(self.buffers@[i] == before[i]);
                }
            }
        }
        if !stored {
            self.dropped_count = self.dropped_count.wrapping_add(1);
            assert(self.queues() =~= old(self).queues());
            return false;
        }
        true
    }

    /// Perform temporal join - returns joined events
    pub fn join(&mut self, now_ns: u64) -> (joined: Vec<[TemporalEvent; 16]>)
        requires
            old(self).wf(),
        ensures
            final(self).wf(),
            ({
                let q = old(self).queues();
                let part = old(self).participants();
                let lead = first_part(part, 0);
                let mark = old(self).join_watermark(now_ns);
                &&& final(self).global_watermark == mark
                &&& Seq::new(joined@.len(), |i: int| joined@[i]@) == tuples(
                    q,
                    part,
                    lead,
                    mark,
                    old(self).max_latency_ns,
                )
                &&& final(self).queues() == leftover(q, part, lead, mark)
                &&& final(self).joined_count == old(self).joined_count.wrapping_add(
                    joined@.len() as u64,
                )
            }),
            forall|i: int|
                0 <= i < MAX_STREAMS ==> (#[trigger] final(self).buffers@[i]).watermark_ns == old(self).buffers@[i].watermark_ns,
            final(self).dropped_count == old(self).dropped_count,
            final(self).max_latency_ns == old(self).max_latency_ns,
    {
        let mut low: u64 = u64::MAX;
        let mut lead: usize = MAX_STREAMS;
        let mut part: Vec<bool> = Vec::with_capacity(MAX_STREAMS);
        let mut i: usize = 0;
        while i < MAX_STREAMS
            invariant
                i <= MAX_STREAMS,
                self.wf(),
                *self == *old(self),
                low == lowest_mark(self.buffers@, i as int),
                part@ == self.participants().subrange(0, i as int),
                if lead == MAX_STREAMS {
                    first_part(self.participants(), 0) == first_part(
                        self.participants(),
                        i as int,
                    )
                } else {
                    lead < i && first_part(self.participants(), 0) == lead
                },
            decreases MAX_STREAMS - i,
        {
            let mark: u64 = self.buffers[i].get_watermark();
            if mark < low && mark > 0 {
                low = mark;
            }
            let takes_part: bool = mark > 0 || self.buffers[i].pending_count() > 0;
            part.push(takes_part);
            if takes_part && lead == MAX_STREAMS {
                lead = i;
            }
            i = i + 1;
            assert(part@ =~= self.participants().subrange(0, i as int));
        }
        assert(part@ =~= self.participants());
        let watermark: u64 = if low == u64::MAX {
            now_ns.saturating_sub(self.max_latency_ns)
        } else {
            low
        };
        self.global_watermark = watermark;
        self.join_rounds(&part, lead, watermark)
    }

    /// Forms tuples round by round.
    fn join_rounds(&mut self, part: &Vec<bool>, lead: usize, watermark: u64) -> (joined: Vec<
        [TemporalEvent; 16],
    >)
        requires
            old(self).wf(),
            part.len() == MAX_STREAMS,
            lead == first_part(part@, 0),
        ensures
            final(self).wf(),
            Seq::new(joined@.len(), |i: int| joined@[i]@) == tuples(
                old(self).queues(),
                part@,
                lead as int,
                watermark,
                old(self).max_latency_ns,
            ),
            final(self).queues() == leftover(old(self).queues(), part@, lead as int, watermark),
            final(self).joined_count == old(self).joined_count.wrapping_add(
                joined@.len() as u64,
            ),
            forall|i: int|
                0 <= i < MAX_STREAMS ==> (#[trigger] final(self).buffers@[i]).watermark_ns == old(self).buffers@[i].watermark_ns,
            final(self).dropped_count == old(self).dropped_count,
            final(self).max_latency_ns == old(self).max_latency_ns,
            final(self).global_watermark == old(self).global_watermark,
    {
        let mut joined: Vec<[TemporalEvent; 16]> = Vec::new();
        let ghost start = self.queues();
        proof {
            lemma_first_part(part@, 0);
            assert(Seq::new(joined@.len(), |i: int| joined@[i]@) =~= Seq::<
                Seq<TemporalEvent>,
            >::empty());
        }
        if lead >= MAX_STREAMS {
            proof {
                assert(leftover(start, part@, lead as int, watermark) == start);
            }
            return joined;
        }
        let mut more: bool = true;
        while more
            invariant
                self.wf(),
                part.len() == MAX_STREAMS,
                lead < MAX_STREAMS,
                part@[lead as int],
                start == old(self).queues(),
                joined@.len() <= u64::MAX,
                more ==> tuples(start, part@, lead as int, watermark, self.max_latency_ns)
                    == Seq::new(joined@.len(), |i: int| joined@[i]@) + tuples(
                    self.queues(),
                    part@,
                    lead as int,
                    watermark,
                    self.max_latency_ns,
                ),
                more ==> leftover(start, part@, lead as int, watermark) == leftover(
                    self.queues(),
                    part@,
                    lead as int,
                    watermark,
                ),
                !more ==> tuples(start, part@, lead as int, watermark, self.max_latency_ns)
                    == Seq::new(joined@.len(), |i: int| joined@[i]@),
                !more ==> leftover(start, part@, lead as int, watermark) == self.queues(),
                self.joined_count == old(self).joined_count.wrapping_add(joined@.len() as u64),
                forall|i: int|
                    0 <= i < MAX_STREAMS ==> (#[trigger] self.buffers@[i]).watermark_ns == old(self).buffers@[i].watermark_ns,
                self.dropped_count == old(self).dropped_count,
                self.max_latency_ns == old(self).max_latency_ns,
                self.global_watermark == old(self).global_watermark,
            decreases
                    if more {
                        self.queues()[lead as int].len() + 1
                    } else {
                        0
                    },
        {
            let ghost q = self.queues();
            let ghost had = Seq::new(joined@.len(), |i: int| joined@[i]@);
            match self.take_round(part, lead, watermark) {
                Some((tuple, spread)) => {
                    proof {
                        lemma_unblocked(q, part@, watermark, 0);
                        assert(ready(q[lead as int], watermark));
                    }
                    if spread <= self.max_latency_ns {
                        let ghost n = joined@.len();
                        joined.push(tuple);
                        self.joined_count = self.joined_count.wrapping_add(1);
                        let count: usize = joined.len();
                        proof {
                            assert(Seq::new(joined@.len(), |i: int| joined@[i]@) =~= had.push(
                                front(q, part@),
                            ));
                            assert(had + (seq![front(q, part@)] + tuples(
                                popped(q, part@, MAX_STREAMS as int),
                                part@,
                                lead as int,
                                watermark,
                                self.max_latency_ns,
                            )) =~= had.push(front(q, part@)) + tuples(
                                popped(q, part@, MAX_STREAMS as int),
                                part@,
                                lead as int,
                                watermark,
                                self.max_latency_ns,
                            ));
                        }
                    }
                },
                None => {
                    more = false;
                    proof {
                        assert(had + Seq::<Seq<TemporalEvent>>::empty() =~= had);
                    }
                },
            }
        }
        joined
    }

    /// Whether every participant has an event ready.
    fn round_ready(&self, part: &Vec<bool>, watermark: u64) -> (r: bool)
        requires
            self.wf(),
            part.len() == MAX_STREAMS,
        ensures
            r == (blocked_at(self.queues(), part@, watermark, 0) == MAX_STREAMS),
    {
        let mut i: usize = 0;
        while i < MAX_STREAMS
            invariant
                i <= MAX_STREAMS,
                self.wf(),
                part.len() == MAX_STREAMS,
                blocked_at(self.queues(), part@, watermark, 0) == blocked_at(
                    self.queues(),
                    part@,
                    watermark,
                    i as int,
                ),
            decreases MAX_STREAMS - i,
        {
            assert(self.queues()[i as int] == self.buffers@[i as int]@);
            if part[i] && !self.buffers[i].is_ready(watermark) {
                return false;
            }
            i = i + 1;
        }
        true
    }

    /// Takes the oldest ready event of each participant in turn: the tuple and
    /// how far apart its times lie. Where a participant is blocked nothing is
    /// taken.
    fn take_round(&mut self, part: &Vec<bool>, lead: usize, watermark: u64) -> (r: Option<
        ([TemporalEvent; 16], u64),
    >)
        requires
            old(self).wf(),
            part.len() == MAX_STREAMS,
            lead < MAX_STREAMS,
            part@[lead as int],
        ensures
            final(self).wf(),
            final(self).queues() == (if r is Some {
                popped(old(self).queues(), part@, MAX_STREAMS as int)
            } else {
                old(self).queues()
            }),
            match r {
                Some((t, spread)) => {
                    &&& blocked_at(old(self).queues(), part@, watermark, 0) == MAX_STREAMS
                    &&& t@ == front(old(self).queues(), part@)
                    &&& spread == latest(old(self).queues(), part@, MAX_STREAMS as int) - earliest(
                        old(self).queues(),
                        part@,
                        MAX_STREAMS as int,
                    )
                },
                None => blocked_at(old(self).queues(), part@, watermark, 0) < MAX_STREAMS,
            },
            forall|i: int|
                0 <= i < MAX_STREAMS ==> (#[trigger] final(self).buffers@[i]).watermark_ns == old(self).buffers@[i].watermark_ns,
            final(self).joined_count == old(self).joined_count,
            final(self).dropped_count == old(self).dropped_count,
            final(self).max_latency_ns == old(self).max_latency_ns,
            final(self).global_watermark == old(self).global_watermark,
    {
        let ghost q = self.queues();
        if !self.round_ready(part, watermark) {
            proof {
                lemma_blocked_bound(q, part@, watermark, 0);
            }
            return None;
        }
        proof {
            lemma_unblocked(q, part@, watermark, 0);
        }
        let mut tuple: [TemporalEvent; 16] = [TemporalEvent::default(); 16];
        let mut max_ts: u64 = 0;
        let mut min_ts: u64 = u64::MAX;
        let mut i: usize = 0;
        assert(self.queues() =~= popped(q, part@, 0));
        while i < MAX_STREAMS
            invariant
                i <= MAX_STREAMS,
                self.wf(),
                part.len() == MAX_STREAMS,
                q == old(self).queues(),
                self.queues() == popped(q, part@, i as int),
                forall|j: int|
                    0 <= j < MAX_STREAMS && part@[j] ==> #[trigger] ready(q[j], watermark),
                max_ts == latest(q, part@, i as int),
                min_ts == earliest(q, part@, i as int),
                forall|j: int|
                    0 <= j < MAX_STREAMS ==> #[trigger] tuple@[j] == (if part@[j] && j < i {
                        q[j][0]
                    } else {
                        no_event()
                    }),
                forall|j: int|
                    0 <= j < MAX_STREAMS ==> (#[trigger] self.buffers@[j]).watermark_ns == old(self).buffers@[j].watermark_ns,
                self.joined_count == old(self).joined_count,
                self.dropped_count == old(self).dropped_count,
                self.max_latency_ns == old(self).max_latency_ns,
                self.global_watermark == old(self).global_watermark,
            decreases MAX_STREAMS - i,
        {
            if part[i] {
                let ghost before = self.buffers@;
                assert(self.queues()[i as int] == q[i as int]);
                assert(ready(q[i as int], watermark));
                let front: Option<TemporalEvent> = self.buffers[i].pop_with_watermark(watermark);
                proof {
                    assert forall|j: int| 0 <= j < MAX_STREAMS implies (
                    #[trigger] self.buffers@[j]).wf() && self.buffers@[j].watermark_ns
                        == before[j].watermark_ns by {
                        if j != i {
                            assert(self.buffers@[j] == before[j]);
                        }
                    }
                    assert forall|j: int| 0 <= j < MAX_STREAMS && j != i implies
                        #[trigger] self.queues()[j] == popped(q, part@, i as int)[j] by {
                        assert(self.buffers@[j] == before[j]);
                    }
                }
                match front {
                    Some(event) => {
                        tuple[i] = event;
                        if event.timestamp_ns > max_ts {
                            max_ts = event.timestamp_ns;
                        }
                        if event.timestamp_ns < min_ts {
                            min_ts = event.timestamp_ns;
                        }
                    },
                    None => {},
                }
            }
            i = i + 1;
            assert(self.queues() =~= popped(q, part@, i as int));
        }
        proof {
            lemma_time_range(q, part@, MAX_STREAMS as int, lead as int);
            assert(tuple@ =~= front(q, part@));
        }
        Some((tuple, max_ts - min_ts))
    }

    /// Advance watermark for a specific stream
    pub fn advance_watermark(&mut self, stream_id: usize, watermark: u64)
        requires
            old(self).wf(),
        ensures
            final(self).wf(),
            final(self).queues() == old(self).queues(),
            forall|i: int|
                0 <= i < MAX_STREAMS ==> (#[trigger] final(self).buffers@[i]).watermark_ns == (
                if i == stream_id {
                    watermark
                } else {
                    old(self).buffers@[i].watermark_ns
                }),
            final(self).joined_count == old(self).joined_count,
            final(self).dropped_count == old(self).dropped_count,
            final(self).max_latency_ns == old(self).max_latency_ns,
            final(self).global_watermark == old(self).global_watermark,
    {
        if stream_id < MAX_STREAMS {
            let ghost before = self.buffers@;
            self.buffers[stream_id].update_watermark(watermark);
            proof {
                assert forall|j: int| 0 <= j < MAX_STREAMS implies (
                #[trigger] self.buffers@[j]).wf() && self.buffers@[j]@ == before[j]@ by {
                    if j != stream_id {
                        assert(self.buffers@[j] == before[j]);
                    }
                }
                assert(self.queues() =~= old(self).queues());
            }
        }
    }

    /// Get statistics
    pub fn stats(&self) -> (r: (u64, u64, u64, [usize; 16]))
        requires
            self.wf(),
        ensures
            r.0 == self.joined_count,
            r.1 == self.dropped_count,
            r.2 == self.global_watermark,
            forall|i: int|
                0 <= i < MAX_STREAMS ==> #[trigger] r.3@[i] == self.queues()[i].len(),
    {
        let mut pending: [usize; 16] = [0usize; 16];
        let mut i: usize = 0;
        while i < MAX_STREAMS
            invariant
                i <= MAX_STREAMS,
                self.wf(),
                forall|j: int| 0 <= j < i ==> #[trigger] pending@[j] == self.queues()[j].len(),
            decreases MAX_STREAMS - i,
        {
            pending[i] = self.buffers[i].pending_count();
            i = i + 1;
        }
        (self.joined_count, self.dropped_count, self.global_watermark, pending)
    }

    /// Check if any buffer is near capacity (backpressure warning)
    pub fn needs_backpressure(&self, threshold_pct: u8) -> (r: bool)
        requires
            self.wf(),
        ensures
            r == exists|i: int|
                0 <= i < MAX_STREAMS && (#[trigger] self.queues()[i]).len()
                    > MAX_EVENTS_PER_STREAM * threshold_pct / 100,
    {
        let events: u64 = MAX_EVENTS_PER_STREAM as u64;
        assert(events == 1_048_576);
        let threshold: u64 = (events * threshold_pct as u64) / 100;
        let mut i: usize = 0;
        while i < MAX_STREAMS
            invariant
                i <= MAX_STREAMS,
                self.wf(),
                threshold == MAX_EVENTS_PER_STREAM * threshold_pct / 100,
                forall|j: int|
                    0 <= j < i ==> (#[trigger] self.queues()[j]).len() <= threshold,
            decreases MAX_STREAMS - i,
        {
            if self.buffers[i].pending_count() as u64 > threshold {
                assert(self.queues()[i as int].len() > threshold);
                return true;
            }
            i = i + 1;
        }
        false
    }
}

/// The first participant takes part, where there is one.
proof fn lemma_first_part(part: Seq<bool>, i: int)
    requires
        0 <= i <= MAX_STREAMS,
    ensures
        i <= first_part(part, i) <= MAX_STREAMS,
        first_part(part, i) < MAX_STREAMS ==> part[first_part(part, i)],
        forall|j: int| i <= j < first_part(part, i) ==> !#[trigger] part[j],
    decreases MAX_STREAMS - i,
{
    if i < MAX_STREAMS && !part[i] {
        lemma_first_part(part, i + 1);
    }
}

proof fn lemma_blocked_bound(q: Seq<Seq<TemporalEvent>>, part: Seq<bool>, watermark: u64, i: int)
    requires
        0 <= i <= MAX_STREAMS,
    ensures
        blocked_at(q, part, watermark, i) <= MAX_STREAMS,
    decreases MAX_STREAMS - i,
{
    if i < MAX_STREAMS && !(part[i] && !ready(q[i], watermark)) {
        lemma_blocked_bound(q, part, watermark, i + 1);
    }
}

/// How many rounds a join of the queues takes.
pub open spec fn rounds(
    q: Seq<Seq<TemporalEvent>>,
    part: Seq<bool>,
    lead: int,
    watermark: u64,
) -> nat
    decreases q[lead].len(),
{
    if !(0 <= lead < MAX_STREAMS && part[lead] && q[lead].len() > 0) || blocked_at(
        q,
        part,
        watermark,
        0,
    ) < MAX_STREAMS {
        0
    } else {
        rounds(popped(q, part, MAX_STREAMS as int), part, lead, watermark) + 1
    }
}

/// A join takes whole rounds: every participant loses its oldest event once for
/// each round and nothing else, and the other streams lose nothing.
pub proof fn law_join_takes_whole_rounds(
    q: Seq<Seq<TemporalEvent>>,
    part: Seq<bool>,
    lead: int,
    watermark: u64,
    i: int,
)
    requires
        q.len() == MAX_STREAMS,
        part.len() == MAX_STREAMS,
        0 <= i < MAX_STREAMS,
    ensures
        ({
            let n = rounds(q, part, lead, watermark) as int;
            leftover(q, part, lead, watermark)[i] == (if part[i] {
                q[i].subrange(n, q[i].len() as int)
            } else {
                q[i]
            })
        }),
        part[i] ==> rounds(q, part, lead, watermark) <= q[i].len(),
    decreases q[lead].len(),
{
    if !(0 <= lead < MAX_STREAMS && part[lead] && q[lead].len() > 0) || blocked_at(
        q,
        part,
        watermark,
        0,
    ) < MAX_STREAMS {
        assert(q[i].subrange(0, q[i].len() as int) =~= q[i]);
    } else {
        let next = popped(q, part, MAX_STREAMS as int);
        lemma_unblocked(q, part, watermark, 0);
        law_join_takes_whole_rounds(next, part, lead, watermark, i);
        if part[i] {
            assert(ready(q[i], watermark));
            let n = rounds(next, part, lead, watermark) as int;
            assert(next[i].subrange(n, next[i].len() as int) =~= q[i].subrange(
                n + 1,
                q[i].len() as int,
            ));
        }
    }
}

/// The times of a joined tuple's participants lie within the latency of each
/// other.
pub proof fn law_tuple_spread(
    q: Seq<Seq<TemporalEvent>>,
    part: Seq<bool>,
    lead: int,
    watermark: u64,
    max_latency_ns: u64,
    k: int,
    i: int,
    j: int,
)
    requires
        q.len() == MAX_STREAMS,
        part.len() == MAX_STREAMS,
        0 <= k < tuples(q, part, lead, watermark, max_latency_ns).len(),
        0 <= i < MAX_STREAMS && part[i],
        0 <= j < MAX_STREAMS && part[j],
    ensures
        ({
            let t = tuples(q, part, lead, watermark, max_latency_ns)[k];
            t[i].timestamp_ns - t[j].timestamp_ns <= max_latency_ns
        }),
    decreases q[lead].len(),
{
    let next = popped(q, part, MAX_STREAMS as int);
    let rest = tuples(next, part, lead, watermark, max_latency_ns);
    lemma_unblocked(q, part, watermark, 0);
    if consistent(q, part, max_latency_ns) && k == 0 {
        lemma_time_range(q, part, MAX_STREAMS as int, i);
        lemma_time_range(q, part, MAX_STREAMS as int, j);
        assert(tuples(q, part, lead, watermark, max_latency_ns)[0] == front(q, part));
    } else {
        let k2 = if consistent(q, part, max_latency_ns) {
            k - 1
        } else {
            k
        };
        assert(tuples(q, part, lead, watermark, max_latency_ns)[k] == rest[k2]);
        law_tuple_spread(next, part, lead, watermark, max_latency_ns, k2, i, j);
    }
}

/// A stream takes part in a join where it has a watermark or events waiting.
pub proof fn law_who_takes_part(e: StreamJoinEngine, i: int)
    requires
        e.wf(),
        0 <= i < MAX_STREAMS,
    ensures
        e.participants()[i] <==> e.buffers@[i].watermark_ns != 0 || e.queues()[i].len() > 0,
        e.queues()[i] == e.buffers@[i]@,
{
}

proof fn lemma_extremes_reached(q: Seq<Seq<TemporalEvent>>, part: Seq<bool>, n: int, lead: int)
    requires
        0 <= lead < n,
        part[lead],
    ensures
        exists|i: int| 0 <= i < n && part[i] && #[trigger] q[i][0].timestamp_ns == latest(q, part, n),
        exists|i: int|
            0 <= i < n && part[i] && #[trigger] q[i][0].timestamp_ns == earliest(q, part, n),
    decreases n,
{
    let last = n - 1;
    let here = q[last][0].timestamp_ns;
    if exists|k: int| 0 <= k < last && #[trigger] part[k] {
        let k = choose|k: int| 0 <= k < last && #[trigger] part[k];
        lemma_extremes_reached(q, part, last, k);
        let a = choose|i: int|
            0 <= i < last && part[i] && #[trigger] q[i][0].timestamp_ns == latest(q, part, last);
        let b = choose|i: int|
            0 <= i < last && part[i] && #[trigger] q[i][0].timestamp_ns == earliest(q, part, last);
        assert(q[a][0].timestamp_ns == latest(q, part, last));
        assert(q[b][0].timestamp_ns == earliest(q, part, last));
        if part[last] {
            if latest(q, part, n) != latest(q, part, last) {
                assert(q[last][0].timestamp_ns == latest(q, part, n));
            }
            if earliest(q, part, n) != earliest(q, part, last) {
                assert(q[last][0].timestamp_ns == earliest(q, part, n));
            }
        }
    } else {
        assert(lead == last);
        lemma_no_part(q, part, last);
        assert(q[last][0].timestamp_ns == latest(q, part, n));
        assert(q[last][0].timestamp_ns == earliest(q, part, n));
    }
}

proof fn lemma_no_part(q: Seq<Seq<TemporalEvent>>, part: Seq<bool>, n: int)
    requires
        0 <= n,
        forall|k: int| 0 <= k < n ==> !#[trigger] part[k],
    ensures
        latest(q, part, n) == 0,
        earliest(q, part, n) == u64::MAX,
    decreases n,
{
    if n > 0 {
        lemma_no_part(q, part, n - 1);
        assert(!part[n - 1]);
    }
}

/// Whether the events at one place of the participants' queues lie within the
/// latency of each other.
pub open spec fn close_together(
    q: Seq<Seq<TemporalEvent>>,
    part: Seq<bool>,
    place: int,
    max_latency_ns: u64,
) -> bool {
    forall|i: int, j: int|
        0 <= i < MAX_STREAMS && 0 <= j < MAX_STREAMS && part[i] && part[j]
            ==> #[trigger] q[i][place].timestamp_ns - #[trigger] q[j][place].timestamp_ns
            <= max_latency_ns
}

proof fn lemma_consistent_is_close(
    q: Seq<Seq<TemporalEvent>>,
    part: Seq<bool>,
    lead: int,
    max_latency_ns: u64,
)
    requires
        0 <= lead < MAX_STREAMS,
        part[lead],
    ensures
        consistent(q, part, max_latency_ns) == close_together(q, part, 0, max_latency_ns),
{
    let n = MAX_STREAMS as int;
    lemma_extremes_reached(q, part, n, lead);
    let a = choose|i: int|
        0 <= i < n && part[i] && #[trigger] q[i][0].timestamp_ns == latest(q, part, n);
    let b = choose|i: int|
        0 <= i < n && part[i] && #[trigger] q[i][0].timestamp_ns == earliest(q, part, n);
    if consistent(q, part, max_latency_ns) {
        assert forall|i: int, j: int|
            0 <= i < MAX_STREAMS && 0 <= j < MAX_STREAMS && part[i] && part[j] implies
            #[trigger] q[i][0].timestamp_ns - #[trigger] q[j][0].timestamp_ns
            <= max_latency_ns by {
            lemma_time_range(q, part, n, i);
            lemma_time_range(q, part, n, j);
        }
    }
    if close_together(q, part, 0, max_latency_ns) {
        assert(q[a][0].timestamp_ns - q[b][0].timestamp_ns <= max_latency_ns);
    }
}

/// Every round of a join gives a tuple where its events lie within the latency
/// of each other, and none where they do not.
pub proof fn law_close_rounds_give_tuples(
    q: Seq<Seq<TemporalEvent>>,
    part: Seq<bool>,
    lead: int,
    watermark: u64,
    max_latency_ns: u64,
    round: int,
)
    requires
        q.len() == MAX_STREAMS,
        part.len() == MAX_STREAMS,
        0 <= round < rounds(q, part, lead, watermark),
    ensures
        places(q, part, lead, watermark, max_latency_ns, 0).contains(round) <==> close_together(
            q,
            part,
            round,
            max_latency_ns,
        ),
{
    lemma_close_rounds(q, part, lead, watermark, max_latency_ns, 0, round);
}

proof fn lemma_close_rounds(
    q: Seq<Seq<TemporalEvent>>,
    part: Seq<bool>,
    lead: int,
    watermark: u64,
    max_latency_ns: u64,
    at: int,
    round: int,
)
    requires
        q.len() == MAX_STREAMS,
        part.len() == MAX_STREAMS,
        0 <= round < rounds(q, part, lead, watermark),
    ensures
        places(q, part, lead, watermark, max_latency_ns, at).contains(at + round)
            <==> close_together(q, part, round, max_latency_ns),
    decreases q[lead].len(),
{
    let next = popped(q, part, MAX_STREAMS as int);
    let rest = places(next, part, lead, watermark, max_latency_ns, at + 1);
    let all = places(q, part, lead, watermark, max_latency_ns, at);
    lemma_unblocked(q, part, watermark, 0);
    lemma_consistent_is_close(q, part, lead, max_latency_ns);
    lemma_places(next, part, lead, watermark, max_latency_ns, at + 1);
    if round == 0 {
        if consistent(q, part, max_latency_ns) {
            assert(all[0] == at);
        } else if all.contains(at) {
            let k = choose|k: int| 0 <= k < all.len() && all[k] == at;
            assert(rest[k] >= at + 1);
        }
    } else {
        lemma_close_rounds(next, part, lead, watermark, max_latency_ns, at + 1, round - 1);
        let x = at + round;
        if rest.contains(x) {
            let k = choose|k: int| 0 <= k < rest.len() && rest[k] == x;
            if consistent(q, part, max_latency_ns) {
                assert(all[k + 1] == x);
            } else {
                assert(all[k] == x);
            }
        }
        if all.contains(x) {
            let k = choose|k: int| 0 <= k < all.len() && all[k] == x;
            if consistent(q, part, max_latency_ns) {
                assert(k > 0);
                assert(rest[k - 1] == x);
            } else {
                assert(rest[k] == x);
            }
        }
        assert forall|i: int| 0 <= i < MAX_STREAMS && part[i] implies #[trigger] next[i][round - 1]
            == q[i][round] by {
            assert(ready(q[i], watermark));
            law_join_takes_whole_rounds(q, part, lead, watermark, i);
        }
        if close_together(q, part, round, max_latency_ns) {
            assert forall|i: int, j: int|
                0 <= i < MAX_STREAMS && 0 <= j < MAX_STREAMS && part[i] && part[j] implies
                #[trigger] next[i][round - 1].timestamp_ns - #[trigger] next[j][round
                - 1].timestamp_ns <= max_latency_ns by {
                assert(q[i][round].timestamp_ns - q[j][round].timestamp_ns <= max_latency_ns);
            }
        }
        if close_together(next, part, round - 1, max_latency_ns) {
            assert forall|i: int, j: int|
                0 <= i < MAX_STREAMS && 0 <= j < MAX_STREAMS && part[i] && part[j] implies
                #[trigger] q[i][round].timestamp_ns - #[trigger] q[j][round].timestamp_ns
                <= max_latency_ns by {
                assert(next[i][round - 1].timestamp_ns - next[j][round - 1].timestamp_ns
                    <= max_latency_ns);
            }
        }
    }
}

/// A join goes on as long as every participant has an event up to the
/// watermark: the round after the last one lacks such an event in one of them.
pub proof fn law_join_goes_as_far_as_ready(
    q: Seq<Seq<TemporalEvent>>,
    part: Seq<bool>,
    lead: int,
    watermark: u64,
)
    requires
        q.len() == MAX_STREAMS,
        part.len() == MAX_STREAMS,
        0 <= lead < MAX_STREAMS,
        part[lead],
    ensures
        ({
            let n = rounds(q, part, lead, watermark) as int;
            exists|i: int|
                0 <= i < MAX_STREAMS && #[trigger] part[i] && (n >= q[i].len() || q[i][n].timestamp_ns
                    > watermark)
        }),
    decreases q[lead].len(),
{
    let n = rounds(q, part, lead, watermark) as int;
    if q[lead].len() == 0 {
        assert(part[lead] && n >= q[lead].len());
    } else if blocked_at(q, part, watermark, 0) < MAX_STREAMS {
        lemma_blocked_is_unready(q, part, watermark, 0);
        let i = blocked_at(q, part, watermark, 0);
        assert(part[i] && !ready(q[i], watermark));
    } else {
        let next = popped(q, part, MAX_STREAMS as int);
        lemma_unblocked(q, part, watermark, 0);
        assert(ready(q[lead], watermark));
        law_join_goes_as_far_as_ready(next, part, lead, watermark);
        let m = rounds(next, part, lead, watermark) as int;
        let i = choose|i: int|
            0 <= i < MAX_STREAMS && #[trigger] part[i] && (m >= next[i].len()
                || next[i][m].timestamp_ns > watermark);
        assert(ready(q[i], watermark));
        assert(next[i] == q[i].subrange(1, q[i].len() as int));
        assert(part[i] && (n >= q[i].len() || q[i][n].timestamp_ns > watermark));
    }
}

proof fn lemma_blocked_is_unready(
    q: Seq<Seq<TemporalEvent>>,
    part: Seq<bool>,
    watermark: u64,
    i: int,
)
    requires
        0 <= i,
        blocked_at(q, part, watermark, i) < MAX_STREAMS,
    ensures
        ({
            let b = blocked_at(q, part, watermark, i);
            i <= b < MAX_STREAMS && part[b] && !ready(q[b], watermark)
        }),
    decreases MAX_STREAMS - i,
{
    if i < MAX_STREAMS && !(part[i] && !ready(q[i], watermark)) {
        lemma_blocked_is_unready(q, part, watermark, i + 1);
    }
}

/// The lead of a join is a participant wherever there is one.
pub proof fn law_lead_takes_part(part: Seq<bool>, i: int)
    requires
        part.len() == MAX_STREAMS,
        0 <= i < MAX_STREAMS,
        part[i],
    ensures
        0 <= first_part(part, 0) < MAX_STREAMS,
        part[first_part(part, 0)],
{
    lemma_first_part(part, 0);
}

/// A stream that takes no part stands in a tuple as no event at all.
pub proof fn law_absent_streams_are_blank(q: Seq<Seq<TemporalEvent>>, part: Seq<bool>, i: int)
    requires
        0 <= i < MAX_STREAMS,
        !part[i],
    ensures
        front(q, part)[i].timestamp_ns == 0,
        front(q, part)[i].sequence == 0,
        front(q, part)[i].quantity == 0,
        front(q, part)[i].price == 0,
{
}

} // verus!
