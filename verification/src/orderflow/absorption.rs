//! Passive absorption and exhaustion, found by holding the cumulative volume
//! delta against the price.
use crate::math;
use crate::math::{magnitude, max_i64, max_usize, min_i64, Ratio};
use crate::sorting;
use crate::sorting::{sort_stable, Keyed};
use crate::text;
use crate::text::append_i64;
use crossbeam_queue::SegQueue;
use vstd::prelude::*;
use vstd::string::*;

verus! {

/// The volume of a trade with the sign of its effect on the delta: a trade
/// whose buyer was passive counts against it.
pub open spec fn signed_volume(volume: u64, is_buyer_maker: bool) -> int {
    if is_buyer_maker {
        -(volume as i64)
    } else {
        (volume as i64) as int
    }
}

/// Cumulative volume delta with the price bar of the current period.
#[derive(Debug, Clone, Copy)]
pub struct CvdState {
    /// Running cumulative delta (ask volume - bid volume)
    pub cumulative_delta: i64,
    /// Delta for current period
    pub period_delta: i64,
    /// Number of trades in period
    pub trade_count: u32,
    pub high_price: i64,
    pub low_price: i64,
    pub open_price: i64,
    pub close_price: i64,
}

impl CvdState {
    /// The sums that a trade leads to fit their fields.
    pub open spec fn accepts(&self, volume: u64, is_buyer_maker: bool) -> bool {
        let d = signed_volume(volume, is_buyer_maker);
        &&& d <= i64::MAX
        &&& i64::MIN <= self.cumulative_delta + d <= i64::MAX
        &&& i64::MIN <= self.period_delta + d <= i64::MAX
        &&& self.trade_count < u32::MAX
    }

    /// The state after one trade.
    pub open spec fn after_trade(self, price: i64, volume: u64, is_buyer_maker: bool) -> CvdState {
        let d = signed_volume(volume, is_buyer_maker);
        CvdState {
            cumulative_delta: (self.cumulative_delta + d) as i64,
            period_delta: (self.period_delta + d) as i64,
            trade_count: (self.trade_count + 1) as u32,
            high_price: math::max_int(self.high_price as int, price as int) as i64,
            low_price: math::min_int(self.low_price as int, price as int) as i64,
            open_price: if self.open_price == 0 {
                price
            } else {
                self.open_price
            },
            close_price: price,
        }
    }

    /// The state at the start of a period: only the running delta is carried over.
    pub open spec fn fresh_period(cumulative_delta: i64) -> CvdState {
        CvdState {
            cumulative_delta,
            period_delta: 0,
            trade_count: 0,
            high_price: i64::MIN,
            low_price: i64::MAX,
            open_price: 0,
            close_price: 0,
        }
    }

    pub fn new() -> (r: Self)
        ensures
            r == CvdState::fresh_period(0),
    {
        CvdState {
            cumulative_delta: 0,
            period_delta: 0,
            trade_count: 0,
            high_price: i64::MIN,
            low_price: i64::MAX,
            open_price: 0,
            close_price: 0,
        }
    }

    pub fn add_trade(&mut self, price: i64, volume: u64, is_buyer_maker: bool)
        requires
            old(self).accepts(volume, is_buyer_maker),
        ensures
            *final(self) == old(self).after_trade(price, volume, is_buyer_maker),
    {
        let v: i64 = volume as i64;
        let delta: i64 = if is_buyer_maker {
            -v
        } else {
            v
        };
        self.cumulative_delta = self.cumulative_delta + delta;
        self.period_delta = self.period_delta + delta;
        self.trade_count = self.trade_count + 1;
        if self.open_price == 0 {
            self.open_price = price;
        }
        self.high_price = max_i64(self.high_price, price);
        self.low_price = min_i64(self.low_price, price);
        self.close_price = price;
    }

    pub fn reset_period(&mut self)
        ensures
            *final(self) == CvdState::fresh_period(old(self).cumulative_delta),
    {
        self.period_delta = 0;
        self.trade_count = 0;
        self.high_price = i64::MIN;
        self.low_price = i64::MAX;
        self.open_price = 0;
        self.close_price = 0;
    }
}

#[derive(Debug, Clone, Copy, PartialEq, Eq, Structural)]
pub enum AbsorptionType {
    /// Passive buy absorption (price not falling despite heavy selling)
    PassiveBuyAbsorption,
    /// Passive sell absorption (price not rising despite heavy buying)
    PassiveSellAbsorption,
    /// Buying exhaustion (strong buying but no price progress)
    BuyingExhaustion,
    /// Selling exhaustion (strong selling but no price decline)
    SellingExhaustion,
    /// Hidden institutional buy wall detected
    InstitutionalBuyWall,
    /// Hidden institutional sell wall detected
    InstitutionalSellWall,
}

/// How sure a detection is: a quotient that is at most one. The denominator
/// is wide enough for a multiple of any volume.
#[derive(Debug, Clone, Copy, PartialEq, Eq, Structural)]
pub struct Confidence {
    pub num: u64,
    pub den: u128,
}

/// The quotient of a delta change and a scaled volume, one where it is larger
/// than one.
pub open spec fn capped(num: int, den: int) -> Confidence {
    if num > den {
        Confidence { num: 1, den: 1 }
    } else {
        Confidence { num: num as u64, den: den as u128 }
    }
}

/// A detected absorption or exhaustion.
#[derive(Debug)]
pub struct AbsorptionEvent {
    pub event_type: AbsorptionType,
    pub timestamp_ns: u64,
    pub price: i64,
    pub confidence: Confidence,
    pub cvd_value: i64,
    pub price_change: i64,
    /// The traded volume over the volume threshold.
    pub volume_anomaly: Ratio,
    pub description: String,
}

impl Keyed for AbsorptionEvent {
    open spec fn sort_key(&self) -> int {
        self.timestamp_ns as int
    }

    fn key_at_most(&self, other: &Self) -> (r: bool) {
        self.timestamp_ns <= other.timestamp_ns
    }
}

/// What an event says, apart from its text.
#[verifier::ext_equal]
pub struct EventModel {
    pub event_type: AbsorptionType,
    pub timestamp_ns: u64,
    pub price: i64,
    pub confidence: Confidence,
    pub cvd_value: i64,
    pub price_change: i64,
    pub volume_anomaly: Ratio,
    pub description: Seq<char>,
}

impl View for AbsorptionEvent {
    type V = EventModel;

    open spec fn view(&self) -> EventModel {
        EventModel {
            event_type: self.event_type,
            timestamp_ns: self.timestamp_ns,
            price: self.price,
            confidence: self.confidence,
            cvd_value: self.cvd_value,
            price_change: self.price_change,
            volume_anomaly: self.volume_anomaly,
            description: self.description@,
        }
    }
}

/// A divergence of delta and price over the lookback, before it is told
/// whether a wall stands behind it. The confidence is the magnitude of the
/// delta change over `scale` times the volume, at most one.
#[derive(Debug, Clone, Copy, PartialEq, Eq, Structural)]
pub struct Divergence {
    pub kind: AbsorptionType,
    pub scale: u64,
}

/// The divergence shown by a delta change and a price change at a trade of
/// the given volume. Exhaustion, where it applies, takes the place of
/// absorption.
pub open spec fn divergence(cvd_change: int, price_change: int, old_price: int, volume: int)
    -> Option<Divergence> {
    let stalled = math::abs_int(price_change) < old_price / 10000;
    if cvd_change < -5 * volume && stalled {
        Some(Divergence { kind: AbsorptionType::SellingExhaustion, scale: 15 })
    } else if cvd_change > 5 * volume && stalled {
        Some(Divergence { kind: AbsorptionType::BuyingExhaustion, scale: 15 })
    } else if cvd_change > 3 * volume && price_change <= 0 {
        Some(Divergence { kind: AbsorptionType::PassiveSellAbsorption, scale: 10 })
    } else if cvd_change < -3 * volume && price_change >= 0 {
        Some(Divergence { kind: AbsorptionType::PassiveBuyAbsorption, scale: 10 })
    } else {
        None
    }
}

pub fn find_divergence(cvd_change: i64, price_change: i64, old_price: i64, volume: u64) -> (r:
    Option<Divergence>)
    requires
        5 * volume <= i64::MAX,
    ensures
        r == divergence(cvd_change as int, price_change as int, old_price as int, volume as int),
{
    let v: i64 = volume as i64;
    let stalled: bool = old_price >= 0 && magnitude(price_change) < (old_price as u64) / 10000;
    if cvd_change < -(5 * v) && stalled {
        Some(Divergence { kind: AbsorptionType::SellingExhaustion, scale: 15 })
    } else if cvd_change > 5 * v && stalled {
        Some(Divergence { kind: AbsorptionType::BuyingExhaustion, scale: 15 })
    } else if cvd_change > 3 * v && price_change <= 0 {
        Some(Divergence { kind: AbsorptionType::PassiveSellAbsorption, scale: 10 })
    } else if cvd_change < -(3 * v) && price_change >= 0 {
        Some(Divergence { kind: AbsorptionType::PassiveBuyAbsorption, scale: 10 })
    } else {
        None
    }
}

/// The text of a divergence.
pub open spec fn divergence_text(kind: AbsorptionType, cvd_change: int, price: int) -> Seq<char> {
    match kind {
        AbsorptionType::PassiveBuyAbsorption => "Passive buy absorption detected: "@
            + text::signed_decimal(-cvd_change) + " volume sold but price held at "@ + text::signed_decimal(
            price,
        ),
        AbsorptionType::PassiveSellAbsorption => "Passive sell absorption detected: "@
            + text::signed_decimal(cvd_change) + " volume bought but price capped at "@ + text::signed_decimal(
            price,
        ),
        AbsorptionType::BuyingExhaustion => "Buying exhaustion: High CVD ("@ + text::signed_decimal(
            cvd_change,
        ) + ") with no price progress"@,
        AbsorptionType::SellingExhaustion => "Selling exhaustion: Low CVD ("@ + text::signed_decimal(
            cvd_change,
        ) + ") with no price decline"@,
        AbsorptionType::InstitutionalBuyWall => Seq::empty(),
        AbsorptionType::InstitutionalSellWall => Seq::empty(),
    }
}

fn write_divergence(kind: AbsorptionType, cvd_change: i64, price: i64) -> (s: String)
    requires
        cvd_change > i64::MIN,
    ensures
        s@ == divergence_text(kind, cvd_change as int, price as int),
{
    let mut s: String = String::new();
    match kind {
        AbsorptionType::PassiveBuyAbsorption => {
            s.append("Passive buy absorption detected: ");
            append_i64(&mut s, -cvd_change);
            s.append(" volume sold but price held at ");
            append_i64(&mut s, price);
        },
        AbsorptionType::PassiveSellAbsorption => {
            s.append("Passive sell absorption detected: ");
            append_i64(&mut s, cvd_change);
            s.append(" volume bought but price capped at ");
            append_i64(&mut s, price);
        },
        AbsorptionType::BuyingExhaustion => {
            s.append("Buying exhaustion: High CVD (");
            append_i64(&mut s, cvd_change);
            s.append(") with no price progress");
        },
        AbsorptionType::SellingExhaustion => {
            s.append("Selling exhaustion: Low CVD (");
            append_i64(&mut s, cvd_change);
            s.append(") with no price decline");
        },
        AbsorptionType::InstitutionalBuyWall => {},
        AbsorptionType::InstitutionalSellWall => {},
    }
    assert(s@ =~= divergence_text(kind, cvd_change as int, price as int));
    s
}

/// The event that a trade of `volume` raises, given the lookback point.
/// A confidence above eight tenths names a wall instead.
pub open spec fn absorption_event(
    old_price: i64,
    old_cvd: i64,
    cvd_value: i64,
    price: i64,
    volume: u64,
    is_buyer_maker: bool,
    timestamp_ns: u64,
    threshold: u64,
) -> Option<EventModel> {
    let price_change = price - old_price;
    let cvd_change = cvd_value - old_cvd;
    if old_price == 0 {
        None
    } else {
        match divergence(cvd_change, price_change, old_price as int, volume as int) {
            None => None,
            Some(d) => {
                let num = math::abs_int(cvd_change);
                let den = volume * d.scale;
                let wall = num * 10 > den * 8;
                let text = divergence_text(d.kind, cvd_change, price as int);
                Some(
                    EventModel {
                        event_type: if !wall {
                            d.kind
                        } else if is_buyer_maker {
                            AbsorptionType::InstitutionalSellWall
                        } else {
                            AbsorptionType::InstitutionalBuyWall
                        },
                        timestamp_ns,
                        price,
                        confidence: capped(num, den),
                        cvd_value,
                        price_change: price_change as i64,
                        volume_anomaly: Ratio { num: volume, den: threshold },
                        description: if !wall {
                            text
                        } else if is_buyer_maker {
                            text + " - Likely institutional sell wall"@
                        } else {
                            text + " - Likely institutional buy wall"@
                        },
                    },
                )
            },
        }
    }
}

/// The differences over the lookback and the multiples of the volume that a
/// delta change is held against fit a signed word.
pub open spec fn lookback_in_range(
    old_price: i64,
    old_cvd: i64,
    cvd_value: int,
    price: i64,
    volume: u64,
) -> bool {
    old_price != 0 ==> {
        &&& i64::MIN < price - old_price <= i64::MAX
        &&& i64::MIN < cvd_value - old_cvd <= i64::MAX
        &&& 5 * volume <= i64::MAX
    }
}

/// The confidence of an event lies between zero and one, and a wall is named
/// exactly where it is above eight tenths.
pub proof fn law_confidence_is_a_share(
    old_price: i64,
    old_cvd: i64,
    cvd_value: i64,
    price: i64,
    volume: u64,
    is_buyer_maker: bool,
    timestamp_ns: u64,
    threshold: u64,
)
    requires
        lookback_in_range(old_price, old_cvd, cvd_value as int, price, volume),
    ensures
        absorption_event(
            old_price,
            old_cvd,
            cvd_value,
            price,
            volume,
            is_buyer_maker,
            timestamp_ns,
            threshold,
        ) matches Some(e) ==> {
            &&& 0 < e.confidence.num <= e.confidence.den
            &&& (e.event_type is InstitutionalBuyWall || e.event_type is InstitutionalSellWall)
                <==> e.confidence.num * 10 > e.confidence.den * 8
        },
{
    if let Some(d) = divergence(
        cvd_value - old_cvd,
        price - old_price,
        old_price as int,
        volume as int,
    ) {
        let scale = d.scale;
        assert(0 <= volume * scale <= 15 * u64::MAX) by (nonlinear_arith)
            requires
                scale <= 15,
                volume <= u64::MAX,
        ;
    }
}

/// Tells whether a trade shows absorption against a lookback point.
pub fn classify_absorption(
    old_price: i64,
    old_cvd: i64,
    cvd_value: i64,
    price: i64,
    volume: u64,
    is_buyer_maker: bool,
    timestamp_ns: u64,
    threshold: u64,
) -> (r: Option<AbsorptionEvent>)
    requires
        lookback_in_range(old_price, old_cvd, cvd_value as int, price, volume),
    ensures
        (match r {
            Some(e) => Some(e@),
            None => None,
        }) == absorption_event(
            old_price,
            old_cvd,
            cvd_value,
            price,
            volume,
            is_buyer_maker,
            timestamp_ns,
            threshold,
        ),
{
    if old_price == 0 {
        return None;
    }
    let price_change: i64 = price - old_price;
    let cvd_change: i64 = cvd_value - old_cvd;
    match find_divergence(cvd_change, price_change, old_price, volume) {
        None => None,
        Some(d) => {
            let num: u64 = magnitude(cvd_change);
            let scale: u64 = d.scale;
            assert(0 <= volume * scale <= 15 * u64::MAX) by (nonlinear_arith)
                requires
                    scale <= 15,
                    volume <= u64::MAX,
            ;
            let den: u128 = (volume as u128) * (scale as u128);
            let mut event_type: AbsorptionType = d.kind;
            let mut description: String = write_divergence(d.kind, cvd_change, price);
            if (num as u128) * 10 > den * 8 {
                if is_buyer_maker {
                    event_type = AbsorptionType::InstitutionalSellWall;
                    description.append(" - Likely institutional sell wall");
                } else {
                    event_type = AbsorptionType::InstitutionalBuyWall;
                    description.append(" - Likely institutional buy wall");
                }
            }
            let confidence: Confidence = if num as u128 > den {
                Confidence { num: 1, den: 1 }
            } else {
                Confidence { num, den }
            };
            Some(
                AbsorptionEvent {
                    event_type,
                    timestamp_ns,
                    price,
                    confidence,
                    cvd_value,
                    price_change,
                    volume_anomaly: Ratio { num: volume, den: threshold },
                    description,
                },
            )
        },
    }
}

/// A lock-free segmented queue of `crossbeam_queue`.
#[verifier::external_type_specification]
#[verifier::external_body]
#[verifier::reject_recursive_types(T)]
pub struct ExSegQueue<T>(SegQueue<T>);

/// The events waiting in a queue, oldest first.
pub uninterp spec fn waiting_events(q: SegQueue<AbsorptionEvent>) -> Seq<AbsorptionEvent>;

/// `SegQueue::new`: a new queue holds nothing.
#[verifier::external_body]
fn event_queue_new() -> (q: SegQueue<AbsorptionEvent>)
    ensures
        waiting_events(q) == Seq::<AbsorptionEvent>::empty(),
{
    SegQueue::new()
}

/// `SegQueue::push`: with no other user of the queue, the element becomes the
/// last of those waiting.
#[verifier::external_body]
fn event_queue_push(q: &mut SegQueue<AbsorptionEvent>, e: AbsorptionEvent)
    ensures
        waiting_events(*final(q)) == waiting_events(*old(q)).push(e),
{
    q.push(e)
}

/// `SegQueue::pop`: with no other user of the queue, takes the oldest element,
/// and fails only where none is waiting.
#[verifier::external_body]
fn event_queue_pop(q: &mut SegQueue<AbsorptionEvent>) -> (r: Option<AbsorptionEvent>)
    ensures
        match r {
            Some(e) => waiting_events(*old(q)).len() > 0 && e == waiting_events(*old(q))[0]
                && waiting_events(*final(q)) == waiting_events(*old(q)).subrange(
                1,
                waiting_events(*old(q)).len() as int,
            ),
            None => waiting_events(*old(q)).len() == 0 && waiting_events(*final(q))
                == waiting_events(*old(q)),
        },
{
    q.pop().ok()
}

/// Real-time absorption and exhaustion detector.
pub struct AbsorptionDetector {
    pub cvd: CvdState,
    /// (price, cumulative delta) pairs, written round and round.
    pub cvd_history: Vec<(i64, i64)>,
    /// How many pairs have been written, modulo the word size.
    pub cvd_history_idx: usize,
    /// Cumulative delta at the last period boundary.
    pub prev_cvd: i64,
    pub events_queue: SegQueue<AbsorptionEvent>,
    pub min_volume_threshold: u64,
    pub divergence_lookback: usize,
    pub events_detected: u64,
}

impl AbsorptionDetector {
    pub open spec fn wf(&self) -> bool {
        self.cvd_history.len() == math::max_int(self.divergence_lookback as int, 50)
    }

    /// The history slot that holds the point `divergence_lookback` trades back.
    pub open spec fn lookback_slot(&self) -> int {
        (self.cvd_history_idx + self.cvd_history.len() - self.divergence_lookback)
            % self.cvd_history.len() as int
    }

    pub open spec fn lookback_point(&self) -> (i64, i64) {
        self.cvd_history@[self.lookback_slot()]
    }

    /// The events waiting to be polled, oldest first.
    pub open spec fn pending(&self) -> Seq<AbsorptionEvent> {
        waiting_events(self.events_queue)
    }

    /// Create new absorption detector with configurable thresholds
    pub fn new(min_volume_threshold: u64, divergence_lookback: usize) -> (r: Self)
        ensures
            r.wf(),
            r.cvd == CvdState::fresh_period(0),
            r.cvd_history@ == Seq::new(
                math::max_int(divergence_lookback as int, 50) as nat,
                |i: int| (0i64, 0i64),
            ),
            r.cvd_history_idx == 0,
            r.prev_cvd == 0,
            r.pending().len() == 0,
            r.min_volume_threshold == min_volume_threshold,
            r.divergence_lookback == divergence_lookback,
            r.events_detected == 0,
    {
        let capacity: usize = max_usize(divergence_lookback, 50);
        let mut cvd_history: Vec<(i64, i64)> = Vec::new();
        while cvd_history.len() < capacity
            invariant
                cvd_history.len() <= capacity,
                forall|i: int| 0 <= i < cvd_history.len() ==> cvd_history@[i] == (0i64, 0i64),
            decreases capacity - cvd_history.len(),
        {
            cvd_history.push((0, 0));
        }
        AbsorptionDetector {
            cvd: CvdState::new(),
            cvd_history,
            cvd_history_idx: 0,
            prev_cvd: 0,
            events_queue: event_queue_new(),
            min_volume_threshold,
            divergence_lookback,
            events_detected: 0,
        }
    }

    /// The lookback slot as an index.
    fn lookback_index(&self) -> (r: usize)
        requires
            self.wf(),
        ensures
            r == self.lookback_slot(),
            r < self.cvd_history.len(),
    {
        let cap: usize = self.cvd_history.len();
        let gap: usize = cap - self.divergence_lookback;
        let pos: usize = self.cvd_history_idx % cap;
        proof {
            vstd::arithmetic::div_mod::lemma_add_mod_noop(
                self.cvd_history_idx as int,
                gap as int,
                cap as int,
            );
            vstd::arithmetic::div_mod::lemma_mod_twice(gap as int, cap as int);
            vstd::arithmetic::div_mod::lemma_add_mod_noop(pos as int, gap as int, cap as int);
            vstd::arithmetic::div_mod::lemma_mod_twice(self.cvd_history_idx as int, cap as int);
        }
        (pos + gap) % cap
    }

    /// The event that processing a trade would raise.
    pub open spec fn event_for(
        &self,
        price: i64,
        volume: u64,
        is_buyer_maker: bool,
        timestamp_ns: u64,
    ) -> Option<EventModel> {
        if volume >= self.min_volume_threshold {
            absorption_event(
                self.lookback_point().0,
                self.lookback_point().1,
                self.cvd.after_trade(price, volume, is_buyer_maker).cumulative_delta,
                price,
                volume,
                is_buyer_maker,
                timestamp_ns,
                self.min_volume_threshold,
            )
        } else {
            None
        }
    }

    /// No sum or difference that processing a trade forms leaves its type.
    pub open spec fn accepts(&self, price: i64, volume: u64, is_buyer_maker: bool) -> bool {
        &&& self.cvd.accepts(volume, is_buyer_maker)
        &&& volume >= self.min_volume_threshold ==> lookback_in_range(
            self.lookback_point().0,
            self.lookback_point().1,
            self.cvd.cumulative_delta + signed_volume(volume, is_buyer_maker),
            price,
            volume,
        )
    }

    /// Process a single trade
    pub fn process_trade(
        &mut self,
        price: i64,
        volume: u64,
        is_buyer_maker: bool,
        timestamp_ns: u64,
    )
        requires
            old(self).wf(),
            old(self).accepts(price, volume, is_buyer_maker),
        ensures
            final(self).wf(),
            final(self).cvd == old(self).cvd.after_trade(price, volume, is_buyer_maker),
            final(self).cvd_history@ == old(self).cvd_history@.update(
                old(self).cvd_history_idx as int % old(self).cvd_history.len() as int,
                (price, final(self).cvd.cumulative_delta),
            ),
            final(self).cvd_history_idx == old(self).cvd_history_idx.wrapping_add(1),
            final(self).prev_cvd == old(self).prev_cvd,
            final(self).min_volume_threshold == old(self).min_volume_threshold,
            final(self).divergence_lookback == old(self).divergence_lookback,
            match old(self).event_for(price, volume, is_buyer_maker, timestamp_ns) {
                Some(m) => {
                    &&& final(self).pending().len() == old(self).pending().len() + 1
                    &&& final(self).pending().drop_last() == old(self).pending()
                    &&& final(self).pending().last()@ == m
                    &&& final(self).events_detected == old(self).events_detected.wrapping_add(1)
                },
                None => {
                    &&& final(self).pending() == old(self).pending()
                    &&& final(self).events_detected == old(self).events_detected
                },
            },
    {
        let slot: usize = self.lookback_index();
        self.cvd.add_trade(price, volume, is_buyer_maker);
        let cvd_value: i64 = self.cvd.cumulative_delta;
        if volume >= self.min_volume_threshold {
            let (old_price, old_cvd) = self.cvd_history[slot];
            match classify_absorption(
                old_price,
                old_cvd,
                cvd_value,
                price,
                volume,
                is_buyer_maker,
                timestamp_ns,
                self.min_volume_threshold,
            ) {
                Some(event) => {
                    event_queue_push(&mut self.events_queue, event);
                    self.events_detected = self.events_detected.wrapping_add(1);
                    assert(self.pending().drop_last() =~= old(self).pending());
                },
                None => {},
            }
        }
        let wrapped: usize = self.cvd_history_idx % self.cvd_history.len();
        self.cvd_history_idx = self.cvd_history_idx.wrapping_add(1);
        self.cvd_history.set(wrapped, (price, cvd_value));
    }

    /// Poll for detected events
    pub fn poll_events(&mut self) -> (events: Vec<AbsorptionEvent>)
        ensures
            events@ == old(self).pending(),
            final(self).pending().len() == 0,
            *final(self) == (AbsorptionDetector {
                events_queue: final(self).events_queue,
                ..*old(self)
            }),
    {
        let ghost all = self.pending();
        let mut events: Vec<AbsorptionEvent> = Vec::new();
        let mut more: bool = true;
        proof {
            assert(Seq::<AbsorptionEvent>::empty() + all =~= all);
        }
        while more
            invariant
                events@ + self.pending() == all,
                !more ==> self.pending().len() == 0,
                self.cvd == old(self).cvd,
                self.cvd_history == old(self).cvd_history,
                self.cvd_history_idx == old(self).cvd_history_idx,
                self.prev_cvd == old(self).prev_cvd,
                self.min_volume_threshold == old(self).min_volume_threshold,
                self.divergence_lookback == old(self).divergence_lookback,
                self.events_detected == old(self).events_detected,
            decreases
                self.pending().len(),
                if more {
                    1int
                } else {
                    0
                },
        {
            let ghost before = self.pending();
            let ghost out = events@;
            match event_queue_pop(&mut self.events_queue) {
                Some(event) => {
                    events.push(event);
                    assert(out + before =~= events@ + self.pending());
                },
                None => {
                    more = false;
                },
            }
        }
        assert(events@ =~= all);
        events
    }

    /// Get current CVD value
    pub fn get_current_cvd(&self) -> (r: i64)
        ensures
            r == self.cvd.cumulative_delta,
    {
        self.cvd.cumulative_delta
    }

    /// Get current CVD state
    pub fn get_cvd_state(&self) -> (r: CvdState)
        ensures
            r == self.cvd,
    {
        self.cvd
    }

    /// Reset period (call at candle boundary)
    pub fn reset_period(&mut self)
        ensures
            final(self).cvd == CvdState::fresh_period(old(self).cvd.cumulative_delta),
            final(self).prev_cvd == old(self).cvd.cumulative_delta,
            final(self).cvd_history == old(self).cvd_history,
            final(self).cvd_history_idx == old(self).cvd_history_idx,
            final(self).events_queue == old(self).events_queue,
            final(self).min_volume_threshold == old(self).min_volume_threshold,
            final(self).divergence_lookback == old(self).divergence_lookback,
            final(self).events_detected == old(self).events_detected,
    {
        self.cvd.reset_period();
        self.prev_cvd = self.cvd.cumulative_delta;
    }

    /// The divergence of the price and the delta since the lookback point, in
    /// ten-thousandths: positive where the price fell and the delta rose,
    /// negative where the price rose and the delta fell, zero otherwise.
    pub open spec fn divergence_score(&self) -> int {
        let price_change = self.cvd.close_price - self.lookback_point().0;
        let cvd_change = self.cvd.cumulative_delta - self.lookback_point().1;
        if self.cvd_history_idx < self.divergence_lookback {
            0
        } else if price_change < 0 && cvd_change > 0 {
            math::min_int(cvd_change, 10000)
        } else if price_change > 0 && cvd_change < 0 {
            -math::min_int(-cvd_change, 10000)
        } else {
            0
        }
    }

    /// Calculate CVD divergence score, in ten-thousandths (-10000 to 10000)
    /// Positive = bullish divergence, Negative = bearish divergence
    pub fn calculate_divergence_score(&self) -> (r: i64)
        requires
            self.wf(),
        ensures
            r == self.divergence_score(),
            -10000 <= r <= 10000,
    {
        if self.cvd_history_idx < self.divergence_lookback {
            return 0;
        }
        let slot: usize = self.lookback_index();
        let (old_price, old_cvd) = self.cvd_history[slot];
        let price_change: i128 = self.cvd.close_price as i128 - old_price as i128;
        let cvd_change: i128 = self.cvd.cumulative_delta as i128 - old_cvd as i128;
        if price_change < 0 && cvd_change > 0 {
            if cvd_change < 10000 {
                cvd_change as i64
            } else {
                10000
            }
        } else if price_change > 0 && cvd_change < 0 {
            if cvd_change > -10000 {
                cvd_change as i64
            } else {
                -10000
            }
        } else {
            0
        }
    }

    /// Get total events detected count
    pub fn get_events_count(&self) -> (r: u64)
        ensures
            r == self.events_detected,
    {
        self.events_detected
    }

    /// The event of a large trade beyond the period's range: a run above the
    /// high on a positive delta, or below the low on a negative one.
    pub open spec fn sweep_event(&self, price: i64, volume: u64, timestamp_ns: u64) -> Option<
        EventModel,
    > {
        let above = price > self.cvd.high_price && self.cvd.cumulative_delta > 0;
        let below = price < self.cvd.low_price && self.cvd.cumulative_delta < 0;
        if volume < 2 * self.min_volume_threshold || !(above || below) {
            None
        } else {
            let edge = if above {
                self.cvd.high_price
            } else {
                self.cvd.low_price
            };
            Some(
                EventModel {
                    event_type: if above {
                        AbsorptionType::BuyingExhaustion
                    } else {
                        AbsorptionType::SellingExhaustion
                    },
                    timestamp_ns,
                    price,
                    confidence: Confidence { num: 7, den: 10 },
                    cvd_value: self.cvd.cumulative_delta,
                    price_change: (price - edge) as i64,
                    volume_anomaly: Ratio { num: volume, den: self.min_volume_threshold },
                    description: (if above {
                        "Potential stop run above "@
                    } else {
                        "Potential stop run below "@
                    }) + text::signed_decimal(edge as int) + ", watch for reversal"@,
                },
            )
        }
    }

    /// Detect sweep and reversal patterns
    pub fn detect_sweep_reversal(&self, price: i64, volume: u64, timestamp_ns: u64) -> (r: Option<
        AbsorptionEvent,
    >)
        requires
            2 * self.min_volume_threshold <= u64::MAX,
            price > self.cvd.high_price ==> price - self.cvd.high_price <= i64::MAX,
            price < self.cvd.low_price ==> price - self.cvd.low_price >= i64::MIN,
        ensures
            (match r {
                Some(e) => Some(e@),
                None => None,
            }) == self.sweep_event(price, volume, timestamp_ns),
    {
        if volume < self.min_volume_threshold * 2 {
            return None;
        }
        let above: bool = price > self.cvd.high_price && self.cvd.cumulative_delta > 0;
        let below: bool = price < self.cvd.low_price && self.cvd.cumulative_delta < 0;
        if !above && !below {
            return None;
        }
        let edge: i64 = if above {
            self.cvd.high_price
        } else {
            self.cvd.low_price
        };
        let mut description: String = String::new();
        if above {
            description.append("Potential stop run above ");
        } else {
            description.append("Potential stop run below ");
        }
        append_i64(&mut description, edge);
        description.append(", watch for reversal");
        proof {
            let lead = if above {
                "Potential stop run above "@
            } else {
                "Potential stop run below "@
            };
            assert(description@ =~= lead + text::signed_decimal(edge as int) + ", watch for reversal"@);
        }
        Some(
            AbsorptionEvent {
                event_type: if above {
                    AbsorptionType::BuyingExhaustion
                } else {
                    AbsorptionType::SellingExhaustion
                },
                timestamp_ns,
                price,
                confidence: Confidence { num: 7, den: 10 },
                cvd_value: self.cvd.cumulative_delta,
                price_change: price - edge,
                volume_anomaly: Ratio { num: volume, den: self.min_volume_threshold },
                description,
            },
        )
    }
}

/// One minute and one hour, in nanoseconds.
pub const MINUTE_NS: u64 = 60_000_000_000;

pub const HOUR_NS: u64 = 3_600_000_000_000;

/// Whether a period that began at `start` (zero: never) is over at `now`.
pub open spec fn period_over(start: u64, now: u64, length: u64) -> bool {
    start == 0 || now - start >= length
}

/// Multi-timeframe CVD analyzer for institutional flow detection
pub struct MultiTimeframeCvdAnalyzer {
    pub minute_cvd: AbsorptionDetector,
    pub hour_cvd: AbsorptionDetector,
    /// Last minute boundary
    pub last_minute_ns: u64,
    /// Last hour boundary
    pub last_hour_ns: u64,
}

impl MultiTimeframeCvdAnalyzer {
    pub open spec fn wf(&self) -> bool {
        self.minute_cvd.wf() && self.hour_cvd.wf()
    }

    pub fn new(min_volume: u64) -> (r: Self)
        requires
            min_volume * 10 <= u64::MAX,
        ensures
            r.wf(),
            r.minute_cvd.min_volume_threshold == min_volume,
            r.hour_cvd.min_volume_threshold == min_volume * 10,
            r.minute_cvd.divergence_lookback == 60,
            r.hour_cvd.divergence_lookback == 60,
            r.minute_cvd.cvd == CvdState::fresh_period(0),
            r.hour_cvd.cvd == CvdState::fresh_period(0),
            r.minute_cvd.pending().len() == 0,
            r.hour_cvd.pending().len() == 0,
            r.last_minute_ns == 0,
            r.last_hour_ns == 0,
    {
        MultiTimeframeCvdAnalyzer {
            minute_cvd: AbsorptionDetector::new(min_volume, 60),
            hour_cvd: AbsorptionDetector::new(min_volume * 10, 60),
            last_minute_ns: 0,
            last_hour_ns: 0,
        }
    }

    /// A detector's delta as it stands once a finished period has been closed.
    pub open spec fn rolled(cvd: CvdState, over: bool) -> CvdState {
        if over {
            CvdState::fresh_period(cvd.cumulative_delta)
        } else {
            cvd
        }
    }

    /// What `AbsorptionDetector::accepts` asks once the period has been closed.
    pub open spec fn leg_accepts(
        d: &AbsorptionDetector,
        over: bool,
        price: i64,
        volume: u64,
        is_buyer_maker: bool,
    ) -> bool {
        &&& Self::rolled(d.cvd, over).accepts(volume, is_buyer_maker)
        &&& volume >= d.min_volume_threshold ==> lookback_in_range(
            d.lookback_point().0,
            d.lookback_point().1,
            d.cvd.cumulative_delta + signed_volume(volume, is_buyer_maker),
            price,
            volume,
        )
    }

    pub fn process_trade(
        &mut self,
        price: i64,
        volume: u64,
        is_buyer_maker: bool,
        timestamp_ns: u64,
    )
        requires
            old(self).wf(),
            old(self).last_minute_ns <= timestamp_ns,
            old(self).last_hour_ns <= timestamp_ns,
            Self::leg_accepts(
                &old(self).minute_cvd,
                period_over(old(self).last_minute_ns, timestamp_ns, MINUTE_NS),
                price,
                volume,
                is_buyer_maker,
            ),
            Self::leg_accepts(
                &old(self).hour_cvd,
                period_over(old(self).last_hour_ns, timestamp_ns, HOUR_NS),
                price,
                volume,
                is_buyer_maker,
            ),
        ensures
            final(self).wf(),
            final(self).last_minute_ns == (if period_over(
                old(self).last_minute_ns,
                timestamp_ns,
                MINUTE_NS,
            ) {
                timestamp_ns
            } else {
                old(self).last_minute_ns
            }),
            final(self).last_hour_ns == (if period_over(
                old(self).last_hour_ns,
                timestamp_ns,
                HOUR_NS,
            ) {
                timestamp_ns
            } else {
                old(self).last_hour_ns
            }),
            final(self).minute_cvd.cvd == Self::rolled(
                old(self).minute_cvd.cvd,
                period_over(old(self).last_minute_ns, timestamp_ns, MINUTE_NS),
            ).after_trade(price, volume, is_buyer_maker),
            final(self).hour_cvd.cvd == Self::rolled(
                old(self).hour_cvd.cvd,
                period_over(old(self).last_hour_ns, timestamp_ns, HOUR_NS),
            ).after_trade(price, volume, is_buyer_maker),
            final(self).minute_cvd.min_volume_threshold == old(self).minute_cvd.min_volume_threshold,
            final(self).hour_cvd.min_volume_threshold == old(self).hour_cvd.min_volume_threshold,
            Self::leg_events(
                &old(self).minute_cvd,
                &final(self).minute_cvd,
                price,
                volume,
                is_buyer_maker,
                timestamp_ns,
            ),
            Self::leg_events(
                &old(self).hour_cvd,
                &final(self).hour_cvd,
                price,
                volume,
                is_buyer_maker,
                timestamp_ns,
            ),
    {
        if self.last_minute_ns == 0 || timestamp_ns - self.last_minute_ns >= MINUTE_NS {
            self.minute_cvd.reset_period();
            self.last_minute_ns = timestamp_ns;
        }
        if self.last_hour_ns == 0 || timestamp_ns - self.last_hour_ns >= HOUR_NS {
            self.hour_cvd.reset_period();
            self.last_hour_ns = timestamp_ns;
        }
        self.minute_cvd.process_trade(price, volume, is_buyer_maker, timestamp_ns);
        self.hour_cvd.process_trade(price, volume, is_buyer_maker, timestamp_ns);
    }

    /// A trade appends to a detector's queue exactly the event it raises
    /// there, and one point to its history.
    pub open spec fn leg_events(
        before: &AbsorptionDetector,
        after: &AbsorptionDetector,
        price: i64,
        volume: u64,
        is_buyer_maker: bool,
        timestamp_ns: u64,
    ) -> bool {
        &&& after.cvd_history@ == before.cvd_history@.update(
            before.cvd_history_idx as int % before.cvd_history.len() as int,
            (price, after.cvd.cumulative_delta),
        )
        &&& after.cvd_history_idx == before.cvd_history_idx.wrapping_add(1)
        &&& after.divergence_lookback == before.divergence_lookback
        &&& match before.event_for(price, volume, is_buyer_maker, timestamp_ns) {
            Some(m) => {
                &&& after.pending().len() == before.pending().len() + 1
                &&& after.pending().drop_last() == before.pending()
                &&& after.pending().last()@ == m
                &&& after.events_detected == before.events_detected.wrapping_add(1)
            },
            None => {
                &&& after.pending() == before.pending()
                &&& after.events_detected == before.events_detected
            },
        }
    }

    /// Combined divergence signal in hundred-thousandths: three tenths of the
    /// minute's score and seven tenths of the hour's.
    pub fn get_combined_signal(&self) -> (r: i64)
        requires
            self.wf(),
        ensures
            r == 3 * self.minute_cvd.divergence_score() + 7 * self.hour_cvd.divergence_score(),
    {
        let minute_div: i64 = self.minute_cvd.calculate_divergence_score();
        let hour_div: i64 = self.hour_cvd.calculate_divergence_score();
        minute_div * 3 + hour_div * 7
    }

    /// Poll all events from both timeframes
    pub fn poll_all_events(&mut self) -> (events: Vec<AbsorptionEvent>)
        ensures
            events@ == sorting::stable_sort(old(self).minute_cvd.pending() + old(self).hour_cvd.pending()),
            final(self).minute_cvd.pending().len() == 0,
            final(self).hour_cvd.pending().len() == 0,
            final(self).minute_cvd == (AbsorptionDetector {
                events_queue: final(self).minute_cvd.events_queue,
                ..old(self).minute_cvd
            }),
            final(self).hour_cvd == (AbsorptionDetector {
                events_queue: final(self).hour_cvd.events_queue,
                ..old(self).hour_cvd
            }),
            final(self).last_minute_ns == old(self).last_minute_ns,
            final(self).last_hour_ns == old(self).last_hour_ns,
    {
        let mut events: Vec<AbsorptionEvent> = self.minute_cvd.poll_events();
        let mut hour_events: Vec<AbsorptionEvent> = self.hour_cvd.poll_events();
        events.append(&mut hour_events);
        sort_stable(events)
    }
}

/// The running delta is the sum of the signed volumes: two trades move it by
/// the sum of both, in either order.
pub proof fn law_delta_commutes(
    s: CvdState,
    p1: i64,
    v1: u64,
    m1: bool,
    p2: i64,
    v2: u64,
    m2: bool,
)
    requires
        s.accepts(v1, m1),
        s.accepts(v2, m2),
        s.after_trade(p1, v1, m1).accepts(v2, m2),
        s.after_trade(p2, v2, m2).accepts(v1, m1),
    ensures
        s.after_trade(p1, v1, m1).after_trade(p2, v2, m2).cumulative_delta == s.cumulative_delta
            + signed_volume(v1, m1) + signed_volume(v2, m2),
        s.after_trade(p1, v1, m1).after_trade(p2, v2, m2).cumulative_delta == s.after_trade(
            p2,
            v2,
            m2,
        ).after_trade(p1, v1, m1).cumulative_delta,
{
}

/// The bar always spans its trades: after a trade the low is at most the
/// price, the price at most the high, and neither bound ever retreats.
pub proof fn law_bar_spans_trade(s: CvdState, price: i64, volume: u64, is_buyer_maker: bool)
    ensures
        ({
            let t = s.after_trade(price, volume, is_buyer_maker);
            t.low_price <= price <= t.high_price && t.low_price <= s.low_price && s.high_price
                <= t.high_price && t.close_price == price
        }),
{
}

/// Absorption needs a price that did not follow the delta: a trade for which
/// price and delta moved the same way, the price by at least a ten-thousandth,
/// raises no event.
pub proof fn law_confirmed_move_is_silent(
    cvd_change: int,
    price_change: int,
    old_price: int,
    volume: int,
)
    requires
        volume >= 0,
        (cvd_change > 0 && price_change > 0) || (cvd_change < 0 && price_change < 0),
        math::abs_int(price_change) >= old_price / 10000,
    ensures
        divergence(cvd_change, price_change, old_price, volume) is None,
{
}

/// The side of a divergence follows the delta: buying is absorbed or exhausted
/// only where the delta rose, selling only where it fell. Exhaustion takes more
/// than five times the volume and a price that moved less than a ten-thousandth,
/// absorption more than three times the volume and a price that did not follow.
pub proof fn law_divergence_follows_the_delta(
    cvd_change: int,
    price_change: int,
    old_price: int,
    volume: int,
)
    requires
        volume >= 0,
    ensures
        ({
            let stalled = -(old_price / 10000) < price_change < old_price / 10000;
            let kind = divergence(cvd_change, price_change, old_price, volume);
            &&& kind matches Some(d) ==> match d.kind {
                AbsorptionType::SellingExhaustion => cvd_change + 5 * volume < 0 && stalled
                    && d.scale == 15,
                AbsorptionType::BuyingExhaustion => cvd_change - 5 * volume > 0 && stalled
                    && d.scale == 15,
                AbsorptionType::PassiveBuyAbsorption => cvd_change + 3 * volume < 0
                    && price_change >= 0 && d.scale == 10,
                AbsorptionType::PassiveSellAbsorption => cvd_change - 3 * volume > 0
                    && price_change <= 0 && d.scale == 10,
                AbsorptionType::InstitutionalBuyWall => false,
                AbsorptionType::InstitutionalSellWall => false,
            }
            &&& stalled && cvd_change + 5 * volume < 0 ==> kind is Some && kind->0.kind
                == AbsorptionType::SellingExhaustion
            &&& stalled && cvd_change - 5 * volume > 0 ==> kind is Some && kind->0.kind
                == AbsorptionType::BuyingExhaustion
            &&& cvd_change + 3 * volume < 0 && price_change >= 0 && !(stalled && cvd_change + 5
                * volume < 0) ==> kind is Some && kind->0.kind
                == AbsorptionType::PassiveBuyAbsorption
            &&& cvd_change - 3 * volume > 0 && price_change <= 0 && !(stalled && cvd_change - 5
                * volume > 0) ==> kind is Some && kind->0.kind
                == AbsorptionType::PassiveSellAbsorption
        }),
{
}

/// Buying and selling are treated alike: where delta and price move the other
/// way, the other side is absorbed or exhausted, with the same scale.
pub proof fn law_divergence_mirrors(
    cvd_change: int,
    price_change: int,
    old_price: int,
    volume: int,
)
    requires
        volume >= 0,
    ensures
        ({
            let a = divergence(cvd_change, price_change, old_price, volume);
            let b = divergence(-cvd_change, -price_change, old_price, volume);
            &&& a is Some <==> b is Some
            &&& a is Some ==> a->0.scale == b->0.scale && match a->0.kind {
                AbsorptionType::PassiveBuyAbsorption => b->0.kind
                    == AbsorptionType::PassiveSellAbsorption,
                AbsorptionType::PassiveSellAbsorption => b->0.kind
                    == AbsorptionType::PassiveBuyAbsorption,
                AbsorptionType::BuyingExhaustion => b->0.kind
                    == AbsorptionType::SellingExhaustion,
                AbsorptionType::SellingExhaustion => b->0.kind == AbsorptionType::BuyingExhaustion,
                _ => false,
            }
        }),
{
}

/// The text of a divergence begins with what it is and how much was sold or
/// bought, as a number above zero where delta and kind agree, and ends with the
/// price that held.
pub proof fn law_divergence_text(kind: AbsorptionType, cvd_change: int, price: int)
    ensures
        ({
            let text = divergence_text(kind, cvd_change, price);
            let starts = |lead: Seq<char>| lead.is_prefix_of(text);
            let ends = |tail: Seq<char>| tail.is_suffix_of(text);
            &&& kind == AbsorptionType::PassiveBuyAbsorption ==> starts(
                "Passive buy absorption detected: "@ + text::signed_decimal(-cvd_change)
                    + " volume sold"@,
            ) && ends("price held at "@ + text::signed_decimal(price))
            &&& kind == AbsorptionType::PassiveSellAbsorption ==> starts(
                "Passive sell absorption detected: "@ + text::signed_decimal(cvd_change)
                    + " volume bought"@,
            ) && ends("price capped at "@ + text::signed_decimal(price))
            &&& kind == AbsorptionType::BuyingExhaustion ==> starts(
                "Buying exhaustion: High CVD ("@ + text::signed_decimal(cvd_change),
            )
            &&& kind == AbsorptionType::SellingExhaustion ==> starts(
                "Selling exhaustion: Low CVD ("@ + text::signed_decimal(cvd_change),
            )
        }),
{
    let text = divergence_text(kind, cvd_change, price);
    let p = text::signed_decimal(price);
    match kind {
        AbsorptionType::PassiveBuyAbsorption => {
            let head = "Passive buy absorption detected: "@ + text::signed_decimal(-cvd_change);
            reveal_strlit(" volume sold but price held at ");
            reveal_strlit(" volume sold");
            reveal_strlit("price held at ");
            let mid = " volume sold but price held at "@;
            assert(text =~= head + mid + p);
            assert(mid.subrange(0, 12) =~= " volume sold"@);
            assert(mid.subrange(17, 31) =~= "price held at "@);
            assert(text.subrange(0, (head + " volume sold"@).len() as int) =~= head
                + " volume sold"@) by {
                assert forall|i: int| 0 <= i < 12 implies text[head.len() + i]
                    == " volume sold"@[i] by {
                    assert(text[head.len() + i] == mid[i]);
                    assert(mid.subrange(0, 12)[i] == mid[i]);
                }
            }
            let tail = "price held at "@ + p;
            assert(text.subrange(text.len() - tail.len(), text.len() as int) =~= tail) by {
                assert forall|i: int| 0 <= i < 14 implies text[text.len() - tail.len() + i]
                    == "price held at "@[i] by {
                    assert(text[head.len() + 17 + i] == mid[17 + i]);
                    assert(mid.subrange(17, 31)[i] == mid[17 + i]);
                }
            }
        },
        AbsorptionType::PassiveSellAbsorption => {
            let head = "Passive sell absorption detected: "@ + text::signed_decimal(cvd_change);
            reveal_strlit(" volume bought but price capped at ");
            reveal_strlit(" volume bought");
            reveal_strlit("price capped at ");
            let mid = " volume bought but price capped at "@;
            assert(text =~= head + mid + p);
            assert(mid.subrange(0, 14) =~= " volume bought"@);
            assert(mid.subrange(19, 35) =~= "price capped at "@);
            assert(text.subrange(0, (head + " volume bought"@).len() as int) =~= head
                + " volume bought"@) by {
                assert forall|i: int| 0 <= i < 14 implies text[head.len() + i]
                    == " volume bought"@[i] by {
                    assert(text[head.len() + i] == mid[i]);
                    assert(mid.subrange(0, 14)[i] == mid[i]);
                }
            }
            let tail = "price capped at "@ + p;
            assert(text.subrange(text.len() - tail.len(), text.len() as int) =~= tail) by {
                assert forall|i: int| 0 <= i < 16 implies text[text.len() - tail.len() + i]
                    == "price capped at "@[i] by {
                    assert(text[head.len() + 19 + i] == mid[19 + i]);
                    assert(mid.subrange(19, 35)[i] == mid[19 + i]);
                }
            }
        },
        _ => {},
    }
}

/// A trade against which the buyer was passive lowers the deltas by its volume,
/// any other raises them as much; it counts once, and the first trade of a
/// period opens it.
pub proof fn law_trade_moves_the_delta(s: CvdState, price: i64, volume: u64, is_buyer_maker: bool)
    requires
        volume <= i64::MAX,
        s.accepts(volume, is_buyer_maker),
    ensures
        ({
            let t = s.after_trade(price, volume, is_buyer_maker);
            &&& is_buyer_maker ==> t.cumulative_delta + volume == s.cumulative_delta
                && t.period_delta + volume == s.period_delta
            &&& !is_buyer_maker ==> t.cumulative_delta == s.cumulative_delta + volume
                && t.period_delta == s.period_delta + volume
            &&& t.trade_count == s.trade_count + 1
            &&& t.high_price == s.high_price || t.high_price == price
            &&& t.low_price == s.low_price || t.low_price == price
            &&& s.open_price != 0 ==> t.open_price == s.open_price
            &&& s.open_price == 0 ==> t.open_price == price
        }),
{
}

/// A new period carries only the running delta over: its first trade is its
/// open, high, low and close.
pub proof fn law_period_begins_anew(
    delta: i64,
    price: i64,
    volume: u64,
    is_buyer_maker: bool,
)
    requires
        volume <= i64::MAX,
    ensures
        ({
            let s = CvdState::fresh_period(delta);
            let t = s.after_trade(price, volume, is_buyer_maker);
            &&& s.cumulative_delta == delta
            &&& s.period_delta == 0
            &&& t.trade_count == 1
            &&& t.open_price == price
            &&& t.high_price == price
            &&& t.low_price == price
            &&& t.close_price == price
            &&& t.period_delta == (if is_buyer_maker {
                -volume
            } else {
                volume as int
            })
        }),
{
}

/// An event tells the trade that raised it and how far the price has moved
/// since the lookback point. One is raised exactly where there is a lookback
/// point and a divergence, and a wall is named for the side that stood still.
pub proof fn law_event_tells_the_trade(
    old_price: i64,
    old_cvd: i64,
    cvd_value: i64,
    price: i64,
    volume: u64,
    is_buyer_maker: bool,
    timestamp_ns: u64,
    threshold: u64,
)
    requires
        lookback_in_range(old_price, old_cvd, cvd_value as int, price, volume),
    ensures
        ({
            let d = divergence(
                cvd_value - old_cvd,
                price - old_price,
                old_price as int,
                volume as int,
            );
            let event = absorption_event(
                old_price,
                old_cvd,
                cvd_value,
                price,
                volume,
                is_buyer_maker,
                timestamp_ns,
                threshold,
            );
            &&& event is Some <==> old_price != 0 && d is Some
            &&& event matches Some(e) ==> {
                &&& e.timestamp_ns == timestamp_ns
                &&& e.price == price
                &&& e.cvd_value == cvd_value
                &&& e.price_change == price - old_price
                &&& e.volume_anomaly.num == volume
                &&& e.volume_anomaly.den == threshold
                &&& e.event_type == d->0.kind || (if is_buyer_maker {
                    e.event_type is InstitutionalSellWall
                } else {
                    e.event_type is InstitutionalBuyWall
                })
                &&& divergence_text(
                    d->0.kind,
                    cvd_value - old_cvd,
                    price as int,
                ).is_prefix_of(e.description)
                &&& e.event_type == d->0.kind ==> e.description == divergence_text(
                    d->0.kind,
                    cvd_value - old_cvd,
                    price as int,
                )
                &&& math::abs_int(cvd_value - old_cvd) <= volume * d->0.scale
                    ==> e.confidence.num * (volume * d->0.scale) == math::abs_int(
                    cvd_value - old_cvd,
                ) * e.confidence.den
            }
        }),
{
    if let Some(d) = divergence(
        cvd_value - old_cvd,
        price - old_price,
        old_price as int,
        volume as int,
    ) {
        let scale = d.scale;
        assert(0 <= volume * scale <= 15 * u64::MAX) by (nonlinear_arith)
            requires
                scale <= 15,
                volume <= u64::MAX,
        ;
        let t = divergence_text(d.kind, cvd_value - old_cvd, price as int);
        assert(t =~= (t + " - Likely institutional sell wall"@).subrange(0, t.len() as int));
        assert(t =~= (t + " - Likely institutional buy wall"@).subrange(0, t.len() as int));
        assert(t =~= t.subrange(0, t.len() as int));
    }
}

/// Small trades raise nothing.
pub proof fn law_small_trades_are_silent(
    d: AbsorptionDetector,
    price: i64,
    volume: u64,
    is_buyer_maker: bool,
    timestamp_ns: u64,
)
    requires
        volume < d.min_volume_threshold,
    ensures
        d.event_for(price, volume, is_buyer_maker, timestamp_ns) is None,
{
}

/// Once enough trades were seen, the lookback point is the pair that was
/// written so many trades ago.
pub proof fn law_lookback_point(d: AbsorptionDetector)
    requires
        d.wf(),
        d.divergence_lookback <= d.cvd_history_idx,
    ensures
        d.lookback_point() == d.cvd_history@[(d.cvd_history_idx - d.divergence_lookback)
            % d.cvd_history.len() as int],
{
    vstd::arithmetic::div_mod::lemma_mod_add_multiples_vanish(
        d.cvd_history_idx - d.divergence_lookback,
        d.cvd_history.len() as int,
    );
}

/// The score is above zero only where the price fell against a rising delta,
/// below zero only where it rose against a falling one, and then as large as
/// the delta has moved, up to ten thousand.
pub proof fn law_score_shows_divergence(d: AbsorptionDetector)
    ensures
        ({
            let price_change = d.cvd.close_price - d.lookback_point().0;
            let cvd_change = d.cvd.cumulative_delta - d.lookback_point().1;
            let enough = d.cvd_history_idx >= d.divergence_lookback;
            let score = d.divergence_score();
            &&& score > 0 <==> enough && price_change < 0 && cvd_change > 0
            &&& score < 0 <==> enough && price_change > 0 && cvd_change < 0
            &&& -10000 <= score <= 10000
            &&& score != 0 && -10000 <= cvd_change <= 10000 ==> score == cvd_change
            &&& score != 0 && cvd_change > 10000 ==> score == 10000
            &&& score != 0 && cvd_change < -10000 ==> score == -10000
        }),
{
}

/// A sweep is a trade of at least twice the threshold beyond the range of the
/// period, up on a delta above zero or down on one below; it tells how far
/// beyond the range the price lies.
pub proof fn law_sweep_leaves_the_range(
    d: AbsorptionDetector,
    price: i64,
    volume: u64,
    timestamp_ns: u64,
)
    requires
        price > d.cvd.high_price ==> price - d.cvd.high_price <= i64::MAX,
        price < d.cvd.low_price ==> price - d.cvd.low_price >= i64::MIN,
        d.cvd.low_price <= d.cvd.high_price,
    ensures
        ({
            let s = d.sweep_event(price, volume, timestamp_ns);
            &&& s is Some <==> volume >= 2 * d.min_volume_threshold && ((price > d.cvd.high_price
                && d.cvd.cumulative_delta > 0) || (price < d.cvd.low_price
                && d.cvd.cumulative_delta < 0))
            &&& s matches Some(e) ==> {
                &&& e.price == price
                &&& e.timestamp_ns == timestamp_ns
                &&& e.cvd_value == d.cvd.cumulative_delta
                &&& e.confidence.num * 10 == 7 * e.confidence.den
                &&& price > d.cvd.high_price ==> e.event_type is BuyingExhaustion && e.price_change
                    == price - d.cvd.high_price
                &&& price < d.cvd.low_price ==> e.event_type is SellingExhaustion && e.price_change
                    == price - d.cvd.low_price
            }
        }),
{
}

/// A period is over once its length has passed, and before the first one began.
pub proof fn law_period_lasts_its_length(start: u64, now: u64, length: u64)
    ensures
        start > 0 ==> (period_over(start, now, length) <==> start + length <= now),
        period_over(0, now, length),
{
}

/// A finished period begins anew and keeps the running delta; one that is not
/// finished goes on.
pub proof fn law_rolling_keeps_the_delta(cvd: CvdState)
    ensures
        MultiTimeframeCvdAnalyzer::rolled(cvd, false) == cvd,
        MultiTimeframeCvdAnalyzer::rolled(cvd, true).cumulative_delta == cvd.cumulative_delta,
        MultiTimeframeCvdAnalyzer::rolled(cvd, true).period_delta == 0,
        MultiTimeframeCvdAnalyzer::rolled(cvd, true).trade_count == 0,
{
}

/// A trade adds at most one event to those of a timeframe, the one that it
/// raises there, and writes one point of its history.
pub proof fn law_trade_adds_its_event(
    before: AbsorptionDetector,
    after: AbsorptionDetector,
    price: i64,
    volume: u64,
    is_buyer_maker: bool,
    timestamp_ns: u64,
)
    requires
        before.wf(),
        before.cvd_history_idx < usize::MAX,
        before.events_detected < u64::MAX,
        MultiTimeframeCvdAnalyzer::leg_events(
            &before,
            &after,
            price,
            volume,
            is_buyer_maker,
            timestamp_ns,
        ),
    ensures
        ({
            let event = before.event_for(price, volume, is_buyer_maker, timestamp_ns);
            &&& event is None ==> after.pending() == before.pending() && after.events_detected
                == before.events_detected
            &&& event matches Some(m) ==> after.pending().len() > 0 && after.pending().last()@ == m
                && after.pending().drop_last() == before.pending() && after.events_detected
                == before.events_detected + 1
            &&& after.cvd_history_idx == before.cvd_history_idx + 1
            &&& after.cvd_history@[before.cvd_history_idx as int % before.cvd_history.len() as int]
                == (price, after.cvd.cumulative_delta)
            &&& volume < before.min_volume_threshold ==> after.pending() == before.pending()
        }),
{
    vstd::arithmetic::div_mod::lemma_mod_bound(
        before.cvd_history_idx as int,
        before.cvd_history.len() as int,
    );
}

} // verus!
