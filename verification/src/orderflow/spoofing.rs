//! Spoofing and layering, read from the life of orders in the book.
use crate::math::Ratio;
use std::collections::{HashMap, VecDeque};
use vstd::prelude::*;

verus! {

broadcast use vstd::std_specs::hash::group_hash_axioms;

pub const MAX_ORDER_HISTORY: usize = 10000;

/// A share of cancelled orders above this many percent indicates spoofing
pub const CANCELLATION_THRESHOLD_PCT: u128 = 85;

/// Minimum layers for layering pattern
pub const LAYER_COUNT_THRESHOLD: usize = 5;

/// How many layers are looked back on.
pub const MAX_LAYERS: usize = 10;

/// An order cancelled sooner than this after its creation is suspicious (10 ms)
pub const RAPID_CANCEL_NS: u128 = 10_000_000;

#[derive(Debug, Clone, Copy, PartialEq, Eq, Structural)]
pub enum OrderEventType {
    New,
    Cancel,
    Modify,
    Trade,
}

/// Represents a single order event.
#[derive(Debug, Clone, Copy, PartialEq, Eq, Structural)]
pub struct OrderEvent {
    pub order_id: u64,
    pub price: i64,
    pub quantity: u64,
    pub is_bid: bool,
    pub timestamp_ns: u128,
    pub event_type: OrderEventType,
}

/// Tracks order lifecycle for cancellation analysis.
#[derive(Debug, Clone, Copy, PartialEq, Eq, Structural)]
pub struct OrderLifecycle {
    pub created_ns: u128,
    pub modified_count: u32,
    pub cancelled: bool,
    pub executed: bool,
}

impl OrderLifecycle {
    pub open spec fn created(timestamp_ns: u128) -> OrderLifecycle {
        OrderLifecycle {
            created_ns: timestamp_ns,
            modified_count: 0,
            cancelled: false,
            executed: false,
        }
    }

    fn new(timestamp_ns: u128) -> (r: Self)
        ensures
            r == OrderLifecycle::created(timestamp_ns),
    {
        OrderLifecycle {
            created_ns: timestamp_ns,
            modified_count: 0,
            cancelled: false,
            executed: false,
        }
    }
}

/// The open orders after an event.
pub open spec fn orders_after(orders: Map<u64, OrderLifecycle>, event: OrderEvent) -> Map<
    u64,
    OrderLifecycle,
> {
    let id = event.order_id;
    match event.event_type {
        OrderEventType::New => orders.insert(id, OrderLifecycle::created(event.timestamp_ns)),
        OrderEventType::Cancel => orders.remove(id),
        OrderEventType::Modify => if orders.dom().contains(id) {
            orders.insert(
                id,
                OrderLifecycle {
                    modified_count: (orders[id].modified_count + 1) as u32,
                    ..orders[id]
                },
            )
        } else {
            orders
        },
        OrderEventType::Trade => if orders.dom().contains(id) {
            orders.insert(id, OrderLifecycle { executed: true, ..orders[id] })
        } else {
            orders
        },
    }
}

/// The event cancels an order that is open.
pub open spec fn cancels(orders: Map<u64, OrderLifecycle>, event: OrderEvent) -> bool {
    event.event_type == OrderEventType::Cancel && orders.dom().contains(event.order_id)
}

/// The event cancels an order that has lived less than ten milliseconds.
pub open spec fn cancels_rapidly(orders: Map<u64, OrderLifecycle>, event: OrderEvent) -> bool {
    cancels(orders, event) && event.timestamp_ns - orders[event.order_id].created_ns
        < RAPID_CANCEL_NS
}

/// More than 85 percent of the orders were cancelled.
pub open spec fn mostly_cancelled(cancelled: u64, total: u64) -> bool {
    cancelled * 100 > total * CANCELLATION_THRESHOLD_PCT
}

#[derive(Debug, Clone, Copy, PartialEq, Eq, Structural)]
pub struct SpoofingStats {
    pub cancellation_ratio: Ratio,
    pub spoofing_alerts: u64,
    pub layering_alerts: u64,
    pub active_order_count: usize,
}

/// Spoofing detector.
pub struct SpoofingDetector {
    pub order_history: VecDeque<OrderEvent>,
    pub active_orders: HashMap<u64, OrderLifecycle>,
    /// (cancelled, total)
    pub cancellation_counts: (u64, u64),
    /// Price levels for layering detection
    pub recent_layers: Vec<(i64, i64, i64)>,
    pub spoofing_alerts: u64,
    pub layering_alerts: u64,
}

pub open spec fn recent<T>(s: Seq<T>, limit: int) -> Seq<T> {
    if s.len() > limit {
        s.subrange(s.len() - limit, s.len() as int)
    } else {
        s
    }
}

impl SpoofingDetector {
    /// Orders are cancelled only while they are open, so those cancelled and
    /// those still open never outnumber those seen.
    pub open spec fn wf(&self) -> bool {
        &&& self.active_orders@.dom().finite()
        &&& self.cancellation_counts.0 + self.active_orders@.dom().len()
            <= self.cancellation_counts.1
        &&& self.order_history.len() <= MAX_ORDER_HISTORY
        &&& self.recent_layers.len() <= MAX_LAYERS
    }

    /// No counter is exhausted, and no order is cancelled before it was created.
    pub open spec fn accepts(&self, event: OrderEvent) -> bool {
        &&& self.cancellation_counts.1 < u64::MAX
        &&& self.spoofing_alerts < u64::MAX
        &&& self.layering_alerts < u64::MAX
        &&& self.active_orders@.dom().contains(event.order_id) ==> {
            &&& event.event_type == OrderEventType::Cancel
                ==> self.active_orders@[event.order_id].created_ns <= event.timestamp_ns
            &&& self.active_orders@[event.order_id].modified_count < u32::MAX
        }
    }

    pub fn new() -> (r: Self)
        ensures
            r.wf(),
            r.order_history@ == Seq::<OrderEvent>::empty(),
            r.active_orders@ == Map::<u64, OrderLifecycle>::empty(),
            r.cancellation_counts == (0u64, 0u64),
            r.recent_layers@ == Seq::<(i64, i64, i64)>::empty(),
            r.spoofing_alerts == 0,
            r.layering_alerts == 0,
    {
        SpoofingDetector {
            order_history: VecDeque::with_capacity(MAX_ORDER_HISTORY),
            active_orders: HashMap::with_capacity(1000),
            cancellation_counts: (0, 0),
            recent_layers: Vec::with_capacity(MAX_LAYERS),
            spoofing_alerts: 0,
            layering_alerts: 0,
        }
    }

    /// Process an order book event.
    /// Returns true if suspicious activity detected.
    pub fn process_event(&mut self, event: OrderEvent) -> (suspicious: bool)
        requires
            old(self).wf(),
            old(self).accepts(event),
        ensures
            final(self).wf(),
            final(self).active_orders@ == orders_after(old(self).active_orders@, event),
            final(self).cancellation_counts.0 == old(self).cancellation_counts.0 + (if cancels(
                old(self).active_orders@,
                event,
            ) {
                1int
            } else {
                0
            }),
            final(self).cancellation_counts.1 == old(self).cancellation_counts.1 + (
            if event.event_type == OrderEventType::New {
                1int
            } else {
                0
            }),
            final(self).spoofing_alerts == old(self).spoofing_alerts + (if cancels_rapidly(
                old(self).active_orders@,
                event,
            ) {
                1int
            } else {
                0
            }),
            final(self).order_history@ == recent(
                old(self).order_history@.push(event),
                MAX_ORDER_HISTORY as int,
            ),
            event.event_type != OrderEventType::New ==> final(self).recent_layers@ == old(self).recent_layers@ && final(self).layering_alerts == old(self).layering_alerts,
            event.event_type == OrderEventType::New ==> {
                &&& final(self).recent_layers@ == recent(
                    old(self).recent_layers@.push((event.price, event.price, event.price)),
                    MAX_LAYERS as int,
                )
                &&& final(self).layering_alerts == old(self).layering_alerts + (
                if final(self).recent_layers.len() >= LAYER_COUNT_THRESHOLD {
                    1int
                } else {
                    0
                })
            },
            suspicious == (cancels_rapidly(old(self).active_orders@, event) || (final(self).cancellation_counts.1 % 100 == 0 && mostly_cancelled(
                final(self).cancellation_counts.0,
                final(self).cancellation_counts.1,
            ))),
    {
        let mut suspicious: bool = false;
        let known: Option<OrderLifecycle> = match self.active_orders.get(&event.order_id) {
            Some(l) => Some(*l),
            None => None,
        };
        let ghost before = self.active_orders@;
        match event.event_type {
            OrderEventType::New => {
                self.active_orders.insert(
                    event.order_id,
                    OrderLifecycle::new(event.timestamp_ns),
                );
                self.cancellation_counts.1 = self.cancellation_counts.1 + 1;
                assert(self.active_orders@.dom() =~= before.dom().insert(event.order_id));
                self.check_layering(event.price);
            },
            OrderEventType::Cancel => {
                match known {
                    Some(lifecycle) => {
                        self.cancellation_counts.0 = self.cancellation_counts.0 + 1;
                        let lifetime_ns: u128 = event.timestamp_ns - lifecycle.created_ns;
                        if lifetime_ns < RAPID_CANCEL_NS {
                            suspicious = true;
                            self.spoofing_alerts = self.spoofing_alerts + 1;
                        }
                    },
                    None => {},
                }
                self.active_orders.remove(&event.order_id);
                assert(self.active_orders@ =~= before.remove(event.order_id));
                assert(self.active_orders@.dom() =~= before.dom().remove(event.order_id));
            },
            OrderEventType::Modify => {
                match known {
                    Some(lifecycle) => {
                        let mut changed: OrderLifecycle = lifecycle;
                        changed.modified_count = changed.modified_count + 1;
                        self.active_orders.insert(event.order_id, changed);
                        assert(self.active_orders@.dom() =~= before.dom());
                    },
                    None => {},
                }
            },
            OrderEventType::Trade => {
                match known {
                    Some(lifecycle) => {
                        let mut changed: OrderLifecycle = lifecycle;
                        changed.executed = true;
                        self.active_orders.insert(event.order_id, changed);
                        assert(self.active_orders@.dom() =~= before.dom());
                    },
                    None => {},
                }
            },
        }
        self.order_history.push_back(event);
        if self.order_history.len() > MAX_ORDER_HISTORY {
            let _ = self.order_history.pop_front();
        }
        assert(self.order_history@ =~= recent(
            old(self).order_history@.push(event),
            MAX_ORDER_HISTORY as int,
        ));
        if self.cancellation_counts.1 % 100 == 0 && self.ratio_above_threshold() {
            suspicious = true;
        }
        suspicious
    }

    /// Detect layering patterns (multiple orders at sequential price levels).
    fn check_layering(&mut self, price: i64)
        requires
            old(self).recent_layers.len() <= MAX_LAYERS,
            old(self).layering_alerts < u64::MAX,
        ensures
            final(self).recent_layers@ == recent(
                old(self).recent_layers@.push((price, price, price)),
                MAX_LAYERS as int,
            ),
            final(self).layering_alerts == old(self).layering_alerts + (if final(self).recent_layers.len() >= LAYER_COUNT_THRESHOLD {
                1int
            } else {
                0
            }),
            final(self).order_history == old(self).order_history,
            final(self).active_orders == old(self).active_orders,
            final(self).cancellation_counts == old(self).cancellation_counts,
            final(self).spoofing_alerts == old(self).spoofing_alerts,
    {
        self.recent_layers.push((price, price, price));
        if self.recent_layers.len() > MAX_LAYERS {
            let _ = self.recent_layers.remove(0);
        }
        assert(self.recent_layers@ =~= recent(
            old(self).recent_layers@.push((price, price, price)),
            MAX_LAYERS as int,
        ));
        if self.recent_layers.len() >= LAYER_COUNT_THRESHOLD {
            self.layering_alerts = self.layering_alerts + 1;
        }
    }

    /// The share of orders that were cancelled (nothing out of one before any order).
    pub open spec fn cancellation_share(&self) -> Ratio {
        if self.cancellation_counts.1 == 0 {
            Ratio { num: 0, den: 1 }
        } else {
            Ratio { num: self.cancellation_counts.0, den: self.cancellation_counts.1 }
        }
    }

    /// Get current cancellation ratio.
    pub fn get_cancellation_ratio(&self) -> (r: Ratio)
        ensures
            r == self.cancellation_share(),
    {
        if self.cancellation_counts.1 == 0 {
            return Ratio { num: 0, den: 1 };
        }
        Ratio { num: self.cancellation_counts.0, den: self.cancellation_counts.1 }
    }

    fn ratio_above_threshold(&self) -> (r: bool)
        ensures
            r == mostly_cancelled(self.cancellation_counts.0, self.cancellation_counts.1),
    {
        (self.cancellation_counts.0 as u128) * 100 > (self.cancellation_counts.1 as u128)
            * CANCELLATION_THRESHOLD_PCT
    }

    /// Check if spoofing is currently detected.
    pub fn is_spoofing_detected(&self) -> (r: bool)
        ensures
            r == (mostly_cancelled(self.cancellation_counts.0, self.cancellation_counts.1)
                || self.spoofing_alerts > 10),
    {
        self.ratio_above_threshold() || self.spoofing_alerts > 10
    }

    /// Check if layering pattern is detected.
    pub fn is_layering_detected(&self) -> (r: bool)
        ensures
            r == (self.layering_alerts > 5),
    {
        self.layering_alerts > 5
    }

    /// Get alert statistics.
    pub fn get_stats(&self) -> (r: SpoofingStats)
        ensures
            r.cancellation_ratio == self.cancellation_share(),
            r.spoofing_alerts == self.spoofing_alerts,
            r.layering_alerts == self.layering_alerts,
            r.active_order_count == self.active_orders@.dom().len(),
    {
        SpoofingStats {
            cancellation_ratio: self.get_cancellation_ratio(),
            spoofing_alerts: self.spoofing_alerts,
            layering_alerts: self.layering_alerts,
            active_order_count: self.active_orders.len(),
        }
    }

    /// Reset detector state.
    pub fn reset(&mut self)
        ensures
            final(self).wf(),
            final(self).order_history@ == Seq::<OrderEvent>::empty(),
            final(self).active_orders@ == Map::<u64, OrderLifecycle>::empty(),
            final(self).cancellation_counts == (0u64, 0u64),
            final(self).recent_layers@ == Seq::<(i64, i64, i64)>::empty(),
            final(self).spoofing_alerts == 0,
            final(self).layering_alerts == 0,
    {
        self.order_history.clear();
        self.active_orders.clear();
        self.cancellation_counts = (0, 0);
        self.recent_layers.clear();
        self.spoofing_alerts = 0;
        self.layering_alerts = 0;
    }
}

/// How many of the events are cancellations.
pub open spec fn cancel_count(events: Seq<OrderEvent>) -> nat
    decreases events.len(),
{
    if events.len() == 0 {
        0
    } else {
        cancel_count(events.drop_last()) + (if events.last().event_type == OrderEventType::Cancel {
            1nat
        } else {
            0nat
        })
    }
}

/// Counts the cancellations of a historical replay.
pub fn detect_patterns(events: &[OrderEvent]) -> (count: u64)
    ensures
        count == cancel_count(events@),
{
    let mut count: u64 = 0;
    let mut i: usize = 0;
    proof {
        assert(events@.subrange(0, 0) =~= Seq::<OrderEvent>::empty());
    }
    while i < events.len()
        invariant
            i <= events@.len(),
            count <= i,
            count == cancel_count(events@.subrange(0, i as int)),
        decreases events@.len() - i,
    {
        proof {
            let next = events@.subrange(0, i + 1);
            assert(next.drop_last() =~= events@.subrange(0, i as int));
            assert(next.last() == events@[i as int]);
        }
        if events[i].event_type == OrderEventType::Cancel {
            count = count + 1;
        }
        i = i + 1;
    }
    proof {
        assert(events@.subrange(0, i as int) =~= events@);
    }
    count
}

/// A rapid cancellation is always reported, whatever came before.
pub proof fn law_rapid_cancel_removes_order(orders: Map<u64, OrderLifecycle>, event: OrderEvent)
    requires
        cancels_rapidly(orders, event),
    ensures
        !orders_after(orders, event).dom().contains(event.order_id),
        cancels(orders, event),
{
}

/// Only new orders and cancellations change which orders are open.
pub proof fn law_modify_and_trade_keep_orders(orders: Map<u64, OrderLifecycle>, event: OrderEvent)
    requires
        event.event_type == OrderEventType::Modify || event.event_type == OrderEventType::Trade,
    ensures
        orders_after(orders, event).dom() =~= orders.dom(),
        forall|id: u64|
            orders.dom().contains(id) ==> (#[trigger] orders_after(orders, event)[id]).created_ns
                == orders[id].created_ns,
{
}

/// An event touches only the order that it names: a new one is there from now
/// on, untouched, a cancelled one is gone, a modified one has been modified once
/// more, and a traded one has been executed.
pub proof fn law_event_touches_its_order(
    orders: Map<u64, OrderLifecycle>,
    event: OrderEvent,
    other: u64,
)
    requires
        orders.dom().contains(event.order_id) ==> orders[event.order_id].modified_count < u32::MAX,
    ensures
        ({
            let after = orders_after(orders, event);
            let id = event.order_id;
            let known = orders.dom().contains(id);
            &&& other != id ==> (after.dom().contains(other) <==> orders.dom().contains(other))
            &&& other != id && orders.dom().contains(other) ==> after[other] == orders[other]
            &&& event.event_type == OrderEventType::New ==> after.dom().contains(id)
                && after[id].created_ns == event.timestamp_ns && after[id].modified_count == 0
                && !after[id].cancelled && !after[id].executed
            &&& event.event_type == OrderEventType::Cancel ==> !after.dom().contains(id)
            &&& event.event_type == OrderEventType::Modify && known ==> after[id].modified_count
                == orders[id].modified_count + 1 && after[id].executed == orders[id].executed
                && after[id].cancelled == orders[id].cancelled
            &&& event.event_type == OrderEventType::Trade && known ==> after[id].executed
                && after[id].modified_count == orders[id].modified_count && after[id].cancelled
                == orders[id].cancelled
            &&& (event.event_type == OrderEventType::Modify || event.event_type
                == OrderEventType::Trade) && !known ==> after == orders
        }),
{
}

/// An order is cancelled rapidly where it is cancelled less than ten
/// milliseconds after it was created.
pub proof fn law_rapid_is_ten_milliseconds(orders: Map<u64, OrderLifecycle>, event: OrderEvent)
    ensures
        cancels_rapidly(orders, event) <==> {
            &&& event.event_type == OrderEventType::Cancel
            &&& orders.dom().contains(event.order_id)
            &&& event.timestamp_ns < orders[event.order_id].created_ns + 10_000_000
        },
{
}

/// Orders are mostly cancelled where more than seventeen of twenty are; with
/// more cancelled, or fewer in all, they still are.
pub proof fn law_mostly_means_seventeen_of_twenty(
    cancelled: u64,
    total: u64,
    more: u64,
    fewer: u64,
)
    ensures
        mostly_cancelled(cancelled, total) <==> 20 * cancelled > 17 * total,
        mostly_cancelled(cancelled, total) && more >= cancelled && fewer <= total
            ==> mostly_cancelled(more, fewer),
{
}

/// The cancellation ratio is the cancelled orders over all, and nothing before
/// the first.
pub proof fn law_cancellation_ratio(d: SpoofingDetector)
    ensures
        d.cancellation_share().den > 0,
        d.cancellation_counts.1 > 0 ==> d.cancellation_share().num * d.cancellation_counts.1
            == d.cancellation_counts.0 * d.cancellation_share().den,
        d.cancellation_counts.1 == 0 ==> d.cancellation_share().num == 0,
{
}

/// Of a history that is too long, the newest part of the full length is kept.
pub proof fn law_history_keeps_newest<T>(s: Seq<T>, limit: int)
    requires
        limit >= 0,
    ensures
        s.len() <= limit ==> recent(s, limit).len() == s.len(),
        s.len() > limit ==> recent(s, limit).len() == limit,
        recent(s, limit) == s.subrange(s.len() - recent(s, limit).len(), s.len() as int),
{
    assert(s =~= s.subrange(0, s.len() as int));
}

/// Cancellations of two histories in a row are those of both, each counted once.
pub proof fn law_cancellations_count_each(s: Seq<OrderEvent>, t: Seq<OrderEvent>, x: OrderEvent)
    ensures
        cancel_count(s + t) == cancel_count(s) + cancel_count(t),
        cancel_count(seq![x]) == (if x.event_type == OrderEventType::Cancel {
            1nat
        } else {
            0
        }),
    decreases t.len(),
{
    assert(seq![x].drop_last() =~= Seq::<OrderEvent>::empty());
    reveal_with_fuel(cancel_count, 2);
    if t.len() == 0 {
        assert(s + t =~= s);
    } else {
        law_cancellations_count_each(s, t.drop_last(), x);
        assert((s + t).drop_last() =~= s + t.drop_last());
    }
}

} // verus!
