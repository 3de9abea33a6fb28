//! Footprint charts: bid and ask volume at every price level of a cluster.
use crate::math;
use crate::math::{div_trunc, max_i64, min_i64, SignedRatio};
use crate::sorting;
use crate::sorting::{sort_stable, Keyed};
use crossbeam_queue::SegQueue;
use dashmap::DashMap;
use vstd::prelude::*;

verus! {

/// Represents a single price level in the footprint chart
#[derive(Debug, Clone, Copy, PartialEq, Eq, Structural)]
pub struct PriceLevel {
    pub price: i64,
    pub bid_volume: u64,
    pub ask_volume: u64,
    pub delta: i64,
    pub total_volume: u64,
    pub trade_count: u32,
    pub timestamp_ns: u64,
}

pub open spec fn saturating_u64(a: int) -> u64 {
    math::min_int(a, u64::MAX as int) as u64
}

/// The difference of two volumes read as signed words.
pub open spec fn volume_delta(bid_volume: u64, ask_volume: u64) -> int {
    (ask_volume as i64) - (bid_volume as i64)
}

impl PriceLevel {
    /// The volumes at this level after one more trade.
    pub open spec fn volumes_after(self, volume: u64, is_buyer_maker: bool) -> (u64, u64) {
        if is_buyer_maker {
            (saturating_u64(self.bid_volume + volume), self.ask_volume)
        } else {
            (self.bid_volume, saturating_u64(self.ask_volume + volume))
        }
    }

    pub fn new(price: i64) -> (r: Self)
        ensures
            r == (PriceLevel {
                price,
                bid_volume: 0,
                ask_volume: 0,
                delta: 0,
                total_volume: 0,
                trade_count: 0,
                timestamp_ns: 0,
            }),
    {
        PriceLevel {
            price,
            bid_volume: 0,
            ask_volume: 0,
            delta: 0,
            total_volume: 0,
            trade_count: 0,
            timestamp_ns: 0,
        }
    }

    pub fn add_trade(&mut self, volume: u64, is_buyer_maker: bool, timestamp_ns: u64)
        requires
            ({
                let (bid, ask) = old(self).volumes_after(volume, is_buyer_maker);
                i64::MIN <= volume_delta(bid, ask) <= i64::MAX
            }),
        ensures
            ({
                let (bid, ask) = old(self).volumes_after(volume, is_buyer_maker);
                *final(self) == PriceLevel {
                    price: old(self).price,
                    bid_volume: bid,
                    ask_volume: ask,
                    delta: volume_delta(bid, ask) as i64,
                    total_volume: saturating_u64(old(self).total_volume + volume),
                    trade_count: math::min_int(old(self).trade_count + 1, u32::MAX as int) as u32,
                    timestamp_ns,
                }
            }),
    {
        if is_buyer_maker {
            self.bid_volume = self.bid_volume.saturating_add(volume);
        } else {
            self.ask_volume = self.ask_volume.saturating_add(volume);
        }
        self.total_volume = self.total_volume.saturating_add(volume);
        self.trade_count = self.trade_count.saturating_add(1);
        self.delta = self.ask_volume as i64 - self.bid_volume as i64;
        self.timestamp_ns = timestamp_ns;
    }

    /// Buying pressure (positive) or selling pressure (negative) as a share of
    /// the total volume.
    pub open spec fn imbalance(self) -> SignedRatio {
        if self.total_volume == 0 {
            SignedRatio { num: 0, den: 1 }
        } else {
            SignedRatio {
                num: (self.ask_volume - self.bid_volume) as i128,
                den: self.total_volume,
            }
        }
    }

    /// Calculate imbalance ratio (positive = buying pressure, negative = selling pressure)
    pub fn imbalance_ratio(&self) -> (r: SignedRatio)
        ensures
            r == self.imbalance(),
    {
        if self.total_volume == 0 {
            return SignedRatio { num: 0, den: 1 };
        }
        SignedRatio {
            num: self.ask_volume as i128 - self.bid_volume as i128,
            den: self.total_volume,
        }
    }
}

impl Keyed for PriceLevel {
    open spec fn sort_key(&self) -> int {
        self.price as int
    }

    fn key_at_most(&self, other: &Self) -> (r: bool) {
        self.price <= other.price
    }
}

/// Footprint of a single cluster. The imbalance bounds are absent while no
/// level has been seen.
#[derive(Debug)]
pub struct FootprintCluster {
    pub start_time_ns: u64,
    pub end_time_ns: u64,
    pub high_price: i64,
    pub low_price: i64,
    pub open_price: i64,
    pub close_price: i64,
    pub levels: Vec<PriceLevel>,
    pub total_bid_volume: u64,
    pub total_ask_volume: u64,
    pub cumulative_delta: i64,
    pub max_imbalance: Option<SignedRatio>,
    pub min_imbalance: Option<SignedRatio>,
}

impl FootprintCluster {
    /// Nothing has been recorded yet.
    pub open spec fn is_fresh(&self) -> bool {
        &&& self.start_time_ns == 0
        &&& self.end_time_ns == 0
        &&& self.high_price == i64::MIN
        &&& self.low_price == i64::MAX
        &&& self.open_price == 0
        &&& self.close_price == 0
        &&& self.levels.len() == 0
        &&& self.total_bid_volume == 0
        &&& self.total_ask_volume == 0
        &&& self.cumulative_delta == 0
        &&& self.max_imbalance is None
        &&& self.min_imbalance is None
    }

    /// The times and prices after one more trade: the first trade starts and
    /// opens the cluster, and the bounds span every price.
    pub open spec fn spans_trade(&self, before: FootprintCluster, tick: i64, now: u64) -> bool {
        &&& self.start_time_ns == (if before.start_time_ns == 0 {
            now
        } else {
            before.start_time_ns
        })
        &&& self.open_price == (if before.start_time_ns == 0 {
            tick
        } else {
            before.open_price
        })
        &&& self.end_time_ns == now
        &&& self.close_price == tick
        &&& self.high_price == math::max_int(before.high_price as int, tick as int)
        &&& self.low_price == math::min_int(before.low_price as int, tick as int)
    }

    /// The levels and what is summed over them are those of another cluster.
    pub open spec fn same_sums(&self, other: FootprintCluster) -> bool {
        &&& self.levels == other.levels
        &&& self.total_bid_volume == other.total_bid_volume
        &&& self.total_ask_volume == other.total_ask_volume
        &&& self.cumulative_delta == other.cumulative_delta
        &&& self.max_imbalance == other.max_imbalance
        &&& self.min_imbalance == other.min_imbalance
    }

    /// The totals and the imbalance bounds are those of the levels.
    pub open spec fn sums_levels(&self) -> bool {
        &&& self.total_bid_volume == math::sum_of(bids(self.levels@))
        &&& self.total_ask_volume == math::sum_of(asks(self.levels@))
        &&& self.cumulative_delta == math::sum_of(deltas(self.levels@))
        &&& self.max_imbalance == largest_imbalance(self.levels@)
        &&& self.min_imbalance == smallest_imbalance(self.levels@)
    }

    pub fn new() -> (r: Self)
        ensures
            r.is_fresh(),
    {
        FootprintCluster {
            start_time_ns: 0,
            end_time_ns: 0,
            high_price: i64::MIN,
            low_price: i64::MAX,
            open_price: 0,
            close_price: 0,
            levels: Vec::with_capacity(256),
            total_bid_volume: 0,
            total_ask_volume: 0,
            cumulative_delta: 0,
            max_imbalance: None,
            min_imbalance: None,
        }
    }

    pub fn update_price_bounds(&mut self, price: i64)
        ensures
            final(self).high_price == math::max_int(old(self).high_price as int, price as int),
            final(self).low_price == math::min_int(old(self).low_price as int, price as int),
            final(self).start_time_ns == old(self).start_time_ns,
            final(self).end_time_ns == old(self).end_time_ns,
            final(self).open_price == old(self).open_price,
            final(self).close_price == old(self).close_price,
            final(self).levels == old(self).levels,
            final(self).total_bid_volume == old(self).total_bid_volume,
            final(self).total_ask_volume == old(self).total_ask_volume,
            final(self).cumulative_delta == old(self).cumulative_delta,
            final(self).max_imbalance == old(self).max_imbalance,
            final(self).min_imbalance == old(self).min_imbalance,
    {
        self.high_price = max_i64(self.high_price, price);
        self.low_price = min_i64(self.low_price, price);
    }
}

/// Bid volume in the upper half of a word, ask volume in the lower.
pub open spec fn packed(bid: u64, ask: u64) -> u64 {
    (bid << 32) | ask
}

pub open spec fn packed_bid(word: u64) -> u64 {
    word >> 32
}

pub open spec fn packed_ask(word: u64) -> u64 {
    word & 0xFFFF_FFFF
}

/// The volume of the side that a trade adds to.
pub open spec fn packed_side(word: u64, is_buyer_maker: bool) -> u64 {
    if is_buyer_maker {
        packed_bid(word)
    } else {
        packed_ask(word)
    }
}

/// Volumes that fit half a word come back from the word they were packed in.
pub proof fn law_packing_round_trip(bid: u64, ask: u64)
    requires
        bid < 0x1_0000_0000,
        ask < 0x1_0000_0000,
    ensures
        packed_bid(packed(bid, ask)) == bid,
        packed_ask(packed(bid, ask)) == ask,
{
    assert((((bid << 32) | ask) >> 32) == bid && (((bid << 32) | ask) & 0xFFFF_FFFF) == ask)
        by (bit_vector)
        requires
            bid < 0x1_0000_0000,
            ask < 0x1_0000_0000,
    ;
}

proof fn lemma_packed_halves(word: u64)
    ensures
        packed_bid(word) < 0x1_0000_0000,
        packed_ask(word) < 0x1_0000_0000,
{
    assert((word >> 32) < 0x1_0000_0000 && (word & 0xFFFF_FFFF) < 0x1_0000_0000) by (bit_vector);
}

/// A trade at a whole number of ticks.
pub struct TickTrade {
    pub tick: i64,
    pub quantity: u64,
    pub is_buyer_maker: bool,
}

/// The packed word at a price, zero where nothing traded yet.
pub open spec fn word_of(words: Map<i64, u64>, tick: i64) -> u64 {
    if words.dom().contains(tick) {
        words[tick]
    } else {
        0
    }
}

/// The packed words after one more trade, which adds to one side of its level.
pub open spec fn words_after(words: Map<i64, u64>, t: TickTrade) -> Map<i64, u64> {
    let word = word_of(words, t.tick);
    words.insert(
        t.tick,
        if t.is_buyer_maker {
            packed((packed_bid(word) + t.quantity) as u64, packed_ask(word))
        } else {
            packed(packed_bid(word), (packed_ask(word) + t.quantity) as u64)
        },
    )
}

/// The packed words that a run of trades makes of none.
pub open spec fn words_of_run(trades: Seq<TickTrade>) -> Map<i64, u64>
    decreases trades.len(),
{
    if trades.len() == 0 {
        no_words()
    } else {
        words_after(words_of_run(trades.drop_last()), trades.last())
    }
}

/// What a run of trades moves on one side of a level.
pub open spec fn traded(trades: Seq<TickTrade>, tick: i64, is_buyer_maker: bool) -> nat
    decreases trades.len(),
{
    if trades.len() == 0 {
        0
    } else {
        let t = trades.last();
        traded(trades.drop_last(), tick, is_buyer_maker) + (if t.tick == tick && t.is_buyer_maker
            == is_buyer_maker {
            t.quantity as nat
        } else {
            0
        })
    }
}

/// Whether a run of trades touches a level.
pub open spec fn touches(trades: Seq<TickTrade>, tick: i64) -> bool {
    exists|i: int| 0 <= i < trades.len() && (#[trigger] trades[i]).tick == tick
}

/// After a run of trades there is a level for each price that traded and no
/// other, and it holds the sums of its bid and of its ask volumes, as long as
/// each of the two fits half a word.
pub proof fn law_levels_hold_the_sums(trades: Seq<TickTrade>, tick: i64)
    requires
        traded(trades, tick, true) < 0x1_0000_0000,
        traded(trades, tick, false) < 0x1_0000_0000,
    ensures
        words_of_run(trades).dom().contains(tick) <==> touches(trades, tick),
        ({
            let bid = traded(trades, tick, true);
            let ask = traded(trades, tick, false);
            let level = level_of(tick, word_of(words_of_run(trades), tick));
            &&& word_of(words_of_run(trades), tick) == packed(bid as u64, ask as u64)
            &&& level.bid_volume == bid
            &&& level.ask_volume == ask
            &&& level.delta == ask - bid
            &&& level.total_volume == bid + ask
        }),
    decreases trades.len(),
{
    let bid = traded(trades, tick, true);
    let ask = traded(trades, tick, false);
    if trades.len() == 0 {
        assert(packed(0, 0) == 0) by (bit_vector);
    } else {
        let rest = trades.drop_last();
        law_levels_hold_the_sums(rest, tick);
        law_packing_round_trip(
            traded(rest, tick, true) as u64,
            traded(rest, tick, false) as u64,
        );
        if touches(rest, tick) {
            let i = choose|i: int| 0 <= i < rest.len() && (#[trigger] rest[i]).tick == tick;
            assert(trades[i].tick == tick);
        }
        if touches(trades, tick) && trades.last().tick != tick {
            let i = choose|i: int| 0 <= i < trades.len() && (#[trigger] trades[i]).tick == tick;
            assert(rest[i].tick == tick);
        }
        assert(trades[trades.len() - 1] == trades.last());
    }
    law_packing_round_trip(bid as u64, ask as u64);
}

/// So a cluster finished after a run of trades lists, for each price that
/// traded, the sums of its bid and of its ask volumes.
pub proof fn law_listed_levels_hold_the_sums(
    trades: Seq<TickTrade>,
    levels: Seq<PriceLevel>,
    i: int,
)
    requires
        lists_levels(words_of_run(trades), levels),
        0 <= i < levels.len(),
        traded(trades, levels[i].price, true) < 0x1_0000_0000,
        traded(trades, levels[i].price, false) < 0x1_0000_0000,
    ensures
        touches(trades, levels[i].price),
        levels[i].bid_volume == traded(trades, levels[i].price, true),
        levels[i].ask_volume == traded(trades, levels[i].price, false),
        levels[i].delta == levels[i].ask_volume - levels[i].bid_volume,
        levels[i].total_volume == levels[i].bid_volume + levels[i].ask_volume,
{
    law_levels_hold_the_sums(trades, levels[i].price);
}

/// The level that a packed word stands for.
pub open spec fn level_of(price: i64, word: u64) -> PriceLevel {
    PriceLevel {
        price,
        bid_volume: packed_bid(word),
        ask_volume: packed_ask(word),
        delta: (packed_ask(word) - packed_bid(word)) as i64,
        total_volume: (packed_bid(word) + packed_ask(word)) as u64,
        trade_count: 0,
        timestamp_ns: 0,
    }
}

/// The levels of a map of packed words: each once, in rising price order.
pub open spec fn lists_levels(words: Map<i64, u64>, levels: Seq<PriceLevel>) -> bool {
    &&& forall|i: int, j: int|
        0 <= i < j < levels.len() ==> (#[trigger] levels[i]).price < (#[trigger] levels[j]).price
    &&& forall|i: int|
        0 <= i < levels.len() ==> words.dom().contains((#[trigger] levels[i]).price) && levels[i]
            == level_of(levels[i].price, words[levels[i].price])
    &&& forall|p: i64| #[trigger]
        words.dom().contains(p) ==> levels.contains(level_of(p, words[p]))
}

pub open spec fn bids(levels: Seq<PriceLevel>) -> Seq<int> {
    levels.map_values(|l: PriceLevel| l.bid_volume as int)
}

pub open spec fn asks(levels: Seq<PriceLevel>) -> Seq<int> {
    levels.map_values(|l: PriceLevel| l.ask_volume as int)
}

pub open spec fn deltas(levels: Seq<PriceLevel>) -> Seq<int> {
    levels.map_values(|l: PriceLevel| l.delta as int)
}

/// The largest imbalance among the levels, the first where several are equal.
pub open spec fn largest_imbalance(levels: Seq<PriceLevel>) -> Option<SignedRatio>
    decreases levels.len(),
{
    if levels.len() == 0 {
        None
    } else {
        match largest_imbalance(levels.drop_last()) {
            None => Some(levels.last().imbalance()),
            Some(m) => if math::ratio_above(levels.last().imbalance(), m) {
                Some(levels.last().imbalance())
            } else {
                Some(m)
            },
        }
    }
}

/// The smallest imbalance among the levels, the first where several are equal.
pub open spec fn smallest_imbalance(levels: Seq<PriceLevel>) -> Option<SignedRatio>
    decreases levels.len(),
{
    if levels.len() == 0 {
        None
    } else {
        match smallest_imbalance(levels.drop_last()) {
            None => Some(levels.last().imbalance()),
            Some(m) => if math::ratio_above(m, levels.last().imbalance()) {
                Some(levels.last().imbalance())
            } else {
                Some(m)
            },
        }
    }
}

/// Volumes are small enough for sums and cross-products to stay exact.
spec fn narrow(l: PriceLevel) -> bool {
    &&& l.bid_volume < 0x1_0000_0000
    &&& l.ask_volume < 0x1_0000_0000
    &&& l.total_volume == l.bid_volume + l.ask_volume
    &&& l.delta == l.ask_volume - l.bid_volume
}

spec fn narrow_ratio(r: SignedRatio) -> bool {
    -0x1_0000_0000 < r.num < 0x1_0000_0000 && 0 < r.den < 0x2_0000_0000
}

fn above(a: SignedRatio, b: SignedRatio) -> (r: bool)
    requires
        narrow_ratio(a),
        narrow_ratio(b),
    ensures
        r == math::ratio_above(a, b),
{
    assert(-0x4_0000_0000_0000_0000 < a.num * b.den < 0x4_0000_0000_0000_0000) by (nonlinear_arith)
        requires
            -0x1_0000_0000 < a.num < 0x1_0000_0000,
            0 < b.den < 0x2_0000_0000,
    ;
    assert(-0x4_0000_0000_0000_0000 < b.num * a.den < 0x4_0000_0000_0000_0000) by (nonlinear_arith)
        requires
            -0x1_0000_0000 < b.num < 0x1_0000_0000,
            0 < a.den < 0x2_0000_0000,
    ;
    a.num * (b.den as i128) > b.num * (a.den as i128)
}

/// A sharded concurrent hash map of `dashmap`.
#[verifier::external_type_specification]
#[verifier::external_body]
#[verifier::reject_recursive_types(K)]
#[verifier::reject_recursive_types(V)]
#[verifier::reject_recursive_types(S)]
pub struct ExDashMap<K, V, S>(DashMap<K, V, S>);

/// The packed volumes by price that a map holds.
pub uninterp spec fn level_words(m: DashMap<i64, u64>) -> Map<i64, u64>;

pub open spec fn no_words() -> Map<i64, u64> {
    Map::empty()
}

/// `DashMap::with_capacity`: a new map holds nothing.
#[verifier::external_body]
fn levels_with_capacity(capacity: usize) -> (m: DashMap<i64, u64>)
    requires
        capacity <= 0x10_0000,
    ensures
        level_words(m) == no_words(),
{
    DashMap::with_capacity(capacity)
}

/// `DashMap::get`: the value stored under a key, where there is one.
#[verifier::external_body]
fn levels_get(m: &DashMap<i64, u64>, price: i64) -> (r: Option<u64>)
    ensures
        r == (if level_words(*m).dom().contains(price) {
            Some(level_words(*m)[price])
        } else {
            None
        }),
{
    m.get(&price).map(|entry| *entry.value())
}

/// `DashMap::insert`: stores a value under a key, in place of an older one.
#[verifier::external_body]
fn levels_insert(m: &mut DashMap<i64, u64>, price: i64, word: u64)
    ensures
        level_words(*final(m)) == level_words(*old(m)).insert(price, word),
{
    m.insert(price, word);
}

/// `DashMap::iter`: walks over every entry once, in an order that is left open.
#[verifier::external_body]
fn levels_entries(m: &DashMap<i64, u64>) -> (r: Vec<(i64, u64)>)
    ensures
        forall|i: int, j: int|
            0 <= i < j < r.len() ==> (#[trigger] r@[i]).0 != (#[trigger] r@[j]).0,
        forall|i: int|
            0 <= i < r.len() ==> level_words(*m).dom().contains((#[trigger] r@[i]).0) && r@[i].1
                == level_words(*m)[r@[i].0],
        forall|p: i64| #[trigger]
            level_words(*m).dom().contains(p) ==> r@.contains((p, level_words(*m)[p])),
{
    m.iter().map(|entry| (*entry.key(), *entry.value())).collect()
}

/// `DashMap::clear`: removes every entry.
#[verifier::external_body]
fn levels_clear(m: &mut DashMap<i64, u64>)
    ensures
        level_words(*final(m)) == no_words(),
{
    m.clear()
}

/// The finished clusters waiting in a queue, oldest first.
pub uninterp spec fn waiting_clusters(q: SegQueue<FootprintCluster>) -> Seq<FootprintCluster>;

/// `SegQueue::new`: a new queue holds nothing.
#[verifier::external_body]
fn cluster_queue_new() -> (q: SegQueue<FootprintCluster>)
    ensures
        waiting_clusters(q) == Seq::<FootprintCluster>::empty(),
{
    SegQueue::new()
}

/// `SegQueue::push`: with no other user of the queue, the element becomes the
/// last of those waiting.
#[verifier::external_body]
fn cluster_queue_push(q: &mut SegQueue<FootprintCluster>, c: FootprintCluster)
    ensures
        waiting_clusters(*final(q)) == waiting_clusters(*old(q)).push(c),
{
    q.push(c)
}

/// `SegQueue::pop`: with no other user of the queue, takes the oldest element,
/// and fails only where none is waiting.
#[verifier::external_body]
fn cluster_queue_pop(q: &mut SegQueue<FootprintCluster>) -> (r: Option<FootprintCluster>)
    ensures
        match r {
            Some(c) => waiting_clusters(*old(q)).len() > 0 && c == waiting_clusters(*old(q))[0]
                && waiting_clusters(*final(q)) == waiting_clusters(*old(q)).subrange(
                1,
                waiting_clusters(*old(q)).len() as int,
            ),
            None => waiting_clusters(*old(q)).len() == 0 && waiting_clusters(*final(q))
                == waiting_clusters(*old(q)),
        },
{
    q.pop().ok()
}

/// Builds the levels of a map of packed words in rising price order.
fn collect_levels(m: &DashMap<i64, u64>) -> (levels: Vec<PriceLevel>)
    ensures
        lists_levels(level_words(*m), levels@),
        forall|i: int| 0 <= i < levels.len() ==> narrow(#[trigger] levels@[i]),
{
    let ghost words = level_words(*m);
    let entries: Vec<(i64, u64)> = levels_entries(m);
    let mut found: Vec<PriceLevel> = Vec::with_capacity(entries.len());
    let mut i: usize = 0;
    while i < entries.len()
        invariant
            i <= entries.len(),
            found.len() == i,
            forall|k: int|
                0 <= k < i ==> #[trigger] found@[k] == level_of(entries@[k].0, entries@[k].1),
        decreases entries.len() - i,
    {
        let (price, word) = entries[i];
        proof {
            lemma_packed_halves(word);
        }
        let bid_vol: u64 = word >> 32;
        let ask_vol: u64 = word & 0xFFFF_FFFF;
        let mut level: PriceLevel = PriceLevel::new(price);
        level.bid_volume = bid_vol;
        level.ask_volume = ask_vol;
        level.total_volume = bid_vol + ask_vol;
        level.delta = ask_vol as i64 - bid_vol as i64;
        found.push(level);
        i = i + 1;
    }
    let ghost before = found@;
    let levels: Vec<PriceLevel> = sort_stable(found);
    proof {
        broadcast use vstd::seq_lib::group_to_multiset_ensures;

        sorting::lemma_stable_sort(before);
        assert(before.no_duplicates()) by {
            assert forall|a: int, b: int|
                0 <= a < before.len() && 0 <= b < before.len() && a != b implies before[a]
                != before[b] by {
                assert(entries@[a].0 != entries@[b].0);
            }
        }
        before.lemma_multiset_has_no_duplicates();
        assert(levels@.to_multiset() =~= before.to_multiset());
        levels@.lemma_multiset_has_no_duplicates_conv();
        assert forall|a: int| 0 <= a < levels.len() implies words.dom().contains(
            (#[trigger] levels@[a]).price,
        ) && levels@[a] == level_of(levels@[a].price, words[levels@[a].price]) && narrow(
            levels@[a],
        ) by {
            assert(levels@.contains(levels@[a]));
            assert(before.to_multiset().count(levels@[a]) > 0);
            assert(before.contains(levels@[a]));
            let k = choose|k: int| 0 <= k < before.len() && before[k] == levels@[a];
            assert(before[k] == level_of(entries@[k].0, entries@[k].1));
            lemma_packed_halves(entries@[k].1);
        }
        assert forall|a: int, b: int| 0 <= a < b < levels.len() implies (#[trigger] levels@[a]).price
            < (#[trigger] levels@[b]).price by {
            assert(levels@[a] != levels@[b]);
        }
        assert forall|p: i64| #[trigger] words.dom().contains(p) implies levels@.contains(
            level_of(p, words[p]),
        ) by {
            let k = choose|k: int| 0 <= k < entries.len() && entries@[k] == (p, words[p]);
            assert(entries@.contains((p, words[p])));
            assert(before[k] == level_of(p, words[p]));
            assert(before.contains(level_of(p, words[p])));
            assert(levels@.to_multiset().count(level_of(p, words[p])) > 0);
        }
    }
    levels
}

/// Footprint analyzer of the current cluster.
pub struct FootprintAnalyzer {
    /// Packed bid/ask volumes by price for the current cluster
    pub price_levels: DashMap<i64, u64>,
    /// Queue for processed clusters ready for consumption
    pub cluster_queue: SegQueue<FootprintCluster>,
    /// Current active cluster
    pub current_cluster: FootprintCluster,
    /// Tick size for price clustering (e.g., 100 for BTC = 0.01)
    pub tick_size: i64,
    /// Cluster time window in nanoseconds
    pub cluster_window_ns: u64,
    /// Total trades processed counter
    pub trades_processed: u64,
}

impl FootprintAnalyzer {
    /// A price can be rounded to this analyzer's ticks.
    pub open spec fn can_round(&self, price: i64) -> bool {
        self.tick_size != 0 && !(price == i64::MIN && self.tick_size == -1)
    }

    /// The price rounded toward zero to a whole number of ticks.
    pub open spec fn tick_of(&self, price: i64) -> i64 {
        (math::trunc_div(price as int, self.tick_size as int) * self.tick_size) as i64
    }

    pub open spec fn words(&self) -> Map<i64, u64> {
        level_words(self.price_levels)
    }

    pub open spec fn finished(&self) -> Seq<FootprintCluster> {
        waiting_clusters(self.cluster_queue)
    }

    /// The packed word of a level, zero where nothing traded yet.
    pub open spec fn word_at(&self, tick: i64) -> u64 {
        word_of(self.words(), tick)
    }

    /// Create new footprint analyzer with specified tick size and cluster window
    pub fn new(tick_size: i64, cluster_window_ms: u64) -> (r: Self)
        requires
            cluster_window_ms * 1_000_000 <= u64::MAX,
        ensures
            r.words() == no_words(),
            r.finished() == Seq::<FootprintCluster>::empty(),
            r.current_cluster.is_fresh(),
            r.tick_size == tick_size,
            r.cluster_window_ns == cluster_window_ms * 1_000_000,
            r.trades_processed == 0,
    {
        FootprintAnalyzer {
            price_levels: levels_with_capacity(1024),
            cluster_queue: cluster_queue_new(),
            current_cluster: FootprintCluster::new(),
            tick_size,
            cluster_window_ns: cluster_window_ms * 1_000_000,
            trades_processed: 0,
        }
    }

    /// Round price to tick for clustering
    fn round_to_tick(&self, price: i64) -> (r: i64)
        requires
            self.can_round(price),
        ensures
            r == self.tick_of(price),
    {
        let q: i64 = div_trunc(price, self.tick_size);
        proof {
            let t = self.tick_size as int;
            let x = math::abs_int(price as int);
            let y = math::abs_int(t);
            let d = x / y;
            vstd::arithmetic::div_mod::lemma_fundamental_div_mod(x, y);
            vstd::arithmetic::div_mod::lemma_mod_bound(x, y);
            assert(0 <= d) by (nonlinear_arith)
                requires
                    d == x / y,
                    x >= 0,
                    y > 0,
            ;
            assert(0 <= y * d <= x) by (nonlinear_arith)
                requires
                    x == y * d + x % y,
                    0 <= x % y,
                    0 <= d,
                    0 < y,
            ;
            if price >= 0 {
                assert(q * t == y * d) by (nonlinear_arith)
                    requires
                        (t > 0 && y == t && q == d) || (t < 0 && y == -t && q == -d),
                ;
            } else {
                assert(q * t == -(y * d)) by (nonlinear_arith)
                    requires
                        (t > 0 && y == t && q == -d) || (t < 0 && y == -t && q == d),
                ;
            }
        }
        q * self.tick_size
    }

    /// Process a single trade from an aggregate trade stream
    pub fn process_trade(
        &mut self,
        price: i64,
        quantity: u64,
        is_buyer_maker: bool,
        timestamp_ns: u64,
    )
        requires
            old(self).can_round(price),
            packed_side(
                old(self).word_at(old(self).tick_of(price)),
                is_buyer_maker,
            ) + quantity <= u64::MAX,
        ensures
            ({
                let tick = old(self).tick_of(price);
                let before = old(self).current_cluster;
                let after = final(self).current_cluster;
                &&& final(self).words() == words_after(
                    old(self).words(),
                    TickTrade { tick, quantity, is_buyer_maker },
                )
                &&& final(self).trades_processed == old(self).trades_processed.wrapping_add(1)
                &&& final(self).cluster_queue == old(self).cluster_queue
                &&& final(self).tick_size == old(self).tick_size
                &&& final(self).cluster_window_ns == old(self).cluster_window_ns
                &&& after.spans_trade(before, tick, timestamp_ns)
                &&& after.same_sums(before)
            }),
    {
        let tick_price: i64 = self.round_to_tick(price);
        if self.current_cluster.start_time_ns == 0 {
            self.current_cluster.start_time_ns = timestamp_ns;
            self.current_cluster.open_price = tick_price;
        }
        self.current_cluster.update_price_bounds(tick_price);
        self.current_cluster.close_price = tick_price;
        self.current_cluster.end_time_ns = timestamp_ns;
        let word: u64 = match levels_get(&self.price_levels, tick_price) {
            Some(w) => w,
            None => 0,
        };
        proof {
            lemma_packed_halves(word);
        }
        let bid_vol: u64 = word >> 32;
        let ask_vol: u64 = word & 0xFFFF_FFFF;
        let new_word: u64 = if is_buyer_maker {
            ((bid_vol + quantity) << 32) | ask_vol
        } else {
            (bid_vol << 32) | (ask_vol + quantity)
        };
        levels_insert(&mut self.price_levels, tick_price, new_word);
        self.trades_processed = self.trades_processed.wrapping_add(1);
    }

    /// Finalize current cluster and start new one
    #[verifier::rlimit(40)]
    pub fn finalize_cluster(&mut self) -> (r: Option<FootprintCluster>)
        requires
            old(self).words().dom().len() <= 0x4000_0000,
            old(self).words().dom().finite(),
        ensures
            r is None <==> old(self).words() == no_words(),
            r is None ==> *final(self) == *old(self),
            r matches Some(c) ==> {
                &&& lists_levels(old(self).words(), c.levels@)
                &&& c.start_time_ns == old(self).current_cluster.start_time_ns
                &&& c.end_time_ns == old(self).current_cluster.end_time_ns
                &&& c.high_price == old(self).current_cluster.high_price
                &&& c.low_price == old(self).current_cluster.low_price
                &&& c.open_price == old(self).current_cluster.open_price
                &&& c.close_price == old(self).current_cluster.close_price
                &&& c.sums_levels()
                &&& final(self).words() == no_words()
                &&& final(self).current_cluster.is_fresh()
                &&& final(self).cluster_queue == old(self).cluster_queue
                &&& final(self).tick_size == old(self).tick_size
                &&& final(self).cluster_window_ns == old(self).cluster_window_ns
                &&& final(self).trades_processed == old(self).trades_processed
            },
    {
        let levels: Vec<PriceLevel> = collect_levels(&self.price_levels);
        let ghost words = self.words();
        proof {
            lemma_level_count(words, levels@);
        }
        if levels.len() == 0 {
            proof {
                assert forall|p: i64| !words.dom().contains(p) by {
                    if words.dom().contains(p) {
                        assert(levels@.contains(level_of(p, words[p])));
                    }
                }
                assert(words =~= no_words());
            }
            return None;
        }
        proof {
            assert(words.dom().contains(levels@[0].price));
        }
        let mut total_bid: u64 = 0;
        let mut total_ask: u64 = 0;
        let mut cum_delta: i64 = 0;
        let mut max_imb: Option<SignedRatio> = None;
        let mut min_imb: Option<SignedRatio> = None;
        let mut i: usize = 0;
        let ghost ls = levels@;
        proof {
            assert(ls.subrange(0, 0) =~= Seq::<PriceLevel>::empty());
            assert(bids(Seq::<PriceLevel>::empty()) =~= Seq::<int>::empty());
            assert(asks(Seq::<PriceLevel>::empty()) =~= Seq::<int>::empty());
            assert(deltas(Seq::<PriceLevel>::empty()) =~= Seq::<int>::empty());
        }
        while i < levels.len()
            invariant
                i <= levels.len(),
                levels.len() <= 0x4000_0000,
                levels@ == ls,
                forall|k: int| 0 <= k < ls.len() ==> narrow(#[trigger] ls[k]),
                total_bid == math::sum_of(bids(ls.subrange(0, i as int))),
                total_ask == math::sum_of(asks(ls.subrange(0, i as int))),
                cum_delta == math::sum_of(deltas(ls.subrange(0, i as int))),
                total_bid <= i * 0x1_0000_0000,
                total_ask <= i * 0x1_0000_0000,
                -(i * 0x1_0000_0000) <= cum_delta <= i * 0x1_0000_0000,
                max_imb == largest_imbalance(ls.subrange(0, i as int)),
                min_imb == smallest_imbalance(ls.subrange(0, i as int)),
                max_imb matches Some(m) ==> narrow_ratio(m),
                min_imb matches Some(m) ==> narrow_ratio(m),
                i > 0 ==> max_imb is Some && min_imb is Some,
            decreases levels.len() - i,
        {
            let level: PriceLevel = levels[i];
            proof {
                let part = ls.subrange(0, i as int);
                let next = ls.subrange(0, i + 1);
                assert(narrow(ls[i as int]));
                assert(next =~= part.push(level));
                assert(next.drop_last() =~= part);
                assert(bids(next) =~= bids(part).push(level.bid_volume as int));
                assert(asks(next) =~= asks(part).push(level.ask_volume as int));
                assert(deltas(next) =~= deltas(part).push(level.delta as int));
                math::lemma_sum_push(bids(part), level.bid_volume as int);
                math::lemma_sum_push(asks(part), level.ask_volume as int);
                math::lemma_sum_push(deltas(part), level.delta as int);
            }
            let imb: SignedRatio = level.imbalance_ratio();
            match max_imb {
                None => {
                    max_imb = Some(imb);
                },
                Some(m) => {
                    if above(imb, m) {
                        max_imb = Some(imb);
                    }
                },
            }
            match min_imb {
                None => {
                    min_imb = Some(imb);
                },
                Some(m) => {
                    if above(m, imb) {
                        min_imb = Some(imb);
                    }
                },
            }
            total_bid = total_bid.saturating_add(level.bid_volume);
            total_ask = total_ask.saturating_add(level.ask_volume);
            cum_delta = cum_delta + level.delta;
            i = i + 1;
        }
        proof {
            assert(ls.subrange(0, ls.len() as int) =~= ls);
        }
        let cluster: FootprintCluster = FootprintCluster {
            start_time_ns: self.current_cluster.start_time_ns,
            end_time_ns: self.current_cluster.end_time_ns,
            high_price: self.current_cluster.high_price,
            low_price: self.current_cluster.low_price,
            open_price: self.current_cluster.open_price,
            close_price: self.current_cluster.close_price,
            levels,
            total_bid_volume: total_bid,
            total_ask_volume: total_ask,
            cumulative_delta: cum_delta,
            max_imbalance: max_imb,
            min_imbalance: min_imb,
        };
        levels_clear(&mut self.price_levels);
        self.current_cluster = FootprintCluster::new();
        Some(cluster)
    }

    /// Get completed clusters from queue
    pub fn poll_clusters(&mut self) -> (clusters: Vec<FootprintCluster>)
        ensures
            clusters@ == old(self).finished(),
            final(self).finished().len() == 0,
            final(self).price_levels == old(self).price_levels,
            final(self).current_cluster == old(self).current_cluster,
            final(self).tick_size == old(self).tick_size,
            final(self).cluster_window_ns == old(self).cluster_window_ns,
            final(self).trades_processed == old(self).trades_processed,
    {
        let ghost all = self.finished();
        let mut clusters: Vec<FootprintCluster> = Vec::new();
        let mut more: bool = true;
        proof {
            assert(Seq::<FootprintCluster>::empty() + all =~= all);
        }
        while more
            invariant
                clusters@ + self.finished() == all,
                !more ==> self.finished().len() == 0,
                self.price_levels == old(self).price_levels,
                self.current_cluster == old(self).current_cluster,
                self.tick_size == old(self).tick_size,
                self.cluster_window_ns == old(self).cluster_window_ns,
                self.trades_processed == old(self).trades_processed,
            decreases
                self.finished().len(),
                if more {
                    1int
                } else {
                    0
                },
        {
            let ghost before = self.finished();
            let ghost out = clusters@;
            match cluster_queue_pop(&mut self.cluster_queue) {
                Some(cluster) => {
                    clusters.push(cluster);
                    assert(out + before =~= clusters@ + self.finished());
                },
                None => {
                    more = false;
                },
            }
        }
        assert(clusters@ =~= all);
        clusters
    }

    /// Get real-time delta imbalance for a specific price level
    pub fn get_delta_imbalance(&self, price: i64) -> (r: Option<SignedRatio>)
        requires
            self.can_round(price),
        ensures
            r == (if self.words().dom().contains(self.tick_of(price)) {
                Some(level_of(price, self.words()[self.tick_of(price)]).imbalance())
            } else {
                None
            }),
    {
        let tick_price: i64 = self.round_to_tick(price);
        match levels_get(&self.price_levels, tick_price) {
            None => None,
            Some(word) => {
                proof {
                    lemma_packed_halves(word);
                }
                let bid_vol: u64 = word >> 32;
                let ask_vol: u64 = word & 0xFFFF_FFFF;
                if bid_vol + ask_vol == 0 {
                    return Some(SignedRatio { num: 0, den: 1 });
                }
                Some(
                    SignedRatio {
                        num: ask_vol as i128 - bid_vol as i128,
                        den: bid_vol + ask_vol,
                    },
                )
            },
        }
    }

    /// Get total trades processed
    pub fn get_trades_count(&self) -> (r: u64)
        ensures
            r == self.trades_processed,
    {
        self.trades_processed
    }
}

/// A listing of the levels has as many entries as the map.
proof fn lemma_level_count(words: Map<i64, u64>, levels: Seq<PriceLevel>)
    requires
        lists_levels(words, levels),
        words.dom().finite(),
    ensures
        levels.len() == words.dom().len(),
    decreases levels.len(),
{
    if levels.len() == 0 {
        assert(words.dom() =~= Set::<i64>::empty()) by {
            assert forall|p: i64| !words.dom().contains(p) by {
                if words.dom().contains(p) {
                    assert(levels.contains(level_of(p, words[p])));
                }
            }
        }
    } else {
        let last = levels.last();
        let fewer = words.remove(last.price);
        let rest = levels.drop_last();
        assert(words.dom().contains(last.price));
        assert(fewer.dom() =~= words.dom().remove(last.price));
        assert forall|p: i64| #[trigger] fewer.dom().contains(p) implies rest.contains(
            level_of(p, fewer[p]),
        ) by {
            assert(words.dom().contains(p));
            assert(levels.contains(level_of(p, words[p])));
            let k = choose|k: int| 0 <= k < levels.len() && levels[k] == level_of(p, words[p]);
            assert(k != levels.len() - 1);
            assert(rest[k] == level_of(p, fewer[p]));
        }
        assert forall|i: int| 0 <= i < rest.len() implies fewer.dom().contains(
            (#[trigger] rest[i]).price,
        ) && rest[i] == level_of(rest[i].price, fewer[rest[i].price]) by {
            assert(rest[i] == levels[i]);
            assert(levels[i].price < levels[levels.len() - 1].price);
        }
        lemma_level_count(fewer, rest);
    }
}

/// A map of packed words has one listing only.
pub proof fn law_levels_are_determined(
    words: Map<i64, u64>,
    a: Seq<PriceLevel>,
    b: Seq<PriceLevel>,
)
    requires
        lists_levels(words, a),
        lists_levels(words, b),
        words.dom().finite(),
    ensures
        a == b,
    decreases a.len(),
{
    lemma_level_count(words, a);
    lemma_level_count(words, b);
    if a.len() > 0 {
        let x = a.last();
        let y = b.last();
        assert(words.dom().contains(x.price) && words.dom().contains(y.price));
        assert(b.contains(level_of(x.price, words[x.price])));
        assert(a.contains(level_of(y.price, words[y.price])));
        let i = choose|i: int| 0 <= i < b.len() && b[i] == level_of(x.price, words[x.price]);
        let j = choose|j: int| 0 <= j < a.len() && a[j] == level_of(y.price, words[y.price]);
        assert(b[i].price <= y.price);
        assert(a[j].price <= x.price);
        assert(x.price == y.price);
        let fewer = words.remove(x.price);
        assert(fewer.dom() =~= words.dom().remove(x.price));
        lemma_listing_without_last(words, a);
        lemma_listing_without_last(words, b);
        law_levels_are_determined(fewer, a.drop_last(), b.drop_last());
        assert(a =~= a.drop_last().push(x));
        assert(b =~= b.drop_last().push(y));
    } else {
        assert(a =~= b);
    }
}

proof fn lemma_listing_without_last(words: Map<i64, u64>, levels: Seq<PriceLevel>)
    requires
        lists_levels(words, levels),
        levels.len() > 0,
    ensures
        lists_levels(words.remove(levels.last().price), levels.drop_last()),
{
    let fewer = words.remove(levels.last().price);
    let rest = levels.drop_last();
    assert forall|p: i64| #[trigger] fewer.dom().contains(p) implies rest.contains(
        level_of(p, fewer[p]),
    ) by {
        assert(words.dom().contains(p));
        assert(levels.contains(level_of(p, words[p])));
        let k = choose|k: int| 0 <= k < levels.len() && levels[k] == level_of(p, words[p]);
        assert(k != levels.len() - 1);
        assert(rest[k] == level_of(p, fewer[p]));
    }
    assert forall|i: int| 0 <= i < rest.len() implies fewer.dom().contains(
        (#[trigger] rest[i]).price,
    ) && rest[i] == level_of(rest[i].price, fewer[rest[i].price]) by {
        assert(rest[i] == levels[i]);
        assert(levels[i].price < levels[levels.len() - 1].price);
    }
}

/// The bounds of a cluster hold every price that traded in it: the newest one,
/// and whatever lay between them before. After the first trade they are its
/// price.
pub proof fn law_bounds_span_trades(
    before: FootprintCluster,
    after: FootprintCluster,
    tick: i64,
    now: u64,
    earlier: i64,
)
    requires
        after.spans_trade(before, tick, now),
    ensures
        after.low_price <= tick <= after.high_price,
        before.low_price <= earlier <= before.high_price ==> after.low_price <= earlier
            <= after.high_price,
        before.is_fresh() ==> after.low_price == tick && after.high_price == tick
            && after.open_price == tick && after.start_time_ns == now,
{
}

/// Real-time footprint stream processor for aggregate trades
pub struct FootprintStreamProcessor {
    pub analyzer: FootprintAnalyzer,
    pub last_finalize_ns: u64,
}

impl FootprintStreamProcessor {
    pub fn new(tick_size: i64, cluster_window_ms: u64) -> (r: Self)
        requires
            cluster_window_ms * 1_000_000 <= u64::MAX,
        ensures
            r.analyzer.words() == no_words(),
            r.analyzer.finished() == Seq::<FootprintCluster>::empty(),
            r.analyzer.current_cluster.is_fresh(),
            r.analyzer.tick_size == tick_size,
            r.analyzer.cluster_window_ns == cluster_window_ms * 1_000_000,
            r.analyzer.trades_processed == 0,
            r.last_finalize_ns == 0,
    {
        FootprintStreamProcessor {
            analyzer: FootprintAnalyzer::new(tick_size, cluster_window_ms),
            last_finalize_ns: 0,
        }
    }

    /// Processes one decoded aggregate trade. Where the cluster window has
    /// elapsed, the cluster is closed and queued for consumption.
    pub fn process_agg_trade(
        &mut self,
        price: i64,
        quantity: u64,
        is_buyer_maker: bool,
        timestamp_ms: u64,
    )
        requires
            timestamp_ms * 1_000_000 <= u64::MAX,
            old(self).last_finalize_ns <= timestamp_ms * 1_000_000,
            old(self).analyzer.can_round(price),
            packed_side(
                old(self).analyzer.word_at(old(self).analyzer.tick_of(price)),
                is_buyer_maker,
            ) + quantity <= u64::MAX,
            old(self).analyzer.words().dom().finite(),
            old(self).analyzer.words().dom().len() < 0x4000_0000,
        ensures
            final(self).analyzer.trades_processed == old(self).analyzer.trades_processed.wrapping_add(1),
            final(self).analyzer.tick_size == old(self).analyzer.tick_size,
            final(self).analyzer.cluster_window_ns == old(self).analyzer.cluster_window_ns,
            ({
                let now = (timestamp_ms * 1_000_000) as u64;
                let tick = old(self).analyzer.tick_of(price);
                let words = words_after(
                    old(self).analyzer.words(),
                    TickTrade { tick, quantity, is_buyer_maker },
                );
                if now - old(self).last_finalize_ns >= old(self).analyzer.cluster_window_ns {
                    &&& final(self).last_finalize_ns == now
                    &&& final(self).analyzer.words() == no_words()
                    &&& final(self).analyzer.current_cluster.is_fresh()
                    &&& final(self).analyzer.finished().len() == old(self).analyzer.finished().len() + 1
                    &&& final(self).analyzer.finished().drop_last() == old(self).analyzer.finished()
                    &&& lists_levels(words, final(self).analyzer.finished().last().levels@)
                    &&& final(self).analyzer.finished().last().spans_trade(
                        old(self).analyzer.current_cluster,
                        tick,
                        now,
                    )
                    &&& final(self).analyzer.finished().last().sums_levels()
                } else {
                    &&& final(self).last_finalize_ns == old(self).last_finalize_ns
                    &&& final(self).analyzer.words() == words
                    &&& final(self).analyzer.finished() == old(self).analyzer.finished()
                    &&& final(self).analyzer.current_cluster.spans_trade(
                        old(self).analyzer.current_cluster,
                        tick,
                        now,
                    )
                    &&& final(self).analyzer.current_cluster.same_sums(
                        old(self).analyzer.current_cluster,
                    )
                }
            }),
    {
        let timestamp_ns: u64 = timestamp_ms * 1_000_000;
        let ghost tick = self.analyzer.tick_of(price);
        let ghost before = self.analyzer.words();
        self.analyzer.process_trade(price, quantity, is_buyer_maker, timestamp_ns);
        proof {
            assert(self.analyzer.words().dom() =~= before.dom().insert(tick));
            assert(self.analyzer.words().dom().contains(tick));
        }
        if timestamp_ns - self.last_finalize_ns >= self.analyzer.cluster_window_ns {
            let ghost queued = self.analyzer.finished();
            match self.analyzer.finalize_cluster() {
                Some(cluster) => {
                    self.last_finalize_ns = timestamp_ns;
                    cluster_queue_push(&mut self.analyzer.cluster_queue, cluster);
                    assert(self.analyzer.finished().drop_last() =~= queued);
                },
                None => {
                    assert(!no_words().dom().contains(tick));
                },
            }
        }
    }

    pub fn get_analyzer(&self) -> (r: &FootprintAnalyzer)
        ensures
            *r == self.analyzer,
    {
        &self.analyzer
    }
}

/// A trade adds its volume to one side of a level: to the bids where the buyer
/// was passive, to the asks where the seller was. A side stops at the largest
/// value.
pub proof fn law_level_takes_trade(l: PriceLevel, volume: u64)
    ensures
        l.volumes_after(volume, true).1 == l.ask_volume,
        l.volumes_after(volume, false).0 == l.bid_volume,
        l.bid_volume + volume <= u64::MAX ==> l.volumes_after(volume, true).0 - l.bid_volume
            == volume,
        l.ask_volume + volume <= u64::MAX ==> l.volumes_after(volume, false).1 - l.ask_volume
            == volume,
        l.bid_volume + volume > u64::MAX ==> l.volumes_after(volume, true).0 == u64::MAX,
        l.ask_volume + volume > u64::MAX ==> l.volumes_after(volume, false).1 == u64::MAX,
{
}

/// The delta is what the asks have more than the bids.
pub proof fn law_delta_is_asks_less_bids(bid: u64, ask: u64)
    requires
        bid <= i64::MAX,
        ask <= i64::MAX,
    ensures
        bid + volume_delta(bid, ask) == ask,
{
}

/// The imbalance of a level that holds its sides is their difference as a share
/// of their sum: above zero where the asks outweigh the bids, one where there
/// are only asks, and nothing where nothing traded.
pub proof fn law_imbalance_is_a_share(l: PriceLevel)
    requires
        l.total_volume == l.bid_volume + l.ask_volume,
    ensures
        ({
            let r = l.imbalance();
            &&& r.den > 0
            &&& -r.den <= r.num <= r.den
            &&& r.num * (l.bid_volume + l.ask_volume) == (l.ask_volume - l.bid_volume) * r.den
            &&& r.num > 0 <==> l.ask_volume > l.bid_volume
            &&& r.num < 0 <==> l.ask_volume < l.bid_volume
        }),
{
    let r = l.imbalance();
    let (n, s) = (l.ask_volume - l.bid_volume, l.bid_volume + l.ask_volume);
    assert(r.num * s == n * r.den) by {
        if l.total_volume == 0 {
            assert(n == 0 && s == 0);
        } else {
            assert(r.num == n && r.den == s);
        }
    }
}

/// A packed word is the bids counted in units of four gibi plus the asks.
pub proof fn law_packed_word(bid: u64, ask: u64)
    requires
        bid < 0x1_0000_0000,
        ask < 0x1_0000_0000,
    ensures
        packed(bid, ask) == bid * 0x1_0000_0000 + ask,
{
    assert(((bid << 32) | ask) == bid * 0x1_0000_0000 + ask) by (bit_vector)
        requires
            bid < 0x1_0000_0000,
            ask < 0x1_0000_0000,
    ;
}

proof fn lemma_not_above_transitive(a: SignedRatio, b: SignedRatio, c: SignedRatio)
    requires
        a.den > 0,
        b.den > 0,
        c.den > 0,
        !math::ratio_above(a, b),
        !math::ratio_above(b, c),
    ensures
        !math::ratio_above(a, c),
{
    let (an, ad, bn, bd, cn, cd) = (
        a.num as int,
        a.den as int,
        b.num as int,
        b.den as int,
        c.num as int,
        c.den as int,
    );
    assert(an * cd <= cn * ad) by (nonlinear_arith)
        requires
            ad > 0,
            bd > 0,
            cd > 0,
            an * bd <= bn * ad,
            bn * cd <= cn * bd,
    ;
}

/// The largest imbalance is that of one of the levels, and none has a larger
/// one.
pub proof fn law_largest_imbalance(levels: Seq<PriceLevel>)
    ensures
        largest_imbalance(levels) is None <==> levels.len() == 0,
        largest_imbalance(levels) matches Some(m) ==> {
            &&& m.den > 0
            &&& exists|i: int| 0 <= i < levels.len() && (#[trigger] levels[i]).imbalance() == m
            &&& forall|i: int|
                0 <= i < levels.len() ==> !math::ratio_above((#[trigger] levels[i]).imbalance(), m)
        },
    decreases levels.len(),
{
    if levels.len() > 0 {
        let t = levels.drop_last();
        law_largest_imbalance(t);
        let last = levels[levels.len() - 1].imbalance();
        let m = largest_imbalance(levels)->0;
        assert(levels.last() == levels[levels.len() - 1]);
        if t.len() > 0 {
            let best = largest_imbalance(t)->0;
            if m == best {
                let i = choose|i: int| 0 <= i < t.len() && (#[trigger] t[i]).imbalance() == best;
                assert(levels[i].imbalance() == m);
            }
            assert forall|i: int| 0 <= i < levels.len() implies !math::ratio_above(
                (#[trigger] levels[i]).imbalance(),
                m,
            ) by {
                if i < t.len() {
                    assert(t[i] == levels[i]);
                    if math::ratio_above(last, best) {
                        lemma_above_not_below(last, best);
                        lemma_not_above_transitive(levels[i].imbalance(), best, last);
                    }
                } else {
                    lemma_above_not_below(last, last);
                }
            }
        } else {
            lemma_above_not_below(last, last);
        }
    }
}

proof fn lemma_above_not_below(a: SignedRatio, b: SignedRatio)
    ensures
        math::ratio_above(a, b) ==> !math::ratio_above(b, a),
        !math::ratio_above(a, a),
{
}

/// The smallest imbalance is that of one of the levels, and none has a smaller
/// one.
pub proof fn law_smallest_imbalance(levels: Seq<PriceLevel>)
    ensures
        smallest_imbalance(levels) is None <==> levels.len() == 0,
        smallest_imbalance(levels) matches Some(m) ==> {
            &&& m.den > 0
            &&& exists|i: int| 0 <= i < levels.len() && (#[trigger] levels[i]).imbalance() == m
            &&& forall|i: int|
                0 <= i < levels.len() ==> !math::ratio_above(m, (#[trigger] levels[i]).imbalance())
        },
    decreases levels.len(),
{
    if levels.len() > 0 {
        let t = levels.drop_last();
        law_smallest_imbalance(t);
        let last = levels[levels.len() - 1].imbalance();
        let m = smallest_imbalance(levels)->0;
        assert(levels.last() == levels[levels.len() - 1]);
        if t.len() > 0 {
            let best = smallest_imbalance(t)->0;
            if m == best {
                let i = choose|i: int| 0 <= i < t.len() && (#[trigger] t[i]).imbalance() == best;
                assert(levels[i].imbalance() == m);
            }
            assert forall|i: int| 0 <= i < levels.len() implies !math::ratio_above(
                m,
                (#[trigger] levels[i]).imbalance(),
            ) by {
                if i < t.len() {
                    assert(t[i] == levels[i]);
                    if math::ratio_above(best, last) {
                        lemma_above_not_below(best, last);
                        lemma_not_above_transitive(last, best, levels[i].imbalance());
                    }
                } else {
                    lemma_above_not_below(last, last);
                }
            }
        } else {
            lemma_above_not_below(last, last);
        }
    }
}

/// A finished cluster lists its levels by rising price; its totals are the sums
/// of their bids, asks and deltas, so each level that is added raises them by
/// its own, and its imbalance bounds are those of the levels.
pub proof fn law_cluster_adds_up_its_levels(
    c: FootprintCluster,
    words: Map<i64, u64>,
    levels: Seq<PriceLevel>,
    l: PriceLevel,
)
    requires
        c.sums_levels(),
        lists_levels(words, c.levels@),
    ensures
        forall|i: int, j: int|
            0 <= i < j < c.levels.len() ==> (#[trigger] c.levels@[i]).price < (
            #[trigger] c.levels@[j]).price,
        c.total_bid_volume == math::sum_of(bids(c.levels@)),
        c.total_ask_volume == math::sum_of(asks(c.levels@)),
        c.cumulative_delta == math::sum_of(deltas(c.levels@)),
        c.max_imbalance == largest_imbalance(c.levels@),
        c.min_imbalance == smallest_imbalance(c.levels@),
        math::sum_of(bids(levels.push(l))) == math::sum_of(bids(levels)) + l.bid_volume,
        math::sum_of(asks(levels.push(l))) == math::sum_of(asks(levels)) + l.ask_volume,
        math::sum_of(deltas(levels.push(l))) == math::sum_of(deltas(levels)) + l.delta,
{
    assert(bids(levels.push(l)) =~= bids(levels).push(l.bid_volume as int));
    assert(asks(levels.push(l)) =~= asks(levels).push(l.ask_volume as int));
    assert(deltas(levels.push(l)) =~= deltas(levels).push(l.delta as int));
    math::lemma_sum_push(bids(levels), l.bid_volume as int);
    math::lemma_sum_push(asks(levels), l.ask_volume as int);
    math::lemma_sum_push(deltas(levels), l.delta as int);
}

/// A price is rounded toward zero to a whole number of ticks, by less than one.
pub proof fn law_tick_is_whole(a: FootprintAnalyzer, price: i64)
    requires
        a.can_round(price),
    ensures
        ({
            let tick = a.tick_of(price);
            &&& exists|k: int| tick == #[trigger] (k * a.tick_size)
            &&& math::abs_int(price - tick) < math::abs_int(a.tick_size as int)
            &&& price >= 0 ==> 0 <= tick <= price
            &&& price <= 0 ==> price <= tick <= 0
        }),
{
    let (p, t) = (price as int, a.tick_size as int);
    math::law_quotient_toward_zero(p, t);
    let q = math::trunc_div(p, t);
    let (x, y) = (math::abs_int(p), math::abs_int(t));
    vstd::arithmetic::div_mod::lemma_fundamental_div_mod(x, y);
    vstd::arithmetic::div_mod::lemma_mod_bound(x, y);
    let d = x / y;
    assert(0 <= d) by (nonlinear_arith)
        requires
            d == x / y,
            x >= 0,
            y > 0,
    ;
    assert(0 <= y * d) by (nonlinear_arith)
        requires
            0 <= d,
            0 < y,
    ;
    if p >= 0 {
        assert(q * t == y * d) by (nonlinear_arith)
            requires
                (t > 0 && y == t && q == d) || (t < 0 && y == -t && q == -d),
        ;
    } else {
        assert(q * t == -(y * d)) by (nonlinear_arith)
            requires
                (t > 0 && y == t && q == -d) || (t < 0 && y == -t && q == d),
        ;
    }
    assert(a.tick_of(price) == q * t);
}

/// A trade ends and closes its cluster for now; one that came before keeps the
/// start and the open.
pub proof fn law_trade_closes_cluster(
    before: FootprintCluster,
    after: FootprintCluster,
    tick: i64,
    now: u64,
)
    requires
        after.spans_trade(before, tick, now),
    ensures
        after.end_time_ns == now,
        after.close_price == tick,
        before.start_time_ns != 0 ==> after.start_time_ns == before.start_time_ns
            && after.open_price == before.open_price,
        before.start_time_ns == 0 ==> after.start_time_ns == now && after.open_price == tick,
        after.high_price == before.high_price || after.high_price == tick,
        after.low_price == before.low_price || after.low_price == tick,
{
}

} // verus!
