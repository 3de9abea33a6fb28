//! Hidden liquidity, exposed by repeated fills of similar size at one price.
use crate::math;
use crate::math::Ratio;
use std::collections::VecDeque;
use vstd::prelude::*;

verus! {

pub const MAX_TAPE_HISTORY: usize = 50000;

/// Minimum repeats to confirm iceberg
pub const MIN_REPEAT_FILLS: u32 = 5;

/// Size tolerance for matching, in percent either way
pub const SIZE_TOLERANCE_PCT: u64 = 10;

/// 60 second analysis window
pub const TIME_WINDOW_NS: u128 = 60_000_000_000;

/// How many confirmed icebergs are remembered.
pub const MAX_CONFIRMED: usize = 20;

/// Represents a single trade from the tape.
#[derive(Debug, Clone, Copy, PartialEq, Eq, Structural)]
pub struct TradeTick {
    pub price: i64,
    pub quantity: u64,
    /// true if buyer was aggressive
    pub is_buy: bool,
    pub timestamp_ns: u128,
}

#[derive(Debug, Clone, Copy, PartialEq, Eq, Structural)]
pub enum OrderSide {
    Bid,
    Ask,
}

/// Tracks potential iceberg patterns at a specific price level.
#[derive(Debug, Clone, Copy, PartialEq, Eq, Structural)]
pub struct IcebergCandidate {
    pub price: i64,
    pub typical_size: u64,
    pub fill_count: u32,
    pub total_volume: u64,
    pub first_seen_ns: u128,
    pub last_seen_ns: u128,
    pub is_confirmed: bool,
}

impl IcebergCandidate {
    pub open spec fn first_fill(price: i64, quantity: u64, timestamp_ns: u128) -> IcebergCandidate {
        IcebergCandidate {
            price,
            typical_size: quantity,
            fill_count: 1,
            total_volume: quantity,
            first_seen_ns: timestamp_ns,
            last_seen_ns: timestamp_ns,
            is_confirmed: false,
        }
    }

    fn new(price: i64, quantity: u64, timestamp_ns: u128) -> (r: Self)
        ensures
            r == IcebergCandidate::first_fill(price, quantity, timestamp_ns),
    {
        IcebergCandidate {
            price,
            typical_size: quantity,
            fill_count: 1,
            total_volume: quantity,
            first_seen_ns: timestamp_ns,
            last_seen_ns: timestamp_ns,
            is_confirmed: false,
        }
    }

    /// A fill within a tenth of the typical size continues the pattern.
    pub open spec fn fits(&self, quantity: u64) -> bool {
        let tolerance = (self.typical_size * SIZE_TOLERANCE_PCT) / 100;
        self.typical_size - tolerance <= quantity <= self.typical_size + tolerance
    }

    /// Check if a new fill matches this iceberg pattern.
    pub fn matches(&self, quantity: u64) -> (r: bool)
        ensures
            r == self.fits(quantity),
    {
        let tolerance: u128 = (self.typical_size as u128 * SIZE_TOLERANCE_PCT as u128) / 100;
        let size: u128 = self.typical_size as u128;
        let q: u128 = quantity as u128;
        assert(tolerance == (self.typical_size * 10) / 100);
        q >= size - tolerance && q <= size + tolerance
    }

    /// The candidate after one more matching fill: the typical size becomes
    /// the average fill.
    pub open spec fn with_fill(self, quantity: u64, timestamp_ns: u128) -> IcebergCandidate {
        let count = (self.fill_count + 1) as u32;
        let total = (self.total_volume + quantity) as u64;
        IcebergCandidate {
            fill_count: count,
            total_volume: total,
            last_seen_ns: timestamp_ns,
            typical_size: (total as int / count as int) as u64,
            is_confirmed: self.is_confirmed || count >= MIN_REPEAT_FILLS,
            ..self
        }
    }

    /// Add a matching fill to the candidate.
    pub fn add_fill(&mut self, quantity: u64, timestamp_ns: u128)
        requires
            old(self).fill_count < u32::MAX,
            old(self).total_volume + quantity <= u64::MAX,
        ensures
            *final(self) == old(self).with_fill(quantity, timestamp_ns),
    {
        self.fill_count = self.fill_count + 1;
        self.total_volume = self.total_volume + quantity;
        self.last_seen_ns = timestamp_ns;
        self.typical_size = self.total_volume / self.fill_count as u64;
        if self.fill_count >= MIN_REPEAT_FILLS {
            self.is_confirmed = true;
        }
    }

    /// The last fill lies further back than the window.
    pub open spec fn outdated(&self, current_ns: u128) -> bool {
        current_ns - self.last_seen_ns > TIME_WINDOW_NS
    }

    /// Check if candidate is stale (outside time window).
    pub fn is_stale(&self, current_ns: u128) -> (r: bool)
        requires
            self.last_seen_ns <= current_ns,
        ensures
            r == self.outdated(current_ns),
    {
        current_ns - self.last_seen_ns > TIME_WINDOW_NS
    }
}

/// The candidates of one side, at most one for each price.
pub struct CandidateTable {
    pub entries: Vec<IcebergCandidate>,
}

pub open spec fn distinct_prices(entries: Seq<IcebergCandidate>) -> bool {
    forall|i: int, j: int|
        0 <= i < j < entries.len() ==> (#[trigger] entries[i]).price != (#[trigger] entries[j]).price
}

/// The candidates as a map from price.
pub open spec fn by_price(entries: Seq<IcebergCandidate>) -> Map<i64, IcebergCandidate>
    decreases entries.len(),
{
    if entries.len() == 0 {
        Map::empty()
    } else {
        by_price(entries.drop_last()).insert(entries.last().price, entries.last())
    }
}

proof fn lemma_by_price(entries: Seq<IcebergCandidate>)
    requires
        distinct_prices(entries),
    ensures
        forall|i: int|
            0 <= i < entries.len() ==> by_price(entries).dom().contains(
                (#[trigger] entries[i]).price,
            ) && by_price(entries)[entries[i].price] == entries[i],
        forall|p: i64| #[trigger]
            by_price(entries).dom().contains(p) ==> exists|i: int|
                0 <= i < entries.len() && (#[trigger] entries[i]).price == p,
    decreases entries.len(),
{
    if entries.len() > 0 {
        let t = entries.drop_last();
        lemma_by_price(t);
        assert forall|i: int| 0 <= i < entries.len() implies by_price(entries).dom().contains(
            (#[trigger] entries[i]).price,
        ) && by_price(entries)[entries[i].price] == entries[i] by {
            if i < t.len() {
                assert(t[i] == entries[i]);
            }
        }
        assert forall|p: i64| #[trigger] by_price(entries).dom().contains(p) implies exists|i: int|
            0 <= i < entries.len() && (#[trigger] entries[i]).price == p by {
            if p == entries.last().price {
                assert(entries[entries.len() - 1].price == p);
            } else {
                assert(by_price(t).dom().contains(p));
                let k = choose|k: int| 0 <= k < t.len() && (#[trigger] t[k]).price == p;
                assert(entries[k].price == p);
            }
        }
    }
}

/// Two entry lists that hold the same candidates stand for the same map.
proof fn lemma_same_map(a: Seq<IcebergCandidate>, m: Map<i64, IcebergCandidate>)
    requires
        distinct_prices(a),
        forall|i: int|
            0 <= i < a.len() ==> m.dom().contains((#[trigger] a[i]).price) && m[a[i].price]
                == a[i],
        forall|p: i64| #[trigger]
            m.dom().contains(p) ==> exists|i: int| 0 <= i < a.len() && (#[trigger] a[i]).price == p,
    ensures
        by_price(a) == m,
{
    lemma_by_price(a);
    assert forall|p: i64| by_price(a).dom().contains(p) <==> m.dom().contains(p) by {
        if m.dom().contains(p) {
            let i = choose|i: int| 0 <= i < a.len() && (#[trigger] a[i]).price == p;
            assert(by_price(a).dom().contains(a[i].price));
        }
        if by_price(a).dom().contains(p) {
            let i = choose|i: int| 0 <= i < a.len() && (#[trigger] a[i]).price == p;
            assert(m.dom().contains(a[i].price));
        }
    }
    assert forall|p: i64| by_price(a).dom().contains(p) implies by_price(a)[p] == m[p] by {
        let i = choose|i: int| 0 <= i < a.len() && (#[trigger] a[i]).price == p;
        assert(by_price(a)[a[i].price] == a[i]);
        assert(m[a[i].price] == a[i]);
    }
    assert(by_price(a) =~= m);
}

/// The entries with a fill inside the window, in their order.
pub open spec fn fresh_entries(entries: Seq<IcebergCandidate>, now: u128) -> Seq<IcebergCandidate>
    decreases entries.len(),
{
    if entries.len() == 0 {
        entries
    } else if entries.last().outdated(now) {
        fresh_entries(entries.drop_last(), now)
    } else {
        fresh_entries(entries.drop_last(), now).push(entries.last())
    }
}

/// The candidates with a fill inside the window.
pub open spec fn fresh_only(m: Map<i64, IcebergCandidate>, now: u128) -> Map<i64, IcebergCandidate> {
    Map::new(|p: i64| m.dom().contains(p) && !m[p].outdated(now), |p: i64| m[p])
}

proof fn lemma_fresh_entries(entries: Seq<IcebergCandidate>, now: u128)
    requires
        distinct_prices(entries),
    ensures
        distinct_prices(fresh_entries(entries, now)),
        by_price(fresh_entries(entries, now)) == fresh_only(by_price(entries), now),
    decreases entries.len(),
{
    if entries.len() == 0 {
        assert(by_price(entries) =~= fresh_only(by_price(entries), now));
    } else {
        let t = entries.drop_last();
        let x = entries.last();
        lemma_fresh_entries(t, now);
        lemma_by_price(t);
        assert(!by_price(t).dom().contains(x.price)) by {
            if by_price(t).dom().contains(x.price) {
                let k = choose|k: int| 0 <= k < t.len() && (#[trigger] t[k]).price == x.price;
                assert(entries[k].price == entries[entries.len() - 1].price);
            }
        }
        let f = fresh_entries(t, now);
        lemma_by_price(f);
        assert forall|k: int| 0 <= k < f.len() implies (#[trigger] f[k]).price != x.price by {
            assert(by_price(f).dom().contains(f[k].price));
        }
        if !x.outdated(now) {
            assert(f.push(x).drop_last() =~= f);
        }
        assert(by_price(fresh_entries(entries, now)) =~= fresh_only(by_price(entries), now));
    }
}

/// How many candidates have been confirmed.
pub open spec fn confirmed_count(entries: Seq<IcebergCandidate>) -> nat
    decreases entries.len(),
{
    if entries.len() == 0 {
        0
    } else {
        confirmed_count(entries.drop_last()) + (if entries.last().is_confirmed {
            1nat
        } else {
            0nat
        })
    }
}

impl View for CandidateTable {
    type V = Map<i64, IcebergCandidate>;

    open spec fn view(&self) -> Map<i64, IcebergCandidate> {
        by_price(self.entries@)
    }
}

impl CandidateTable {
    pub open spec fn wf(&self) -> bool {
        distinct_prices(self.entries@)
    }

    fn new() -> (r: Self)
        ensures
            r.wf(),
            r@ == Map::<i64, IcebergCandidate>::empty(),
            r.entries.len() == 0,
    {
        CandidateTable { entries: Vec::with_capacity(100) }
    }

    /// Where the entry for a price stands.
    fn find(&self, price: i64) -> (r: Option<usize>)
        requires
            self.wf(),
        ensures
            match r {
                Some(i) => i < self.entries.len() && self.entries@[i as int].price == price
                    && self@.dom().contains(price) && self@[price] == self.entries@[i as int],
                None => !self@.dom().contains(price) && forall|i: int|
                    0 <= i < self.entries.len() ==> (#[trigger] self.entries@[i]).price != price,
            },
    {
        proof {
            lemma_by_price(self.entries@);
        }
        let mut i: usize = 0;
        while i < self.entries.len()
            invariant
                self.wf(),
                i <= self.entries.len(),
                forall|k: int| 0 <= k < i ==> (#[trigger] self.entries@[k]).price != price,
            decreases self.entries.len() - i,
        {
            if self.entries[i].price == price {
                proof {
                    lemma_by_price(self.entries@);
                }
                return Some(i);
            }
            i = i + 1;
        }
        None
    }

    /// Stores a candidate under its price, in place of an older one.
    fn put(&mut self, c: IcebergCandidate)
        requires
            old(self).wf(),
        ensures
            final(self).wf(),
            final(self)@ == old(self)@.insert(c.price, c),
    {
        let ghost before = self.entries@;
        let ghost m = self@;
        match self.find(c.price) {
            Some(i) => {
                self.entries.set(i, c);
                proof {
                    lemma_by_price(before);
                    let after = self.entries@;
                    let n = m.insert(c.price, c);
                    assert forall|k: int| 0 <= k < after.len() implies n.dom().contains(
                        (#[trigger] after[k]).price,
                    ) && n[after[k].price] == after[k] by {
                        if k != i {
                            assert(after[k] == before[k]);
                            assert(before[k].price != before[i as int].price);
                        }
                    }
                    assert forall|p: i64| #[trigger] n.dom().contains(p) implies exists|k: int|
                        0 <= k < after.len() && (#[trigger] after[k]).price == p by {
                        if p == c.price {
                            assert(after[i as int].price == p);
                        } else {
                            let k = choose|k: int|
                                0 <= k < before.len() && (#[trigger] before[k]).price == p;
                            assert(after[k].price == p);
                        }
                    }
                    assert forall|a: int, b: int| 0 <= a < b < after.len() implies (
                    #[trigger] after[a]).price != (#[trigger] after[b]).price by {
                        assert(before[a].price != before[b].price);
                    }
                    lemma_same_map(after, n);
                }
            },
            None => {
                self.entries.push(c);
                assert(self.entries@.drop_last() =~= before);
            },
        }
    }

    /// Keeps the candidates with a fill inside the window.
    fn retain_fresh(&mut self, current_ns: u128)
        requires
            old(self).wf(),
            forall|i: int|
                0 <= i < old(self).entries.len() ==> (#[trigger] old(self).entries@[i]).last_seen_ns
                    <= current_ns,
        ensures
            final(self).wf(),
            final(self)@ == fresh_only(old(self)@, current_ns),
    {
        let ghost all = self.entries@;
        let mut kept: Vec<IcebergCandidate> = Vec::new();
        let mut i: usize = 0;
        proof {
            assert(all.subrange(0, 0) =~= Seq::<IcebergCandidate>::empty());
        }
        while i < self.entries.len()
            invariant
                i <= self.entries.len(),
                self.entries@ == all,
                distinct_prices(all),
                forall|k: int| 0 <= k < all.len() ==> (#[trigger] all[k]).last_seen_ns <= current_ns,
                kept@ == fresh_entries(all.subrange(0, i as int), current_ns),
            decreases self.entries.len() - i,
        {
            let c: IcebergCandidate = self.entries[i];
            proof {
                let next = all.subrange(0, i + 1);
                assert(next.drop_last() =~= all.subrange(0, i as int));
                assert(next.last() == c);
            }
            if !c.is_stale(current_ns) {
                kept.push(c);
            }
            i = i + 1;
        }
        proof {
            assert(all.subrange(0, all.len() as int) =~= all);
            lemma_fresh_entries(all, current_ns);
        }
        self.entries = kept;
    }

    fn count_confirmed(&self) -> (r: usize)
        ensures
            r == confirmed_count(self.entries@),
    {
        let mut n: usize = 0;
        let mut i: usize = 0;
        proof {
            assert(self.entries@.subrange(0, 0) =~= Seq::<IcebergCandidate>::empty());
        }
        while i < self.entries.len()
            invariant
                i <= self.entries.len(),
                n <= i,
                n == confirmed_count(self.entries@.subrange(0, i as int)),
            decreases self.entries.len() - i,
        {
            proof {
                let next = self.entries@.subrange(0, i + 1);
                assert(next.drop_last() =~= self.entries@.subrange(0, i as int));
                assert(next.last() == self.entries@[i as int]);
            }
            if self.entries[i].is_confirmed {
                n = n + 1;
            }
            i = i + 1;
        }
        proof {
            assert(self.entries@.subrange(0, i as int) =~= self.entries@);
        }
        n
    }
}

/// A confirmed iceberg. The confidence is the number of fills over the number
/// that confirms, and one from that number on.
#[derive(Debug, Clone, Copy, PartialEq, Eq, Structural)]
pub struct IcebergInfo {
    pub price: i64,
    pub side: OrderSide,
    pub visible_size: u64,
    pub estimated_total: u64,
    pub fill_count: u32,
    pub confidence: Ratio,
    /// When the last of the fills came
    pub last_fill_ns: u128,
}

impl IcebergInfo {
    pub fn is_confirmed(&self) -> (r: bool)
        ensures
            r == (self.fill_count >= MIN_REPEAT_FILLS),
    {
        self.fill_count >= MIN_REPEAT_FILLS
    }
}

#[derive(Debug, Clone, Copy, PartialEq, Eq, Structural)]
pub struct IcebergStats {
    pub bid_icebergs: usize,
    pub ask_icebergs: usize,
    pub total_hidden_volume: u64,
}

/// The report on a candidate.
pub open spec fn info_of(c: IcebergCandidate, side: OrderSide) -> IcebergInfo {
    IcebergInfo {
        price: c.price,
        side,
        visible_size: c.typical_size,
        estimated_total: c.total_volume,
        fill_count: c.fill_count,
        confidence: Ratio {
            num: math::min_int(c.fill_count as int, MIN_REPEAT_FILLS as int) as u64,
            den: MIN_REPEAT_FILLS as u64,
        },
        last_fill_ns: c.last_seen_ns,
    }
}

/// The newest `limit` elements of a sequence with one more at the end.
pub open spec fn push_bounded<T>(s: Seq<T>, x: T, limit: int) -> Seq<T> {
    if s.len() + 1 > limit {
        s.push(x).subrange(1, s.len() as int + 1)
    } else {
        s.push(x)
    }
}

/// Volume not shown by an iceberg.
pub open spec fn hidden_volumes(infos: Seq<IcebergInfo>) -> Seq<int> {
    infos.map_values(
        |i: IcebergInfo| if i.estimated_total >= i.visible_size {
            i.estimated_total - i.visible_size
        } else {
            0
        },
    )
}

/// High-performance iceberg detector analyzing trade tape.
pub struct IcebergDetector {
    pub trade_tape: VecDeque<TradeTick>,
    pub bid_candidates: CandidateTable,
    pub ask_candidates: CandidateTable,
    pub confirmed_icebergs: Vec<IcebergInfo>,
}

/// The side whose resting orders a trade hits.
pub open spec fn side_hit(tick: TradeTick) -> OrderSide {
    if tick.is_buy {
        OrderSide::Ask
    } else {
        OrderSide::Bid
    }
}

/// What a tick makes of the candidate at its price: a matching fill inside the
/// window continues it, anything else starts anew.
pub open spec fn next_candidate(m: Map<i64, IcebergCandidate>, tick: TradeTick)
    -> IcebergCandidate {
    if continues(m, tick) {
        m[tick.price].with_fill(tick.quantity, tick.timestamp_ns)
    } else {
        IcebergCandidate::first_fill(tick.price, tick.quantity, tick.timestamp_ns)
    }
}

pub open spec fn continues(m: Map<i64, IcebergCandidate>, tick: TradeTick) -> bool {
    m.dom().contains(tick.price) && m[tick.price].fits(tick.quantity) && !m[tick.price].outdated(
        tick.timestamp_ns,
    )
}

/// The tick takes its candidate over the number of fills that confirms.
pub open spec fn confirms(m: Map<i64, IcebergCandidate>, tick: TradeTick) -> bool {
    continues(m, tick) && !m[tick.price].is_confirmed && next_candidate(m, tick).is_confirmed
}

impl IcebergDetector {
    pub open spec fn wf(&self) -> bool {
        &&& self.bid_candidates.wf()
        &&& self.ask_candidates.wf()
        &&& self.trade_tape.len() <= MAX_TAPE_HISTORY
        &&& self.confirmed_icebergs.len() <= MAX_CONFIRMED
        &&& keyed_by_price(self.bid_candidates@)
        &&& keyed_by_price(self.ask_candidates@)
    }

    pub open spec fn side_map(&self, side: OrderSide) -> Map<i64, IcebergCandidate> {
        match side {
            OrderSide::Bid => self.bid_candidates@,
            OrderSide::Ask => self.ask_candidates@,
        }
    }

    /// The clock does not run back over the candidate at the tick's price, and
    /// its sums do not overflow.
    pub open spec fn accepts(&self, tick: TradeTick) -> bool {
        let m = self.side_map(side_hit(tick));
        m.dom().contains(tick.price) && m[tick.price].fits(tick.quantity) ==> {
            &&& m[tick.price].last_seen_ns <= tick.timestamp_ns
            &&& m[tick.price].fill_count < u32::MAX
            &&& m[tick.price].total_volume + tick.quantity <= u64::MAX
        }
    }

    pub fn new() -> (r: Self)
        ensures
            r.wf(),
            r.trade_tape@ == Seq::<TradeTick>::empty(),
            r.bid_candidates@ == Map::<i64, IcebergCandidate>::empty(),
            r.ask_candidates@ == Map::<i64, IcebergCandidate>::empty(),
            r.confirmed_icebergs@ == Seq::<IcebergInfo>::empty(),
    {
        IcebergDetector {
            trade_tape: VecDeque::with_capacity(MAX_TAPE_HISTORY),
            bid_candidates: CandidateTable::new(),
            ask_candidates: CandidateTable::new(),
            confirmed_icebergs: Vec::with_capacity(MAX_CONFIRMED),
        }
    }

    /// Process a trade tick and update iceberg detection.
    /// Returns Some(IcebergInfo) if a new iceberg is confirmed.
    pub fn process_tick(&mut self, tick: TradeTick) -> (r: Option<IcebergInfo>)
        requires
            old(self).wf(),
            old(self).accepts(tick),
        ensures
            final(self).wf(),
            final(self).trade_tape@ == push_bounded(
                old(self).trade_tape@,
                tick,
                MAX_TAPE_HISTORY as int,
            ),
            ({
                let side = side_hit(tick);
                let m = old(self).side_map(side);
                let other = if side == OrderSide::Bid {
                    OrderSide::Ask
                } else {
                    OrderSide::Bid
                };
                &&& final(self).side_map(side) == m.insert(tick.price, next_candidate(m, tick))
                &&& final(self).side_map(other) == old(self).side_map(other)
                &&& r == (if confirms(m, tick) {
                    Some(info_of(next_candidate(m, tick), side))
                } else {
                    None
                })
                &&& final(self).confirmed_icebergs@ == (if confirms(m, tick) {
                    push_bounded(
                        old(self).confirmed_icebergs@,
                        info_of(next_candidate(m, tick), side),
                        MAX_CONFIRMED as int,
                    )
                } else {
                    old(self).confirmed_icebergs@
                })
            }),
    {
        self.trade_tape.push_back(tick);
        if self.trade_tape.len() > MAX_TAPE_HISTORY {
            let _ = self.trade_tape.pop_front();
        }
        assert(self.trade_tape@ =~= push_bounded(
            old(self).trade_tape@,
            tick,
            MAX_TAPE_HISTORY as int,
        ));
        let side: OrderSide = if tick.is_buy {
            OrderSide::Ask
        } else {
            OrderSide::Bid
        };
        let known: Option<IcebergCandidate> = self.candidate_at(side, tick.price);
        match known {
            Some(found) => {
                if found.matches(tick.quantity) && !found.is_stale(tick.timestamp_ns) {
                    let mut candidate: IcebergCandidate = found;
                    candidate.add_fill(tick.quantity, tick.timestamp_ns);
                    self.store(side, candidate);
                    if candidate.is_confirmed && !found.is_confirmed {
                        return Some(self.create_iceberg_info(&candidate, side));
                    }
                    return None;
                }
            },
            None => {},
        }
        self.store(side, IcebergCandidate::new(tick.price, tick.quantity, tick.timestamp_ns));
        None
    }

    fn candidate_at(&self, side: OrderSide, price: i64) -> (r: Option<IcebergCandidate>)
        requires
            self.wf(),
        ensures
            r == (if self.side_map(side).dom().contains(price) {
                Some(self.side_map(side)[price])
            } else {
                None
            }),
    {
        match side {
            OrderSide::Bid => match self.bid_candidates.find(price) {
                Some(i) => Some(self.bid_candidates.entries[i]),
                None => None,
            },
            OrderSide::Ask => match self.ask_candidates.find(price) {
                Some(i) => Some(self.ask_candidates.entries[i]),
                None => None,
            },
        }
    }

    fn store(&mut self, side: OrderSide, c: IcebergCandidate)
        requires
            old(self).wf(),
        ensures
            final(self).wf(),
            final(self).side_map(side) == old(self).side_map(side).insert(c.price, c),
            side == OrderSide::Bid ==> final(self).ask_candidates == old(self).ask_candidates,
            side == OrderSide::Ask ==> final(self).bid_candidates == old(self).bid_candidates,
            final(self).trade_tape == old(self).trade_tape,
            final(self).confirmed_icebergs == old(self).confirmed_icebergs,
    {
        match side {
            OrderSide::Bid => self.bid_candidates.put(c),
            OrderSide::Ask => self.ask_candidates.put(c),
        }
    }

    fn create_iceberg_info(&mut self, candidate: &IcebergCandidate, side: OrderSide) -> (r:
        IcebergInfo)
        requires
            old(self).wf(),
        ensures
            final(self).wf(),
            r == info_of(*candidate, side),
            final(self).confirmed_icebergs@ == push_bounded(
                old(self).confirmed_icebergs@,
                info_of(*candidate, side),
                MAX_CONFIRMED as int,
            ),
            final(self).trade_tape == old(self).trade_tape,
            final(self).bid_candidates == old(self).bid_candidates,
            final(self).ask_candidates == old(self).ask_candidates,
    {
        let info: IcebergInfo = IcebergInfo {
            price: candidate.price,
            side,
            visible_size: candidate.typical_size,
            estimated_total: candidate.total_volume,
            fill_count: candidate.fill_count,
            confidence: Ratio {
                num: if candidate.fill_count < MIN_REPEAT_FILLS {
                    candidate.fill_count as u64
                } else {
                    MIN_REPEAT_FILLS as u64
                },
                den: MIN_REPEAT_FILLS as u64,
            },
            last_fill_ns: candidate.last_seen_ns,
        };
        self.confirmed_icebergs.push(info);
        if self.confirmed_icebergs.len() > MAX_CONFIRMED {
            let _ = self.confirmed_icebergs.remove(0);
        }
        assert(self.confirmed_icebergs@ =~= push_bounded(
            old(self).confirmed_icebergs@,
            info_of(*candidate, side),
            MAX_CONFIRMED as int,
        ));
        info
    }

    /// Get all currently detected icebergs.
    pub fn get_icebergs(&self) -> (r: &[IcebergInfo])
        ensures
            r@ == self.confirmed_icebergs@,
    {
        self.confirmed_icebergs.as_slice()
    }

    /// Clean up stale candidates, and confirmed icebergs whose last fill has left
    /// the window.
    pub fn cleanup_stale(&mut self, current_ns: u128)
        requires
            old(self).wf(),
            forall|p: i64| #[trigger]
                old(self).bid_candidates@.dom().contains(p) ==> old(self).bid_candidates@[p].last_seen_ns <= current_ns,
            forall|p: i64| #[trigger]
                old(self).ask_candidates@.dom().contains(p) ==> old(self).ask_candidates@[p].last_seen_ns <= current_ns,
            forall|i: int|
                0 <= i < old(self).confirmed_icebergs.len() ==> (#[trigger] old(self).confirmed_icebergs@[i]).last_fill_ns <= current_ns,
        ensures
            final(self).wf(),
            final(self).bid_candidates@ == fresh_only(
                old(self).bid_candidates@,
                current_ns,
            ),
            final(self).ask_candidates@ == fresh_only(
                old(self).ask_candidates@,
                current_ns,
            ),
            final(self).confirmed_icebergs@ == old(self).confirmed_icebergs@.filter(
                |i: IcebergInfo| current_ns - i.last_fill_ns < TIME_WINDOW_NS,
            ),
            final(self).trade_tape == old(self).trade_tape,
    {
        proof {
            lemma_by_price(self.bid_candidates.entries@);
            lemma_by_price(self.ask_candidates.entries@);
        }
        self.bid_candidates.retain_fresh(current_ns);
        self.ask_candidates.retain_fresh(current_ns);
        let ghost all = self.confirmed_icebergs@;
        let ghost keep = |i: IcebergInfo| current_ns - i.last_fill_ns < TIME_WINDOW_NS;
        let mut kept: Vec<IcebergInfo> = Vec::new();
        let mut i: usize = 0;
        proof {
            assert(all.subrange(0, 0).filter(keep) =~= Seq::<IcebergInfo>::empty()) by {
                reveal(Seq::filter);
            }
        }
        while i < self.confirmed_icebergs.len()
            invariant
                i <= self.confirmed_icebergs.len(),
                self.confirmed_icebergs@ == all,
                self.confirmed_icebergs.len() <= MAX_CONFIRMED,
                self.trade_tape == old(self).trade_tape,
                self.trade_tape.len() <= MAX_TAPE_HISTORY,
                self.bid_candidates.wf(),
                self.ask_candidates.wf(),
                keyed_by_price(self.bid_candidates@),
                keyed_by_price(self.ask_candidates@),
                self.bid_candidates@ == fresh_only(old(self).bid_candidates@, current_ns),
                self.ask_candidates@ == fresh_only(old(self).ask_candidates@, current_ns),
                keep == (|i: IcebergInfo| current_ns - i.last_fill_ns < TIME_WINDOW_NS),
                forall|k: int| 0 <= k < all.len() ==> (#[trigger] all[k]).last_fill_ns <= current_ns,
                kept@ == all.subrange(0, i as int).filter(keep),
                kept.len() <= i,
            decreases self.confirmed_icebergs.len() - i,
        {
            let info: IcebergInfo = self.confirmed_icebergs[i];
            if current_ns - info.last_fill_ns < TIME_WINDOW_NS {
                kept.push(info);
            }
            proof {
                let next = all.subrange(0, i + 1);
                assert(next.drop_last() =~= all.subrange(0, i as int));
                assert(next.last() == info);
                assert(next.filter(keep) =~= kept@) by {
                    reveal(Seq::filter);
                }
            }
            i = i + 1;
        }
        proof {
            assert(all.subrange(0, all.len() as int) =~= all);
        }
        self.confirmed_icebergs = kept;
    }

    /// Get statistics on detected icebergs.
    pub fn get_stats(&self) -> (r: IcebergStats)
        requires
            math::sum_of(hidden_volumes(self.confirmed_icebergs@)) <= u64::MAX,
        ensures
            r.bid_icebergs == confirmed_count(self.bid_candidates.entries@),
            r.ask_icebergs == confirmed_count(self.ask_candidates.entries@),
            r.total_hidden_volume == math::sum_of(hidden_volumes(self.confirmed_icebergs@)),
    {
        let bid_icebergs: usize = self.bid_candidates.count_confirmed();
        let ask_icebergs: usize = self.ask_candidates.count_confirmed();
        let ghost all = self.confirmed_icebergs@;
        let mut total: u64 = 0;
        let mut i: usize = self.confirmed_icebergs.len();
        proof {
            assert(hidden_volumes(all.subrange(all.len() as int, all.len() as int))
                =~= Seq::<int>::empty());
        }
        while i > 0
            invariant
                i <= self.confirmed_icebergs.len(),
                self.confirmed_icebergs@ == all,
                math::sum_of(hidden_volumes(all)) <= u64::MAX,
                total == math::sum_of(hidden_volumes(all.subrange(i as int, all.len() as int))),
            decreases i,
        {
            i = i - 1;
            let info: IcebergInfo = self.confirmed_icebergs[i];
            let hidden: u64 = info.estimated_total.saturating_sub(info.visible_size);
            proof {
                let rest = hidden_volumes(all.subrange(i as int, all.len() as int));
                math::lemma_sum_drop_first(rest);
                assert(rest.subrange(1, rest.len() as int) =~= hidden_volumes(
                    all.subrange(i + 1, all.len() as int),
                ));
                lemma_suffix_sum(hidden_volumes(all), i as int);
                assert(hidden_volumes(all).subrange(i as int, all.len() as int) =~= rest);
            }
            total = total + hidden;
        }
        proof {
            assert(all.subrange(0, all.len() as int) =~= all);
        }
        IcebergStats { bid_icebergs, ask_icebergs, total_hidden_volume: total }
    }
}

/// Every candidate stands under its own price.
pub open spec fn keyed_by_price(m: Map<i64, IcebergCandidate>) -> bool {
    forall|p: i64| #[trigger] m.dom().contains(p) ==> m[p].price == p
}

/// The end of a sum of volumes is no larger than the whole.
proof fn lemma_suffix_sum(s: Seq<int>, i: int)
    requires
        0 <= i <= s.len(),
        forall|k: int| 0 <= k < s.len() ==> #[trigger] s[k] >= 0,
    ensures
        math::sum_of(s.subrange(i, s.len() as int)) <= math::sum_of(s),
    decreases i,
{
    if i == 0 {
        assert(s.subrange(0, s.len() as int) =~= s);
    } else {
        lemma_suffix_sum(s, i - 1);
        let t = s.subrange(i - 1, s.len() as int);
        math::lemma_sum_drop_first(t);
        assert(t.subrange(1, t.len() as int) =~= s.subrange(i, s.len() as int));
    }
}

/// Counts the sizes within a tolerance of a target.
pub open spec fn sizes_near(sizes: Seq<u64>, target: int, tolerance: int) -> nat
    decreases sizes.len(),
{
    if sizes.len() == 0 {
        0
    } else {
        sizes_near(sizes.drop_last(), target, tolerance) + (if target - tolerance <= sizes.last()
            <= target + tolerance {
            1nat
        } else {
            0nat
        })
    }
}

/// Counts the sizes of a tape batch that lie within a tolerance of a target.
pub fn match_sizes(sizes: &[u64], target: u64, tolerance: u64) -> (count: u32)
    requires
        sizes@.len() <= u32::MAX,
        target + tolerance <= u64::MAX,
    ensures
        count == sizes_near(sizes@, target as int, tolerance as int),
{
    let lower: u64 = target.saturating_sub(tolerance);
    let upper: u64 = target + tolerance;
    let mut count: u32 = 0;
    let mut i: usize = 0;
    proof {
        assert(sizes@.subrange(0, 0) =~= Seq::<u64>::empty());
    }
    while i < sizes.len()
        invariant
            i <= sizes@.len(),
            sizes@.len() <= u32::MAX,
            count <= i,
            upper == target + tolerance,
            lower == math::max_int(target - tolerance, 0),
            count == sizes_near(sizes@.subrange(0, i as int), target as int, tolerance as int),
        decreases sizes@.len() - i,
    {
        proof {
            let next = sizes@.subrange(0, i + 1);
            assert(next.drop_last() =~= sizes@.subrange(0, i as int));
            assert(next.last() == sizes@[i as int]);
        }
        if sizes[i] >= lower && sizes[i] <= upper {
            count = count + 1;
        }
        i = i + 1;
    }
    proof {
        assert(sizes@.subrange(0, i as int) =~= sizes@);
    }
    count
}

/// Equal fills in quick succession: the tick that makes the fifth fill of one
/// size is the one that confirms.
pub proof fn law_fifth_equal_fill_confirms(m: Map<i64, IcebergCandidate>, tick: TradeTick)
    requires
        m.dom().contains(tick.price),
        m[tick.price].typical_size == tick.quantity,
        m[tick.price].fill_count == 4,
        !m[tick.price].is_confirmed,
        tick.timestamp_ns - m[tick.price].last_seen_ns <= TIME_WINDOW_NS,
    ensures
        confirms(m, tick),
{
}

/// A fill of another size or after a long pause confirms nothing and starts a
/// new candidate.
pub proof fn law_break_starts_anew(m: Map<i64, IcebergCandidate>, tick: TradeTick)
    requires
        !continues(m, tick),
    ensures
        !confirms(m, tick),
        next_candidate(m, tick).fill_count == 1,
        !next_candidate(m, tick).is_confirmed,
{
}

/// A fill fits a candidate where it differs from the typical size by at most a
/// tenth of it, either way.
pub proof fn law_fills_differ_by_a_tenth(c: IcebergCandidate, quantity: u64)
    ensures
        c.fits(quantity) <==> 10 * (quantity - c.typical_size) <= c.typical_size && 10 * (
        c.typical_size - quantity) <= c.typical_size,
{
}

/// One more fill counts once, adds its volume, is the last one seen, and makes
/// the typical size the mean of all fills; the fifth confirms, and what is
/// confirmed stays so.
pub proof fn law_fill_moves_candidate(c: IcebergCandidate, quantity: u64, timestamp_ns: u128)
    requires
        c.fill_count < u32::MAX,
        c.total_volume + quantity <= u64::MAX,
    ensures
        ({
            let d = c.with_fill(quantity, timestamp_ns);
            &&& d.price == c.price
            &&& d.first_seen_ns == c.first_seen_ns
            &&& d.last_seen_ns == timestamp_ns
            &&& d.fill_count == c.fill_count + 1
            &&& d.total_volume - c.total_volume == quantity
            &&& d.typical_size * d.fill_count <= d.total_volume < (d.typical_size + 1)
                * d.fill_count
            &&& d.is_confirmed <==> c.is_confirmed || c.fill_count >= 4
        }),
{
    let (t, n) = ((c.total_volume + quantity) as int, (c.fill_count + 1) as int);
    let q = t / n;
    vstd::arithmetic::div_mod::lemma_fundamental_div_mod(t, n);
    vstd::arithmetic::div_mod::lemma_mod_bound(t, n);
    assert(q * n == n * q && (q + 1) * n == n * q + n) by (nonlinear_arith);
    assert(0 <= q <= t) by (nonlinear_arith)
        requires
            t == n * q + t % n,
            0 <= t % n < n,
            n >= 1,
            t >= 0,
    ;
}

/// A candidate is outdated once more than a minute has passed since its last
/// fill.
pub proof fn law_candidates_live_a_minute(c: IcebergCandidate, now: u128)
    ensures
        c.outdated(now) <==> now > c.last_seen_ns + 60_000_000_000,
{
}

/// A fill that starts anew is the only one of its candidate.
pub proof fn law_first_fill_stands_alone(m: Map<i64, IcebergCandidate>, tick: TradeTick)
    requires
        !continues(m, tick),
    ensures
        ({
            let c = next_candidate(m, tick);
            &&& c.price == tick.price
            &&& c.typical_size == tick.quantity
            &&& c.total_volume == tick.quantity
            &&& c.first_seen_ns == tick.timestamp_ns
            &&& c.last_seen_ns == tick.timestamp_ns
        }),
{
}

/// A fill continues the candidate at its price exactly where there is one that
/// it fits and that was filled within the last minute; it confirms exactly
/// where it is the fifth at least and none before it did.
pub proof fn law_fill_continues_recent_candidate(m: Map<i64, IcebergCandidate>, tick: TradeTick)
    requires
        m.dom().contains(tick.price) ==> m[tick.price].fill_count < u32::MAX,
    ensures
        continues(m, tick) <==> {
            &&& m.dom().contains(tick.price)
            &&& m[tick.price].fits(tick.quantity)
            &&& tick.timestamp_ns <= m[tick.price].last_seen_ns + 60_000_000_000
        },
        confirms(m, tick) <==> continues(m, tick) && !m[tick.price].is_confirmed
            && m[tick.price].fill_count >= 4,
{
}

/// An aggressive buyer fills an order on the ask side, an aggressive seller one
/// on the bid side, and the candidates of the two sides are kept apart.
pub proof fn law_fills_hit_the_other_side(d: IcebergDetector, tick: TradeTick)
    ensures
        tick.is_buy ==> side_hit(tick) == OrderSide::Ask,
        !tick.is_buy ==> side_hit(tick) == OrderSide::Bid,
        d.side_map(OrderSide::Bid) == d.bid_candidates@,
        d.side_map(OrderSide::Ask) == d.ask_candidates@,
{
}

/// What is reported of an iceberg is what its candidate holds; the confidence
/// is the share of the five fills that confirm, at most one.
pub proof fn law_report_tells_candidate(c: IcebergCandidate, side: OrderSide)
    ensures
        ({
            let i = info_of(c, side);
            &&& i.price == c.price
            &&& i.side == side
            &&& i.visible_size == c.typical_size
            &&& i.estimated_total == c.total_volume
            &&& i.fill_count == c.fill_count
            &&& i.last_fill_ns == c.last_seen_ns
            &&& i.confidence.den == 5
            &&& c.fill_count <= 5 ==> i.confidence.num == c.fill_count
            &&& c.fill_count > 5 ==> i.confidence.num == 5
        }),
{
}

/// What is hidden of an iceberg is its total less what is visible, and the
/// hidden volumes of several are listed one by one.
pub proof fn law_hidden_volume(infos: Seq<IcebergInfo>, i: int)
    requires
        0 <= i < infos.len(),
    ensures
        hidden_volumes(infos).len() == infos.len(),
        infos[i].estimated_total >= infos[i].visible_size ==> hidden_volumes(infos)[i]
            + infos[i].visible_size == infos[i].estimated_total,
        infos[i].estimated_total < infos[i].visible_size ==> hidden_volumes(infos)[i] == 0,
{
}

/// A bounded list takes every new element at its end and gives up its oldest
/// one only where it would grow beyond its limit.
pub proof fn law_bounded_list_keeps_newest<T>(s: Seq<T>, x: T, limit: int)
    requires
        s.len() <= limit,
        limit > 0,
    ensures
        push_bounded(s, x, limit).last() == x,
        push_bounded(s, x, limit).len() <= limit,
        s.len() < limit ==> push_bounded(s, x, limit).drop_last() == s,
        s.len() == limit ==> push_bounded(s, x, limit).drop_last() == s.subrange(
            1,
            s.len() as int,
        ),
{
    if s.len() < limit {
        assert(s.push(x).drop_last() =~= s);
    } else {
        assert(push_bounded(s, x, limit).drop_last() =~= s.subrange(1, s.len() as int));
    }
}

/// Sizes near a target are those that differ from it by at most the tolerance,
/// each counted once.
pub proof fn law_sizes_near_count_each(
    s: Seq<u64>,
    t: Seq<u64>,
    x: u64,
    target: int,
    tolerance: int,
)
    ensures
        sizes_near(s + t, target, tolerance) == sizes_near(s, target, tolerance) + sizes_near(
            t,
            target,
            tolerance,
        ),
        sizes_near(seq![x], target, tolerance) == (if math::abs_int(x - target) <= tolerance {
            1nat
        } else {
            0
        }),
    decreases t.len(),
{
    assert(seq![x].drop_last() =~= Seq::<u64>::empty());
    reveal_with_fuel(sizes_near, 2);
    if t.len() == 0 {
        assert(s + t =~= s);
    } else {
        law_sizes_near_count_each(s, t.drop_last(), x, target, tolerance);
        assert((s + t).drop_last() =~= s + t.drop_last());
    }
}

/// Of the candidates only those that are not outdated stay, unchanged.
pub proof fn law_fresh_candidates_stay(m: Map<i64, IcebergCandidate>, now: u128, p: i64)
    ensures
        fresh_only(m, now).dom().contains(p) <==> m.dom().contains(p) && now <= m[p].last_seen_ns
            + 60_000_000_000,
        fresh_only(m, now).dom().contains(p) ==> fresh_only(m, now)[p] == m[p],
{
}

/// Candidates are found under their price; of the entries those that are not
/// outdated stay in their order, and the confirmed ones count once each.
pub proof fn law_candidates_by_price(
    entries: Seq<IcebergCandidate>,
    c: IcebergCandidate,
    p: i64,
    now: u128,
)
    ensures
        by_price(entries.push(c)).dom().contains(c.price) && by_price(entries.push(c))[c.price] == c,
        p != c.price ==> (by_price(entries.push(c)).dom().contains(p) <==> by_price(
            entries,
        ).dom().contains(p)),
        p != c.price && by_price(entries).dom().contains(p) ==> by_price(entries.push(c))[p]
            == by_price(entries)[p],
        now > c.last_seen_ns + 60_000_000_000 ==> fresh_entries(entries.push(c), now)
            == fresh_entries(entries, now),
        now <= c.last_seen_ns + 60_000_000_000 ==> fresh_entries(entries.push(c), now)
            == fresh_entries(entries, now).push(c),
        confirmed_count(entries.push(c)) == confirmed_count(entries) + (if c.is_confirmed {
            1nat
        } else {
            0
        }),
        confirmed_count(Seq::<IcebergCandidate>::empty()) == 0,
{
    assert(entries.push(c).drop_last() =~= entries);
}

} // verus!
