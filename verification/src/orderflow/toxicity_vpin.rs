//! Volume-synchronised probability of informed trading with volume buckets
//! that adapt to the speed of the market.
use crate::math;
use std::collections::VecDeque;
use vstd::prelude::*;

verus! {

/// Wanted time to fill a bucket: one second.
pub const TARGET_DURATION_NS: u64 = 1_000_000_000;

/// A slow market does not shrink a bucket from above to below this volume.
pub const MIN_TARGET_VOLUME: u64 = 1000;

/// Buckets needed before the size adapts.
pub const MIN_ADAPT_BUCKETS: usize = 5;

/// VPIN values are parts of this whole.
pub const VPIN_SCALE: u64 = 10000;

/// Represents a single volume bucket for VPIN calculation.
#[derive(Debug, Clone, Copy, PartialEq, Eq, Structural)]
pub struct VolumeBucket {
    pub buy_volume: u64,
    pub sell_volume: u64,
    pub timestamp_start_ns: u64,
    pub timestamp_end_ns: u64,
}

impl VolumeBucket {
    pub open spec fn empty() -> VolumeBucket {
        VolumeBucket {
            buy_volume: 0,
            sell_volume: 0,
            timestamp_start_ns: 0,
            timestamp_end_ns: 0,
        }
    }

    pub open spec fn total(self) -> int {
        self.buy_volume + self.sell_volume
    }

    pub open spec fn gap(self) -> int {
        math::abs_int(self.buy_volume - self.sell_volume)
    }

    /// Nanoseconds from the first to the last trade, where time moved on.
    pub open spec fn duration(self) -> int {
        if self.timestamp_end_ns > self.timestamp_start_ns {
            self.timestamp_end_ns - self.timestamp_start_ns
        } else {
            0
        }
    }

    /// The bucket after a trade.
    pub open spec fn with_trade(self, volume: u64, is_buy: bool, timestamp_ns: u64)
        -> VolumeBucket {
        VolumeBucket {
            buy_volume: if is_buy {
                (self.buy_volume + volume) as u64
            } else {
                self.buy_volume
            },
            sell_volume: if is_buy {
                self.sell_volume
            } else {
                (self.sell_volume + volume) as u64
            },
            timestamp_start_ns: if self.timestamp_start_ns == 0 {
                timestamp_ns
            } else {
                self.timestamp_start_ns
            },
            timestamp_end_ns: timestamp_ns,
        }
    }

    pub fn new() -> (r: Self)
        ensures
            r == VolumeBucket::empty(),
    {
        VolumeBucket {
            buy_volume: 0,
            sell_volume: 0,
            timestamp_start_ns: 0,
            timestamp_end_ns: 0,
        }
    }

    /// Add a trade to the bucket based on tick rule classification.
    pub fn add_trade(&mut self, volume: u64, is_buy: bool, timestamp_ns: u64)
        requires
            (if is_buy {
                old(self).buy_volume
            } else {
                old(self).sell_volume
            }) + volume <= u64::MAX,
        ensures
            *final(self) == old(self).with_trade(volume, is_buy, timestamp_ns),
    {
        if self.timestamp_start_ns == 0 {
            self.timestamp_start_ns = timestamp_ns;
        }
        self.timestamp_end_ns = timestamp_ns;
        if is_buy {
            self.buy_volume = self.buy_volume + volume;
        } else {
            self.sell_volume = self.sell_volume + volume;
        }
    }

    /// Get total volume in this bucket.
    pub fn total_volume(&self) -> (r: u64)
        requires
            self.total() <= u64::MAX,
        ensures
            r == self.total(),
    {
        self.buy_volume + self.sell_volume
    }

    /// Get absolute imbalance in this bucket.
    pub fn imbalance(&self) -> (r: u64)
        ensures
            r == self.gap(),
    {
        if self.buy_volume > self.sell_volume {
            self.buy_volume - self.sell_volume
        } else {
            self.sell_volume - self.buy_volume
        }
    }
}

impl Default for VolumeBucket {
    fn default() -> (r: Self)
        ensures
            r == VolumeBucket::empty(),
    {
        VolumeBucket::new()
    }
}

pub open spec fn gaps(buckets: Seq<VolumeBucket>) -> Seq<int> {
    buckets.map_values(|b: VolumeBucket| b.gap())
}

pub open spec fn totals(buckets: Seq<VolumeBucket>) -> Seq<int> {
    buckets.map_values(|b: VolumeBucket| b.total())
}

pub open spec fn durations(buckets: Seq<VolumeBucket>) -> Seq<int> {
    buckets.map_values(|b: VolumeBucket| b.duration())
}

/// How many buckets took any time to fill.
pub open spec fn timed_count(buckets: Seq<VolumeBucket>) -> nat
    decreases buckets.len(),
{
    if buckets.len() == 0 {
        0
    } else {
        timed_count(buckets.drop_last()) + (if buckets.last().duration() > 0 {
            1nat
        } else {
            0nat
        })
    }
}

/// A target a tenth smaller, which stops at the smallest volume on its way down
/// and never vanishes.
pub open spec fn reduced_target(target: u64) -> int {
    math::max_int(
        target * 9 / 10,
        if target >= MIN_TARGET_VOLUME {
            MIN_TARGET_VOLUME as int
        } else {
            math::min_int(target as int, 1)
        },
    )
}

/// The bucket volume to aim for next: a tenth less where the buckets took more
/// than twice the wanted time on average, a tenth more where they took less
/// than half of it.
pub open spec fn adapted_target(buckets: Seq<VolumeBucket>, target: u64) -> int {
    if buckets.len() < MIN_ADAPT_BUCKETS || timed_count(buckets) == 0 {
        target as int
    } else {
        let average = math::sum_of(durations(buckets)) / timed_count(buckets) as int;
        if average > 2 * TARGET_DURATION_NS {
            reduced_target(target)
        } else if average < TARGET_DURATION_NS / 2 {
            target * 11 / 10
        } else {
            target as int
        }
    }
}

/// The window after one more full bucket; the oldest leaves a full window.
pub open spec fn window_with(buckets: Seq<VolumeBucket>, b: VolumeBucket, limit: int) -> Seq<
    VolumeBucket,
> {
    if buckets.len() >= limit && buckets.len() > 0 {
        buckets.subrange(1, buckets.len() as int).push(b)
    } else {
        buckets.push(b)
    }
}

/// VPIN of a window: the sum of imbalances over the sum of volumes, in
/// ten-thousandths, rounded down.
pub open spec fn vpin_of(buckets: Seq<VolumeBucket>) -> int {
    if math::sum_of(totals(buckets)) == 0 {
        0
    } else {
        math::sum_of(gaps(buckets)) * VPIN_SCALE / math::sum_of(totals(buckets))
    }
}

proof fn lemma_gaps_within_totals(buckets: Seq<VolumeBucket>)
    ensures
        0 <= math::sum_of(gaps(buckets)) <= math::sum_of(totals(buckets)),
    decreases buckets.len(),
{
    if buckets.len() > 0 {
        let t = buckets.drop_last();
        lemma_gaps_within_totals(t);
        assert(gaps(buckets).drop_last() =~= gaps(t));
        assert(totals(buckets).drop_last() =~= totals(t));
    }
}

/// VPIN never exceeds the whole.
pub proof fn law_vpin_is_a_share(buckets: Seq<VolumeBucket>)
    ensures
        0 <= vpin_of(buckets) <= VPIN_SCALE,
{
    lemma_gaps_within_totals(buckets);
    let g = math::sum_of(gaps(buckets));
    let t = math::sum_of(totals(buckets));
    if t != 0 {
        assert(0 <= g * 10000 / t <= 10000) by (nonlinear_arith)
            requires
                0 <= g <= t,
                t > 0,
        ;
    }
}

/// A slow market never raises the target, and leaves none at nothing.
pub proof fn law_slow_market_reduces(target: u64)
    ensures
        reduced_target(target) <= target,
        target > 0 ==> reduced_target(target) > 0,
        1 < target < MIN_TARGET_VOLUME || target * 9 / 10 >= MIN_TARGET_VOLUME
            ==> reduced_target(target) == target * 9 / 10,
{
}

/// A trade as the calculator takes it: a buy where the price did not fall.
pub struct VpinTick {
    pub volume: u64,
    pub is_buy: bool,
    pub timestamp_ns: u64,
}

/// What a calculator knows.
#[verifier::ext_equal]
pub struct VpinModel {
    pub buckets: Seq<VolumeBucket>,
    pub target: u64,
    pub current: VolumeBucket,
    pub limit: nat,
    pub vpin: u32,
}

impl VpinModel {
    /// Nothing has been traded yet.
    pub open spec fn initial(limit: nat, target: u64) -> VpinModel {
        VpinModel {
            buckets: Seq::empty(),
            target,
            current: VolumeBucket::empty(),
            limit,
            vpin: 0,
        }
    }

    /// The current bucket with a tick.
    pub open spec fn bucket_with(self, tick: VpinTick) -> VolumeBucket {
        self.current.with_trade(tick.volume, tick.is_buy, tick.timestamp_ns)
    }

    /// The tick brings the current bucket to its target.
    pub open spec fn reaches_target(self, tick: VpinTick) -> bool {
        self.bucket_with(tick).total() >= self.target
    }

    /// The tick fills the current bucket with something.
    pub open spec fn fills(self, tick: VpinTick) -> bool {
        self.reaches_target(tick) && self.bucket_with(tick).total() > 0
    }

    /// The window of full buckets after a tick.
    pub open spec fn window_with_tick(self, tick: VpinTick) -> Seq<VolumeBucket> {
        if self.fills(tick) {
            window_with(self.buckets, self.bucket_with(tick), self.limit as int)
        } else {
            self.buckets
        }
    }

    /// The VPIN that a tick reports: where it completes a bucket and the window
    /// is full.
    pub open spec fn report(self, tick: VpinTick) -> Option<u32> {
        if self.reaches_target(tick) && self.window_with_tick(tick).len() == self.limit {
            Some(vpin_of(self.window_with_tick(tick)) as u32)
        } else {
            None
        }
    }

    /// The calculator after a tick.
    pub open spec fn after(self, tick: VpinTick) -> VpinModel {
        VpinModel {
            buckets: self.window_with_tick(tick),
            target: if self.fills(tick) {
                adapted_target(self.window_with_tick(tick), self.target) as u64
            } else {
                self.target
            },
            current: if self.reaches_target(tick) {
                VolumeBucket::empty()
            } else {
                self.bucket_with(tick)
            },
            limit: self.limit,
            vpin: match self.report(tick) {
                Some(v) if math::sum_of(totals(self.window_with_tick(tick))) > 0 => v,
                _ => self.vpin,
            },
        }
    }

    /// The calculator after a run of ticks.
    pub open spec fn after_all(self, ticks: Seq<VpinTick>) -> VpinModel
        decreases ticks.len(),
    {
        if ticks.len() == 0 {
            self
        } else {
            self.after_all(ticks.drop_last()).after(ticks.last())
        }
    }

    /// All buckets that a run of ticks fills, in order.
    pub open spec fn filled(self, ticks: Seq<VpinTick>) -> Seq<VolumeBucket>
        decreases ticks.len(),
    {
        if ticks.len() == 0 {
            Seq::empty()
        } else {
            let before = self.after_all(ticks.drop_last());
            let earlier = self.filled(ticks.drop_last());
            if before.fills(ticks.last()) {
                earlier.push(before.bucket_with(ticks.last()))
            } else {
                earlier
            }
        }
    }
}

/// The last entries of a sequence, at most so many.
pub open spec fn newest(s: Seq<VolumeBucket>, n: nat) -> Seq<VolumeBucket> {
    if s.len() <= n {
        s
    } else {
        s.subrange(s.len() - n, s.len() as int)
    }
}

/// Over a whole run of a new calculator, the window holds the last buckets
/// filled, as many as it is made for.
pub proof fn law_window_is_newest(limit: nat, target: u64, ticks: Seq<VpinTick>)
    requires
        limit >= 1,
    ensures
        ({
            let m = VpinModel::initial(limit, target);
            &&& m.after_all(ticks).buckets == newest(m.filled(ticks), limit)
            &&& m.after_all(ticks).limit == limit
            &&& forall|i: int|
                0 <= i < m.filled(ticks).len() ==> (#[trigger] m.filled(ticks)[i]).total() > 0
        }),
    decreases ticks.len(),
{
    let m = VpinModel::initial(limit, target);
    if ticks.len() == 0 {
        assert(newest(m.filled(ticks), limit) =~= Seq::<VolumeBucket>::empty());
    } else {
        law_window_is_newest(limit, target, ticks.drop_last());
        assert(m.after_all(ticks).buckets =~= newest(m.filled(ticks), limit));
    }
}

/// Over a whole run of a new calculator, a tick reports exactly where it brings
/// the current bucket to the target in force and the window is full. What it
/// reports is the VPIN of the last filled buckets, which is then the latest
/// estimate. Any other tick leaves the estimate as it was.
pub proof fn law_report_of_run(limit: nat, target: u64, ticks: Seq<VpinTick>, tick: VpinTick)
    requires
        limit >= 1,
    ensures
        ({
            let m = VpinModel::initial(limit, target);
            let before = m.after_all(ticks);
            let after = m.after_all(ticks.push(tick));
            let window = newest(m.filled(ticks.push(tick)), limit);
            &&& before.report(tick) is Some <==> before.reaches_target(tick) && window.len()
                == limit
            &&& before.report(tick) matches Some(v) ==> {
                &&& v == vpin_of(window)
                &&& v <= VPIN_SCALE
                &&& after.vpin == v
            }
            &&& before.report(tick) is None ==> after.vpin == before.vpin
        }),
{
    let m = VpinModel::initial(limit, target);
    let all = ticks.push(tick);
    assert(all.drop_last() =~= ticks);
    law_window_is_newest(limit, target, ticks);
    law_window_is_newest(limit, target, all);
    let window = newest(m.filled(all), limit);
    law_vpin_is_a_share(window);
    if window.len() == limit {
        let t = totals(window);
        assert forall|k: int| 0 <= k < t.len() implies #[trigger] t[k] >= 0 by {}
        let last = m.filled(all).last();
        assert(last.total() > 0);
        assert(t.last() == last.total());
        math::lemma_sum_nonnegative(t.drop_last());
    }
}

/// VPIN Calculator with adaptive bucket sizing.
pub struct VpinCalculator {
    /// Rolling window of volume buckets
    pub buckets: VecDeque<VolumeBucket>,
    /// Target volume per bucket (adaptive)
    pub target_bucket_volume: u64,
    /// Current active bucket
    pub current_bucket: VolumeBucket,
    /// Number of buckets for VPIN window
    pub num_buckets: usize,
    /// Running sum of imbalances for efficient VPIN calculation
    pub running_imbalance_sum: u64,
    /// Running sum of total volumes
    pub running_volume_sum: u64,
    /// Last estimated VPIN value (scaled by 10000 for integer math)
    pub last_vpin: u32,
}

impl VpinCalculator {
    /// The running sums are those of the window.
    pub open spec fn wf(&self) -> bool {
        &&& self.running_imbalance_sum == math::sum_of(gaps(self.buckets@))
        &&& self.running_volume_sum == math::sum_of(totals(self.buckets@))
        &&& self.last_vpin <= VPIN_SCALE
        &&& self.buckets.len() <= math::max_int(self.num_buckets as int, 1)
    }

    pub open spec fn model(&self) -> VpinModel {
        VpinModel {
            buckets: self.buckets@,
            target: self.target_bucket_volume,
            current: self.current_bucket,
            limit: self.num_buckets as nat,
            vpin: self.last_vpin,
        }
    }

    /// The sums that a tick leads to fit their fields.
    pub open spec fn accepts(&self, tick: VpinTick) -> bool {
        let side = if tick.is_buy {
            self.current_bucket.buy_volume
        } else {
            self.current_bucket.sell_volume
        };
        let m = self.model();
        &&& side + tick.volume <= u64::MAX
        &&& m.bucket_with(tick).total() <= u64::MAX
        &&& m.fills(tick) ==> {
            &&& math::sum_of(totals(m.window_with_tick(tick))) <= u64::MAX
            &&& adapted_target(m.window_with_tick(tick), m.target) <= u64::MAX
        }
    }

    /// Create a new VPIN calculator with initial parameters.
    pub fn new(num_buckets: usize, initial_target_volume: u64) -> (r: Self)
        ensures
            r.wf(),
            r.model() == VpinModel::initial(num_buckets as nat, initial_target_volume),
    {
        let r = VpinCalculator {
            buckets: VecDeque::new(),
            target_bucket_volume: initial_target_volume,
            current_bucket: VolumeBucket::new(),
            num_buckets,
            running_imbalance_sum: 0,
            running_volume_sum: 0,
            last_vpin: 0,
        };
        assert(gaps(r.buckets@) =~= Seq::<int>::empty());
        assert(totals(r.buckets@) =~= Seq::<int>::empty());
        r
    }

    /// Classify a trade using the tick rule and add to current bucket.
    pub fn add_tick(&mut self, price: u64, volume: u64, timestamp_ns: u64, prev_price: u64) -> (r:
        Option<u32>)
        requires
            old(self).wf(),
            old(self).accepts(VpinTick { volume, is_buy: price >= prev_price, timestamp_ns }),
        ensures
            final(self).wf(),
            ({
                let tick = VpinTick { volume, is_buy: price >= prev_price, timestamp_ns };
                &&& final(self).model() == old(self).model().after(tick)
                &&& r == old(self).model().report(tick)
            }),
    {
        let is_buy: bool = price >= prev_price;
        let ghost tick = VpinTick { volume, is_buy, timestamp_ns };
        let ghost before = self.model();
        proof {
            lemma_gaps_within_totals(self.buckets@);
        }
        self.current_bucket.add_trade(volume, is_buy, timestamp_ns);
        if self.current_bucket.total_volume() >= self.target_bucket_volume {
            self.finalize_bucket();
            assert(self.buckets@ =~= before.window_with_tick(tick));
            if self.buckets.len() == self.num_buckets {
                let vpin: u32 = self.calculate_vpin();
                assert(self.model() =~= before.after(tick));
                return Some(vpin);
            }
        }
        assert(self.model() =~= before.after(tick));
        None
    }

    /// Finalize the current bucket and add to the rolling window.
    fn finalize_bucket(&mut self)
        requires
            old(self).wf(),
            old(self).current_bucket.total() <= u64::MAX,
            old(self).current_bucket.total() > 0 ==> ({
                let w = window_with(
                    old(self).buckets@,
                    old(self).current_bucket,
                    old(self).num_buckets as int,
                );
                &&& math::sum_of(totals(w)) <= u64::MAX
                &&& adapted_target(w, old(self).target_bucket_volume) <= u64::MAX
            }),
        ensures
            final(self).wf(),
            final(self).num_buckets == old(self).num_buckets,
            final(self).last_vpin == old(self).last_vpin,
            final(self).current_bucket == VolumeBucket::empty(),
            ({
                let b = old(self).current_bucket;
                let w = window_with(old(self).buckets@, b, old(self).num_buckets as int);
                if b.total() == 0 {
                    &&& final(self).buckets@ == old(self).buckets@
                    &&& final(self).target_bucket_volume == old(self).target_bucket_volume
                } else {
                    &&& final(self).buckets@ == w
                    &&& final(self).target_bucket_volume == adapted_target(
                        w,
                        old(self).target_bucket_volume,
                    )
                }
            }),
    {
        if self.current_bucket.total_volume() == 0 {
            self.current_bucket = VolumeBucket::new();
            return;
        }
        let finished: VolumeBucket = self.current_bucket;
        let ghost all = self.buckets@;
        proof {
            lemma_gaps_within_totals(all);
        }
        if self.buckets.len() >= self.num_buckets {
            match self.buckets.pop_front() {
                Some(oldest) => {
                    proof {
                        let rest = all.subrange(1, all.len() as int);
                        math::lemma_sum_drop_first(gaps(all));
                        math::lemma_sum_drop_first(totals(all));
                        assert(gaps(all).subrange(1, all.len() as int) =~= gaps(rest));
                        assert(totals(all).subrange(1, all.len() as int) =~= totals(rest));
                        lemma_gaps_within_totals(rest);
                        assert(self.buckets@ =~= rest);
                    }
                    self.running_imbalance_sum = self.running_imbalance_sum.saturating_sub(
                        oldest.imbalance(),
                    );
                    self.running_volume_sum = self.running_volume_sum.saturating_sub(
                        oldest.total_volume(),
                    );
                },
                None => {},
            }
        }
        let ghost kept = self.buckets@;
        proof {
            lemma_gaps_within_totals(kept);
            math::lemma_sum_push(gaps(kept), finished.gap());
            math::lemma_sum_push(totals(kept), finished.total());
            assert(gaps(kept.push(finished)) =~= gaps(kept).push(finished.gap()));
            assert(totals(kept.push(finished)) =~= totals(kept).push(finished.total()));
            lemma_gaps_within_totals(kept.push(finished));
        }
        self.running_imbalance_sum = self.running_imbalance_sum + finished.imbalance();
        self.running_volume_sum = self.running_volume_sum + finished.total_volume();
        self.buckets.push_back(finished);
        assert(self.buckets@ =~= window_with(all, finished, self.num_buckets as int));
        self.current_bucket = VolumeBucket::new();
        self.adapt_bucket_size();
    }

    /// Adapt bucket size based on market conditions.
    fn adapt_bucket_size(&mut self)
        requires
            old(self).wf(),
            adapted_target(old(self).buckets@, old(self).target_bucket_volume) <= u64::MAX,
        ensures
            final(self).wf(),
            final(self).buckets == old(self).buckets,
            final(self).current_bucket == old(self).current_bucket,
            final(self).num_buckets == old(self).num_buckets,
            final(self).last_vpin == old(self).last_vpin,
            final(self).target_bucket_volume == adapted_target(
                old(self).buckets@,
                old(self).target_bucket_volume,
            ),
    {
        if self.buckets.len() < MIN_ADAPT_BUCKETS {
            return;
        }
        let ghost all = self.buckets@;
        let mut total_duration: u128 = 0;
        let mut count: u64 = 0;
        let mut i: usize = 0;
        proof {
            assert(durations(all.subrange(0, 0)) =~= Seq::<int>::empty());
            assert(all.subrange(0, 0) =~= Seq::<VolumeBucket>::empty());
        }
        while i < self.buckets.len()
            invariant
                i <= self.buckets.len(),
                *self == *old(self),
                self.buckets@ == all,
                all.len() <= usize::MAX,
                count <= i,
                count == timed_count(all.subrange(0, i as int)),
                total_duration == math::sum_of(durations(all.subrange(0, i as int))),
                total_duration <= i * u64::MAX,
            decreases self.buckets.len() - i,
        {
            let bucket: VolumeBucket = self.buckets[i];
            proof {
                let part = all.subrange(0, i as int);
                let next = all.subrange(0, i + 1);
                assert(next.drop_last() =~= part);
                assert(next.last() == bucket);
                assert(durations(next) =~= durations(part).push(bucket.duration()));
                math::lemma_sum_push(durations(part), bucket.duration());
                assert(i * u64::MAX + u64::MAX == (i + 1) * u64::MAX) by (nonlinear_arith);
                assert((i + 1) * u64::MAX <= u128::MAX) by (nonlinear_arith)
                    requires
                        i + 1 <= u64::MAX,
                ;
            }
            if bucket.timestamp_end_ns > bucket.timestamp_start_ns {
                total_duration = total_duration + (bucket.timestamp_end_ns
                    - bucket.timestamp_start_ns) as u128;
                count = count + 1;
            }
            i = i + 1;
        }
        proof {
            assert(all.subrange(0, all.len() as int) =~= all);
        }
        if count == 0 {
            return;
        }
        let average: u128 = total_duration / count as u128;
        if average > (TARGET_DURATION_NS * 2) as u128 {
            let target: u64 = self.target_bucket_volume;
            let reduced: u64 = (target as u128 * 9 / 10) as u64;
            let floor: u64 = if target >= MIN_TARGET_VOLUME {
                MIN_TARGET_VOLUME
            } else if target >= 1 {
                1
            } else {
                0
            };
            self.target_bucket_volume = if reduced >= floor {
                reduced
            } else {
                floor
            };
        } else if average < (TARGET_DURATION_NS / 2) as u128 {
            self.target_bucket_volume = (self.target_bucket_volume as u128 * 11 / 10) as u64;
        }
    }

    /// Calculate VPIN from the current window of buckets.
    /// VPIN = Sum(|Buy - Sell|) / Sum(Buy + Sell)
    fn calculate_vpin(&mut self) -> (r: u32)
        requires
            old(self).wf(),
        ensures
            final(self).wf(),
            r == vpin_of(old(self).buckets@),
            final(self).last_vpin == (if old(self).running_volume_sum == 0 {
                old(self).last_vpin
            } else {
                r
            }),
            final(self).buckets == old(self).buckets,
            final(self).current_bucket == old(self).current_bucket,
            final(self).num_buckets == old(self).num_buckets,
            final(self).target_bucket_volume == old(self).target_bucket_volume,
    {
        proof {
            law_vpin_is_a_share(self.buckets@);
        }
        if self.running_volume_sum == 0 {
            return 0;
        }
        let scaled: u128 = (self.running_imbalance_sum as u128 * VPIN_SCALE as u128)
            / self.running_volume_sum as u128;
        self.last_vpin = scaled as u32;
        scaled as u32
    }

    /// Get the latest VPIN estimate (scaled by 10000).
    pub fn get_vpin(&self) -> (r: u32)
        ensures
            r == self.last_vpin,
    {
        self.last_vpin
    }

    /// Check if toxicity is above a threshold (e.g., 70% = 7000).
    pub fn is_toxic(&self, threshold_scaled: u32) -> (r: bool)
        ensures
            r == (self.last_vpin > threshold_scaled),
    {
        self.last_vpin > threshold_scaled
    }

    /// Get the current target bucket volume.
    pub fn get_target_bucket_volume(&self) -> (r: u64)
        ensures
            r == self.target_bucket_volume,
    {
        self.target_bucket_volume
    }
}

/// One-sided flow has a VPIN of the whole, balanced flow of nothing.
pub proof fn law_vpin_extremes(buckets: Seq<VolumeBucket>)
    requires
        math::sum_of(totals(buckets)) > 0,
    ensures
        (forall|i: int| 0 <= i < buckets.len() ==> (#[trigger] buckets[i]).sell_volume == 0)
            ==> vpin_of(buckets) == VPIN_SCALE,
        (forall|i: int|
            0 <= i < buckets.len() ==> (#[trigger] buckets[i]).sell_volume
                == buckets[i].buy_volume) ==> vpin_of(buckets) == 0,
{
    let t = math::sum_of(totals(buckets));
    if forall|i: int| 0 <= i < buckets.len() ==> (#[trigger] buckets[i]).sell_volume == 0 {
        assert(gaps(buckets) =~= totals(buckets));
        assert(t * 10000 / t == 10000) by (nonlinear_arith)
            requires
                t > 0,
        ;
    }
    if forall|i: int|
        0 <= i < buckets.len() ==> (#[trigger] buckets[i]).sell_volume == buckets[i].buy_volume {
        assert forall|i: int| 0 <= i < gaps(buckets).len() implies 0 <= #[trigger] gaps(buckets)[i]
            <= 0 by {
            assert(buckets[i].sell_volume == buckets[i].buy_volume);
        }
        math::lemma_sum_bounds(gaps(buckets), 0, 0);
        assert(0 * gaps(buckets).len() == 0) by (nonlinear_arith);
        assert(0int / t == 0) by (nonlinear_arith)
            requires
                t > 0,
        ;
    }
}

/// A trade adds its volume to its own side of a bucket, ends it for now, and
/// starts it where it is the first.
pub proof fn law_bucket_takes_trade(b: VolumeBucket, volume: u64, is_buy: bool, timestamp_ns: u64)
    requires
        b.buy_volume + volume <= u64::MAX,
        b.sell_volume + volume <= u64::MAX,
    ensures
        ({
            let c = b.with_trade(volume, is_buy, timestamp_ns);
            &&& is_buy ==> c.buy_volume == b.buy_volume + volume && c.sell_volume == b.sell_volume
            &&& !is_buy ==> c.sell_volume == b.sell_volume + volume && c.buy_volume == b.buy_volume
            &&& c.timestamp_end_ns == timestamp_ns
            &&& b.timestamp_start_ns != 0 ==> c.timestamp_start_ns == b.timestamp_start_ns
            &&& b.timestamp_start_ns == 0 ==> c.timestamp_start_ns == timestamp_ns
            &&& c.total() == b.total() + volume
            &&& b.total() == b.buy_volume + b.sell_volume
            &&& b.gap() == math::max_int(
                b.buy_volume - b.sell_volume,
                b.sell_volume - b.buy_volume,
            )
            &&& VolumeBucket::empty().total() == 0
            &&& b.timestamp_end_ns >= b.timestamp_start_ns ==> b.timestamp_start_ns + b.duration()
                == b.timestamp_end_ns
            &&& b.timestamp_end_ns < b.timestamp_start_ns ==> b.duration() == 0
        }),
{
}

/// The measure is the ten-thousandths of the volume by which the sides of the
/// buckets differ, rounded down, and nothing without volume; one more bucket
/// adds its own difference and volume.
pub proof fn law_vpin_is_gap_over_volume(buckets: Seq<VolumeBucket>, b: VolumeBucket)
    ensures
        ({
            let total = math::sum_of(totals(buckets));
            let gap = math::sum_of(gaps(buckets));
            let v = vpin_of(buckets);
            &&& total > 0 ==> v * total <= 10000 * gap < (v + 1) * total
            &&& total == 0 ==> v == 0
            &&& total >= 0
            &&& math::sum_of(totals(buckets.push(b))) == total + b.buy_volume + b.sell_volume
            &&& math::sum_of(gaps(buckets.push(b))) == gap + math::max_int(
                b.buy_volume - b.sell_volume,
                b.sell_volume - b.buy_volume,
            )
        }),
{
    let total = math::sum_of(totals(buckets));
    let gap = math::sum_of(gaps(buckets));
    let v = vpin_of(buckets);
    assert(totals(buckets.push(b)) =~= totals(buckets).push(b.total()));
    assert(gaps(buckets.push(b)) =~= gaps(buckets).push(b.gap()));
    math::lemma_sum_push(totals(buckets), b.total());
    math::lemma_sum_push(gaps(buckets), b.gap());
    assert forall|i: int| 0 <= i < totals(buckets).len() implies #[trigger] totals(buckets)[i]
        >= 0 by {}
    math::lemma_sum_nonnegative(totals(buckets));
    if total > 0 {
        let x = gap * 10000;
        vstd::arithmetic::div_mod::lemma_fundamental_div_mod(x, total);
        vstd::arithmetic::div_mod::lemma_mod_bound(x, total);
        assert(v * total == total * v && (v + 1) * total == total * v + total) by (nonlinear_arith);
    }
}

/// The target follows the pace of the market, once five buckets are there: it
/// falls where they last more than two seconds on the mean, rises by a tenth
/// where they last less than half a second, and stays otherwise. Only buckets
/// that last at all count for the mean.
pub proof fn law_target_follows_the_pace(buckets: Seq<VolumeBucket>, target: u64)
    ensures
        ({
            let count = timed_count(buckets) as int;
            let time = math::sum_of(durations(buckets));
            let next = adapted_target(buckets, target);
            &&& buckets.len() < 5 || count == 0 ==> next == target
            &&& buckets.len() >= 5 && count > 0 && time >= 2_000_000_001 * count ==> next
                == reduced_target(target)
            &&& buckets.len() >= 5 && count > 0 && time < 500_000_000 * count ==> next == target
                * 11 / 10
            &&& buckets.len() >= 5 && count > 0 && 500_000_000 * count <= time < 2_000_000_001
                * count ==> next == target
        }),
{
    let count = timed_count(buckets) as int;
    let time = math::sum_of(durations(buckets));
    if count > 0 {
        let a = time / count;
        vstd::arithmetic::div_mod::lemma_fundamental_div_mod(time, count);
        vstd::arithmetic::div_mod::lemma_mod_bound(time, count);
        assert(time >= 2_000_000_001 * count <==> a > 2_000_000_000) by (nonlinear_arith)
            requires
                count > 0,
                time == count * a + time % count,
                0 <= time % count < count,
        ;
        assert(time < 500_000_000 * count <==> a < 500_000_000) by (nonlinear_arith)
            requires
                count > 0,
                time == count * a + time % count,
                0 <= time % count < count,
        ;
    }
}

/// Buckets that last count once each, and their durations add up.
pub proof fn law_durations_count_each(s: Seq<VolumeBucket>, b: VolumeBucket)
    ensures
        timed_count(s.push(b)) == timed_count(s) + (if b.timestamp_end_ns > b.timestamp_start_ns {
            1nat
        } else {
            0
        }),
        timed_count(Seq::<VolumeBucket>::empty()) == 0,
        b.timestamp_end_ns >= b.timestamp_start_ns ==> math::sum_of(durations(s.push(b)))
            == math::sum_of(durations(s)) + (b.timestamp_end_ns - b.timestamp_start_ns),
{
    assert(s.push(b).drop_last() =~= s);
    assert(durations(s.push(b)) =~= durations(s).push(b.duration()));
    math::lemma_sum_push(durations(s), b.duration());
}

/// A slow market lowers the target by a tenth, but not from above a thousand to
/// below it.
pub proof fn law_slow_target_has_a_floor(target: u64)
    ensures
        target >= 1000 ==> reduced_target(target) >= 1000,
        target >= 1112 ==> 10 * reduced_target(target) <= 9 * target < 10 * reduced_target(target)
            + 10,
        1000 <= target < 1112 ==> reduced_target(target) == 1000,
{
}

/// A trade joins the current bucket; once that holds the target a new one
/// begins, and the full one joins the end of the window, which gives up its
/// oldest bucket where it is full.
pub proof fn law_full_buckets_join_the_window(m: VpinModel, tick: VpinTick)
    requires
        m.limit >= 1,
        m.buckets.len() <= m.limit,
        m.current.buy_volume + tick.volume <= u64::MAX,
        m.current.sell_volume + tick.volume <= u64::MAX,
    ensures
        ({
            let n = m.after(tick);
            let held = m.current.total() + tick.volume;
            let joins = held >= m.target && held > 0;
            &&& held >= m.target ==> n.current.total() == 0
            &&& held < m.target ==> n.current.total() == held
            &&& !joins ==> n.buckets == m.buckets && n.target == m.target
            &&& joins ==> {
                &&& n.buckets.len() == math::min_int((m.buckets.len() + 1) as int, m.limit as int)
                &&& n.buckets.last().total() == held
                &&& n.buckets.drop_last() == m.buckets.subrange(
                    m.buckets.len() - (n.buckets.len() - 1),
                    m.buckets.len() as int,
                )
            }
        }),
{
    let n = m.after(tick);
    let held = m.current.total() + tick.volume;
    if held >= m.target && held > 0 {
        assert(n.buckets.drop_last() =~= m.buckets.subrange(
            m.buckets.len() - (n.buckets.len() - 1),
            m.buckets.len() as int,
        ));
    }
}

} // verus!
