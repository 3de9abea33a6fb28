//! Order-flow toxicity: the share of imbalance in the last full volume buckets.
use crate::math;
use crate::math::{magnitude, Ratio};
use std::collections::VecDeque;
use vstd::prelude::*;

verus! {

/// Volume per bucket in base units
pub const VPIN_BUCKET_SIZE: u64 = 1000;

/// Number of buckets for rolling calculation
pub const VPIN_WINDOW_SIZE: usize = 50;

/// Represents a single volume bucket for VPIN calculation.
#[derive(Debug, Clone, Copy, PartialEq, Eq, Structural)]
pub struct VolumeBucket {
    pub buy_volume: u64,
    pub sell_volume: u64,
    /// buy - sell
    pub imbalance: i64,
}

pub open spec fn capped(a: int) -> u64 {
    math::min_int(a, u64::MAX as int) as u64
}

impl VolumeBucket {
    pub open spec fn empty() -> VolumeBucket {
        VolumeBucket { buy_volume: 0, sell_volume: 0, imbalance: 0 }
    }

    /// The bucket after a trade.
    pub open spec fn with_trade(self, volume: u64, is_buy: bool) -> VolumeBucket {
        let buy = if is_buy {
            capped(self.buy_volume + volume)
        } else {
            self.buy_volume
        };
        let sell = if is_buy {
            self.sell_volume
        } else {
            capped(self.sell_volume + volume)
        };
        VolumeBucket {
            buy_volume: buy,
            sell_volume: sell,
            imbalance: ((buy as i64) - (sell as i64)) as i64,
        }
    }

    /// The difference of the volumes after a trade fits a signed word.
    pub open spec fn accepts(self, volume: u64, is_buy: bool) -> bool {
        let b = self.with_trade(volume, is_buy);
        i64::MIN <= (b.buy_volume as i64) - (b.sell_volume as i64) <= i64::MAX
    }

    pub open spec fn total(self) -> int {
        self.buy_volume + self.sell_volume
    }

    pub fn new() -> (r: Self)
        ensures
            r == VolumeBucket::empty(),
    {
        VolumeBucket { buy_volume: 0, sell_volume: 0, imbalance: 0 }
    }

    pub fn add_trade(&mut self, volume: u64, is_buy: bool)
        requires
            old(self).accepts(volume, is_buy),
        ensures
            *final(self) == old(self).with_trade(volume, is_buy),
    {
        if is_buy {
            self.buy_volume = self.buy_volume.saturating_add(volume);
        } else {
            self.sell_volume = self.sell_volume.saturating_add(volume);
        }
        self.imbalance = self.buy_volume as i64 - self.sell_volume as i64;
    }

    pub fn is_full(&self) -> (r: bool)
        requires
            self.total() <= u64::MAX,
        ensures
            r == (self.total() >= VPIN_BUCKET_SIZE),
    {
        self.buy_volume + self.sell_volume >= VPIN_BUCKET_SIZE
    }

    pub fn total_volume(&self) -> (r: u64)
        requires
            self.total() <= u64::MAX,
        ensures
            r == self.total(),
    {
        self.buy_volume + self.sell_volume
    }
}

/// The magnitudes of the imbalances.
pub open spec fn imbalances(buckets: Seq<VolumeBucket>) -> Seq<int> {
    buckets.map_values(|b: VolumeBucket| math::abs_int(b.imbalance as int))
}

pub open spec fn totals(buckets: Seq<VolumeBucket>) -> Seq<int> {
    buckets.map_values(|b: VolumeBucket| b.total())
}

/// The share of imbalance in a window of buckets; nothing where there is no
/// volume.
pub open spec fn vpin_of(buckets: Seq<VolumeBucket>) -> Ratio {
    let total = capped(math::sum_of(totals(buckets)));
    if total == 0 {
        Ratio { num: 0, den: 1 }
    } else {
        Ratio { num: capped(math::sum_of(imbalances(buckets))), den: total }
    }
}

/// A share above eight tenths is toxic.
pub open spec fn toxic(vpin: Ratio) -> bool {
    vpin.num * 10 > vpin.den * 8
}

fn above_threshold(vpin: Ratio) -> (r: bool)
    ensures
        r == toxic(vpin),
{
    (vpin.num as u128) * 10 > (vpin.den as u128) * 8
}

/// VPIN over a rolling window of full buckets.
pub struct VpinDetector {
    pub buckets: VecDeque<VolumeBucket>,
    pub current_bucket: VolumeBucket,
    pub cumulative_volume: u64,
    pub vpin_value: Ratio,
    pub is_toxic: bool,
}

impl VpinDetector {
    pub open spec fn wf(&self) -> bool {
        &&& self.buckets.len() <= VPIN_WINDOW_SIZE
        &&& self.current_bucket.total() < VPIN_BUCKET_SIZE
        &&& forall|i: int|
            0 <= i < self.buckets.len() ==> (#[trigger] self.buckets@[i]).total() <= u64::MAX
        &&& self.vpin_value == vpin_of(self.buckets@)
        &&& self.is_toxic == toxic(self.vpin_value)
    }

    pub fn new() -> (r: Self)
        ensures
            r.wf(),
            r.buckets@ == Seq::<VolumeBucket>::empty(),
            r.current_bucket == VolumeBucket::empty(),
            r.cumulative_volume == 0,
            r.vpin_value == (Ratio { num: 0, den: 1 }),
            !r.is_toxic,
    {
        let r = VpinDetector {
            buckets: VecDeque::with_capacity(VPIN_WINDOW_SIZE),
            current_bucket: VolumeBucket::new(),
            cumulative_volume: 0,
            vpin_value: Ratio { num: 0, den: 1 },
            is_toxic: false,
        };
        assert(totals(r.buckets@) =~= Seq::<int>::empty());
        r
    }

    /// The window once the current bucket has been filled by a trade.
    pub open spec fn window_after(&self, volume: u64, is_buy: bool) -> Seq<VolumeBucket> {
        let w = self.buckets@.push(self.current_bucket.with_trade(volume, is_buy));
        if w.len() > VPIN_WINDOW_SIZE {
            w.subrange(1, w.len() as int)
        } else {
            w
        }
    }

    /// Process a trade and update VPIN metrics.
    /// Returns true if toxicity state changed.
    pub fn process_trade(&mut self, volume: u64, is_buy: bool) -> (changed: bool)
        requires
            old(self).wf(),
            old(self).current_bucket.accepts(volume, is_buy),
            old(self).current_bucket.with_trade(volume, is_buy).total() <= u64::MAX,
        ensures
            final(self).wf(),
            final(self).cumulative_volume == capped(old(self).cumulative_volume + volume),
            ({
                let b = old(self).current_bucket.with_trade(volume, is_buy);
                if b.total() >= VPIN_BUCKET_SIZE {
                    &&& final(self).buckets@ == old(self).window_after(volume, is_buy)
                    &&& final(self).current_bucket == VolumeBucket::empty()
                    &&& changed == (final(self).is_toxic != old(self).is_toxic)
                } else {
                    &&& final(self).buckets@ == old(self).buckets@
                    &&& final(self).current_bucket == b
                    &&& final(self).vpin_value == old(self).vpin_value
                    &&& !changed
                }
            }),
    {
        self.current_bucket.add_trade(volume, is_buy);
        self.cumulative_volume = self.cumulative_volume.saturating_add(volume);
        if self.current_bucket.is_full() {
            self.buckets.push_back(self.current_bucket);
            self.current_bucket = VolumeBucket::new();
            if self.buckets.len() > VPIN_WINDOW_SIZE {
                let _ = self.buckets.pop_front();
            }
            assert(self.buckets@ =~= old(self).window_after(volume, is_buy));
            let was_toxic: bool = self.is_toxic;
            self.vpin_value = self.calculate_vpin();
            self.is_toxic = above_threshold(self.vpin_value);
            return self.is_toxic != was_toxic;
        }
        false
    }

    /// Calculate VPIN using the Easley-Prado method.
    fn calculate_vpin(&self) -> (r: Ratio)
        requires
            self.buckets.len() <= VPIN_WINDOW_SIZE,
            forall|i: int|
                0 <= i < self.buckets.len() ==> (#[trigger] self.buckets@[i]).total() <= u64::MAX,
        ensures
            r == vpin_of(self.buckets@),
    {
        let ghost all = self.buckets@;
        let mut sum_abs_imbalance: u64 = 0;
        let mut total_volume: u64 = 0;
        let mut i: usize = 0;
        proof {
            assert(imbalances(all.subrange(0, 0)) =~= Seq::<int>::empty());
            assert(totals(all.subrange(0, 0)) =~= Seq::<int>::empty());
        }
        while i < self.buckets.len()
            invariant
                i <= self.buckets.len(),
                self.buckets@ == all,
                forall|k: int| 0 <= k < all.len() ==> (#[trigger] all[k]).total() <= u64::MAX,
                sum_abs_imbalance == capped(math::sum_of(imbalances(all.subrange(0, i as int)))),
                total_volume == capped(math::sum_of(totals(all.subrange(0, i as int)))),
                math::sum_of(imbalances(all.subrange(0, i as int))) >= 0,
                math::sum_of(totals(all.subrange(0, i as int))) >= 0,
            decreases self.buckets.len() - i,
        {
            let bucket: VolumeBucket = self.buckets[i];
            proof {
                let part = all.subrange(0, i as int);
                let next = all.subrange(0, i + 1);
                assert(all[i as int].total() <= u64::MAX);
                assert(imbalances(next) =~= imbalances(part).push(
                    math::abs_int(bucket.imbalance as int),
                ));
                assert(totals(next) =~= totals(part).push(bucket.total()));
                math::lemma_sum_push(imbalances(part), math::abs_int(bucket.imbalance as int));
                math::lemma_sum_push(totals(part), bucket.total());
            }
            sum_abs_imbalance = sum_abs_imbalance.saturating_add(magnitude(bucket.imbalance));
            total_volume = total_volume.saturating_add(bucket.total_volume());
            i = i + 1;
        }
        proof {
            assert(all.subrange(0, all.len() as int) =~= all);
        }
        if total_volume == 0 {
            return Ratio { num: 0, den: 1 };
        }
        Ratio { num: sum_abs_imbalance, den: total_volume }
    }

    /// Get current VPIN value.
    pub fn vpin(&self) -> (r: Ratio)
        ensures
            r == self.vpin_value,
    {
        self.vpin_value
    }

    /// Check if current flow is toxic.
    pub fn is_toxic(&self) -> (r: bool)
        ensures
            r == self.is_toxic,
    {
        self.is_toxic
    }

    /// The spread multiplier as a quotient in the wide type: one in a calm
    /// market, and one plus two and a half times the VPIN in a toxic one.
    pub open spec fn spread_multiplier(&self) -> (int, int) {
        if self.is_toxic {
            (2 * self.vpin_value.den + 5 * self.vpin_value.num, 2 * self.vpin_value.den)
        } else {
            (1, 1)
        }
    }

    /// Calculate recommended spread adjustment based on toxicity, as numerator
    /// and denominator.
    pub fn get_spread_adjustment(&self) -> (r: (u128, u128))
        ensures
            r.0 == self.spread_multiplier().0,
            r.1 == self.spread_multiplier().1,
    {
        if self.is_toxic {
            let num: u128 = self.vpin_value.num as u128;
            let den: u128 = self.vpin_value.den as u128;
            (2 * den + 5 * num, 2 * den)
        } else {
            (1, 1)
        }
    }

    /// Reset detector state.
    pub fn reset(&mut self)
        ensures
            final(self).wf(),
            final(self).buckets@ == Seq::<VolumeBucket>::empty(),
            final(self).current_bucket == VolumeBucket::empty(),
            final(self).cumulative_volume == 0,
            final(self).vpin_value == (Ratio { num: 0, den: 1 }),
            !final(self).is_toxic,
    {
        self.buckets.clear();
        self.current_bucket = VolumeBucket::new();
        self.cumulative_volume = 0;
        self.vpin_value = Ratio { num: 0, den: 1 };
        self.is_toxic = false;
        assert(totals(self.buckets@) =~= Seq::<int>::empty());
    }
}

/// A toxic market always widens the spread by more than the factor of three.
pub proof fn law_toxic_spread_is_wide(d: VpinDetector)
    requires
        d.is_toxic,
        toxic(d.vpin_value),
    ensures
        d.spread_multiplier().0 >= 3 * d.spread_multiplier().1,
{
}

/// In a bucket whose volumes fit a signed word, the imbalance is at most the
/// volume.
pub proof fn law_imbalance_within_volume(b: VolumeBucket, volume: u64, is_buy: bool)
    requires
        b.buy_volume + volume <= i64::MAX,
        b.sell_volume + volume <= i64::MAX,
    ensures
        math::abs_int(b.with_trade(volume, is_buy).imbalance as int) <= b.with_trade(
            volume,
            is_buy,
        ).total(),
        b.with_trade(volume, is_buy).imbalance == b.with_trade(volume, is_buy).buy_volume
            - b.with_trade(volume, is_buy).sell_volume,
{
}

/// The paired buckets of two volume series, up to the shorter one.
pub open spec fn paired(buys: Seq<u64>, sells: Seq<u64>) -> Seq<VolumeBucket> {
    Seq::new(
        math::min_int(buys.len() as int, sells.len() as int) as nat,
        |i: int|
            VolumeBucket {
                buy_volume: buys[i],
                sell_volume: sells[i],
                imbalance: ((buys[i] as i64) - (sells[i] as i64)) as i64,
            },
    )
}

/// Batch VPIN for historical analysis.
pub fn vpin_batch(buy_volumes: &[u64], sell_volumes: &[u64]) -> (r: Ratio)
    requires
        forall|i: int|
            0 <= i < paired(buy_volumes@, sell_volumes@).len() ==> {
                let b = #[trigger] paired(buy_volumes@, sell_volumes@)[i];
                b.total() <= u64::MAX && i64::MIN <= (b.buy_volume as i64) - (b.sell_volume as i64)
                    <= i64::MAX
            },
    ensures
        r == vpin_of(paired(buy_volumes@, sell_volumes@)),
{
    let ghost all = paired(buy_volumes@, sell_volumes@);
    let n: usize = if buy_volumes.len() <= sell_volumes.len() {
        buy_volumes.len()
    } else {
        sell_volumes.len()
    };
    let mut sum_abs: u64 = 0;
    let mut total: u64 = 0;
    let mut i: usize = 0;
    proof {
        assert(imbalances(all.subrange(0, 0)) =~= Seq::<int>::empty());
        assert(totals(all.subrange(0, 0)) =~= Seq::<int>::empty());
    }
    while i < n
        invariant
            i <= n,
            n == all.len(),
            n <= buy_volumes@.len(),
            n <= sell_volumes@.len(),
            all == paired(buy_volumes@, sell_volumes@),
            forall|k: int|
                0 <= k < all.len() ==> {
                    let b = #[trigger] all[k];
                    b.total() <= u64::MAX && i64::MIN <= (b.buy_volume as i64) - (
                    b.sell_volume as i64) <= i64::MAX
                },
            sum_abs == capped(math::sum_of(imbalances(all.subrange(0, i as int)))),
            total == capped(math::sum_of(totals(all.subrange(0, i as int)))),
            math::sum_of(imbalances(all.subrange(0, i as int))) >= 0,
            math::sum_of(totals(all.subrange(0, i as int))) >= 0,
        decreases n - i,
    {
        proof {
            let part = all.subrange(0, i as int);
            let next = all.subrange(0, i + 1);
            let b = all[i as int];
            assert(imbalances(next) =~= imbalances(part).push(math::abs_int(b.imbalance as int)));
            assert(totals(next) =~= totals(part).push(b.total()));
            math::lemma_sum_push(imbalances(part), math::abs_int(b.imbalance as int));
            math::lemma_sum_push(totals(part), b.total());
        }
        let imbalance: u64 = magnitude(buy_volumes[i] as i64 - sell_volumes[i] as i64);
        sum_abs = sum_abs.saturating_add(imbalance);
        total = total.saturating_add(buy_volumes[i] + sell_volumes[i]);
        i = i + 1;
    }
    proof {
        assert(all.subrange(0, all.len() as int) =~= all);
    }
    if total == 0 {
        Ratio { num: 0, den: 1 }
    } else {
        Ratio { num: sum_abs, den: total }
    }
}

/// A trade adds its volume to its own side of a bucket and to the total.
pub proof fn law_bucket_takes_trade(b: VolumeBucket, volume: u64, is_buy: bool)
    requires
        b.buy_volume + volume <= i64::MAX,
        b.sell_volume + volume <= i64::MAX,
    ensures
        ({
            let c = b.with_trade(volume, is_buy);
            &&& c.total() == b.total() + volume
            &&& is_buy ==> c.buy_volume == b.buy_volume + volume
            &&& !is_buy ==> c.sell_volume == b.sell_volume + volume
            &&& VolumeBucket::empty().total() == 0
            &&& VolumeBucket::empty().imbalance == 0
            &&& c.total() == c.buy_volume + c.sell_volume
        }),
{
}

/// The measure is the sum of the imbalances over the sum of the volumes: one
/// more bucket adds its own to both. Which side outweighs the other makes no
/// difference.
pub proof fn law_vpin_is_imbalance_over_volume(
    buckets: Seq<VolumeBucket>,
    b: VolumeBucket,
    mirrored: Seq<VolumeBucket>,
)
    requires
        math::sum_of(totals(buckets)) <= u64::MAX,
        math::sum_of(imbalances(buckets)) <= u64::MAX,
        mirrored.len() == buckets.len(),
        forall|i: int|
            0 <= i < buckets.len() ==> (#[trigger] mirrored[i]).imbalance == -buckets[i].imbalance
                && mirrored[i].buy_volume == buckets[i].sell_volume && mirrored[i].sell_volume
                == buckets[i].buy_volume,
    ensures
        vpin_of(buckets).den > 0,
        math::sum_of(totals(buckets)) > 0 ==> vpin_of(buckets).num * math::sum_of(totals(buckets))
            == math::sum_of(imbalances(buckets)) * vpin_of(buckets).den,
        math::sum_of(totals(buckets)) <= 0 ==> vpin_of(buckets).num == 0,
        math::sum_of(totals(buckets.push(b))) == math::sum_of(totals(buckets)) + b.buy_volume
            + b.sell_volume,
        math::sum_of(imbalances(buckets.push(b))) == math::sum_of(imbalances(buckets))
            + math::max_int(b.imbalance as int, -b.imbalance),
        vpin_of(mirrored) == vpin_of(buckets),
{
    assert(totals(buckets.push(b)) =~= totals(buckets).push(b.total()));
    assert(imbalances(buckets.push(b)) =~= imbalances(buckets).push(
        math::abs_int(b.imbalance as int),
    ));
    math::lemma_sum_push(totals(buckets), b.total());
    math::lemma_sum_push(imbalances(buckets), math::abs_int(b.imbalance as int));
    assert forall|i: int| 0 <= i < totals(buckets).len() implies #[trigger] totals(buckets)[i]
        >= 0 by {}
    assert forall|i: int| 0 <= i < imbalances(buckets).len() implies #[trigger] imbalances(
        buckets,
    )[i] >= 0 by {}
    math::lemma_sum_nonnegative(totals(buckets));
    math::lemma_sum_nonnegative(imbalances(buckets));
    assert(totals(mirrored) =~= totals(buckets));
    assert(imbalances(mirrored) =~= imbalances(buckets));
}

/// Flow is toxic where the measure is above eight tenths.
pub proof fn law_toxic_above_eight_tenths(vpin: Ratio, higher: Ratio)
    ensures
        toxic(vpin) <==> 5 * vpin.num > 4 * vpin.den,
        toxic(vpin) && higher.den == vpin.den && higher.num >= vpin.num ==> toxic(higher),
{
}

/// A full bucket joins the window at its end, which keeps the newest fifty.
pub proof fn law_window_keeps_fifty(d: VpinDetector, volume: u64, is_buy: bool)
    requires
        d.wf(),
    ensures
        ({
            let w = d.window_after(volume, is_buy);
            &&& w.len() == math::min_int(d.buckets.len() + 1, 50)
            &&& w.last() == d.current_bucket.with_trade(volume, is_buy)
            &&& w.drop_last() == d.buckets@.subrange(
                d.buckets.len() - (w.len() - 1),
                d.buckets.len() as int,
            )
        }),
{
    let w = d.window_after(volume, is_buy);
    assert(w.drop_last() =~= d.buckets@.subrange(
        d.buckets.len() - (w.len() - 1),
        d.buckets.len() as int,
    ));
}

/// The spread is left as it is while flow is not toxic, and widened by two and
/// a half times the measure where it is.
pub proof fn law_spread_widens_with_toxicity(d: VpinDetector)
    ensures
        ({
            let (num, den) = d.spread_multiplier();
            let v = d.vpin_value;
            &&& !d.is_toxic ==> num == den && den > 0
            &&& d.is_toxic ==> 2 * v.den * (num - den) == 5 * v.num * den
            &&& d.is_toxic && v.den > 0 ==> den > 0
        }),
{
    let v = d.vpin_value;
    let (a, b) = (v.num as int, v.den as int);
    assert(2 * b * (5 * a) == 5 * a * (2 * b)) by (nonlinear_arith);
}

/// Two lists of volumes pair up bucket by bucket, as far as both go, each with
/// what was bought beyond what was sold.
pub proof fn law_volumes_pair_up(buys: Seq<u64>, sells: Seq<u64>, i: int)
    requires
        0 <= i < buys.len(),
        i < sells.len(),
        buys[i] <= i64::MAX,
        sells[i] <= i64::MAX,
    ensures
        paired(buys, sells).len() <= buys.len(),
        paired(buys, sells).len() <= sells.len(),
        paired(buys, sells).len() == buys.len() || paired(buys, sells).len() == sells.len(),
        paired(buys, sells)[i].buy_volume == buys[i],
        paired(buys, sells)[i].sell_volume == sells[i],
        paired(buys, sells)[i].imbalance + sells[i] == buys[i],
{
}

} // verus!
