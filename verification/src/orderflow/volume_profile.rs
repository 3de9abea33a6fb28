//! Volume profiles: traded volume by price, the point of control and the value
//! area around it.
use crate::math;
use crate::math::{div_trunc, div_trunc_wide, magnitude, min_usize, Ratio};
use crate::sorting;
use crate::sorting::{sort_stable, Keyed};
use vstd::prelude::*;

verus! {

/// Maximum number of price bins
pub const MAX_BINS: usize = 8192;

/// Share of the volume that the value area holds, in percent.
pub const VALUE_AREA_PCT: u64 = 70;

pub open spec fn capped(a: int) -> u64 {
    math::min_int(a, u64::MAX as int) as u64
}

/// Represents a single bin in the volume profile
#[derive(Debug, Clone, Copy, PartialEq, Eq, Structural)]
pub struct VolumeBin {
    pub price: i64,
    pub volume: u64,
    pub buy_volume: u64,
    pub sell_volume: u64,
    pub trade_count: u32,
}

impl VolumeBin {
    pub open spec fn at(price: i64) -> VolumeBin {
        VolumeBin { price, volume: 0, buy_volume: 0, sell_volume: 0, trade_count: 0 }
    }

    /// The bin after a trade; its sums stop at the largest value.
    pub open spec fn with(self, vol: u64, is_buy: bool) -> VolumeBin {
        VolumeBin {
            price: self.price,
            volume: capped(self.volume + vol),
            buy_volume: if is_buy {
                capped(self.buy_volume + vol)
            } else {
                self.buy_volume
            },
            sell_volume: if is_buy {
                self.sell_volume
            } else {
                capped(self.sell_volume + vol)
            },
            trade_count: math::min_int(self.trade_count + 1, u32::MAX as int) as u32,
        }
    }

    pub fn new() -> (r: Self)
        ensures
            r == VolumeBin::at(0),
    {
        VolumeBin { price: 0, volume: 0, buy_volume: 0, sell_volume: 0, trade_count: 0 }
    }

    pub fn add(&mut self, vol: u64, is_buy: bool)
        ensures
            *final(self) == old(self).with(vol, is_buy),
    {
        self.volume = self.volume.saturating_add(vol);
        if is_buy {
            self.buy_volume = self.buy_volume.saturating_add(vol);
        } else {
            self.sell_volume = self.sell_volume.saturating_add(vol);
        }
        self.trade_count = self.trade_count.saturating_add(1);
    }

    pub fn clear(&mut self)
        ensures
            *final(self) == VolumeBin::at(0),
    {
        self.price = 0;
        self.volume = 0;
        self.buy_volume = 0;
        self.sell_volume = 0;
        self.trade_count = 0;
    }
}

impl Keyed for VolumeBin {
    open spec fn sort_key(&self) -> int {
        self.price as int
    }

    fn key_at_most(&self, other: &Self) -> (r: bool) {
        self.price <= other.price
    }
}

/// A bin with its distance from the point of control.
#[derive(Debug, Clone, Copy, PartialEq, Eq, Structural)]
pub struct RankedBin {
    pub bin: VolumeBin,
    pub distance: u64,
}

impl Keyed for RankedBin {
    open spec fn sort_key(&self) -> int {
        self.distance as int
    }

    fn key_at_most(&self, other: &Self) -> (r: bool) {
        self.distance <= other.distance
    }
}

/// Where the bin for a price stands, or the number of bins where there is none.
pub open spec fn bin_position(bins: Seq<VolumeBin>, price: i64) -> int
    decreases bins.len(),
{
    if bins.len() == 0 {
        0
    } else {
        let p = bin_position(bins.drop_last(), price);
        if p < bins.len() - 1 {
            p
        } else if bins.last().price == price {
            bins.len() - 1
        } else {
            bins.len() as int
        }
    }
}

proof fn lemma_bin_position(bins: Seq<VolumeBin>, price: i64)
    ensures
        0 <= bin_position(bins, price) <= bins.len(),
        bin_position(bins, price) < bins.len() ==> bins[bin_position(bins, price)].price == price,
        forall|k: int|
            0 <= k < bin_position(bins, price) && k < bins.len() ==> (#[trigger] bins[k]).price
                != price,
    decreases bins.len(),
{
    if bins.len() > 0 {
        lemma_bin_position(bins.drop_last(), price);
        let p = bin_position(bins.drop_last(), price);
        if p < bins.len() - 1 {
            assert(bins.drop_last()[p] == bins[p]);
        }
        assert forall|k: int|
            0 <= k < bin_position(bins, price) && k < bins.len() implies (#[trigger] bins[k]).price
            != price by {
            if k < bins.len() - 1 {
                assert(bins.drop_last()[k] == bins[k]);
            }
        }
    }
}

/// The bins after a trade, unless all are taken by other prices.
pub open spec fn bins_after(bins: Seq<VolumeBin>, price: i64, volume: u64, is_buy: bool) -> Seq<
    VolumeBin,
> {
    let p = bin_position(bins, price);
    if p < bins.len() {
        bins.update(p, bins[p].with(volume, is_buy))
    } else if bins.len() < MAX_BINS {
        bins.push(VolumeBin::at(price).with(volume, is_buy))
    } else {
        bins
    }
}

/// A trade at this price finds a bin.
pub open spec fn has_room(bins: Seq<VolumeBin>, price: i64) -> bool {
    bin_position(bins, price) < bins.len() || bins.len() < MAX_BINS
}

/// Point of control: the price with the highest volume and that volume, the
/// first where several are equal; none while nothing has traded.
pub open spec fn poc_of(bins: Seq<VolumeBin>) -> Option<(i64, u64)>
    decreases bins.len(),
{
    if bins.len() == 0 {
        None
    } else {
        let best = poc_of(bins.drop_last());
        let top = match best {
            Some((p, v)) => v as int,
            None => 0,
        };
        if bins.last().volume > top {
            Some((bins.last().price, bins.last().volume))
        } else {
            best
        }
    }
}

/// The bins with their distances from a price.
pub open spec fn ranked(bins: Seq<VolumeBin>, poc: i64) -> Seq<RankedBin> {
    bins.map_values(
        |b: VolumeBin| RankedBin { bin: b, distance: math::abs_int(b.price - poc) as u64 },
    )
}

pub open spec fn ranked_volumes(r: Seq<RankedBin>) -> Seq<int> {
    r.map_values(|b: RankedBin| b.bin.volume as int)
}

/// The price range of the point of control and the first bins in a ranking,
/// up to the one with which their volume reaches the target.
pub open spec fn reach(r: Seq<RankedBin>, taken: int, poc: i64, target: int) -> (int, int)
    decreases r.len() - taken,
{
    let (hi, lo) = spanned(r.subrange(0, taken), poc);
    if taken >= r.len() || (taken > 0 && math::sum_of(ranked_volumes(r.subrange(0, taken)))
        >= target) {
        (hi, lo)
    } else {
        reach(r, taken + 1, poc, target)
    }
}

/// The highest and the lowest price among the bins and the point of control.
pub open spec fn spanned(r: Seq<RankedBin>, poc: i64) -> (int, int)
    decreases r.len(),
{
    if r.len() == 0 {
        (poc as int, poc as int)
    } else {
        let (hi, lo) = spanned(r.drop_last(), poc);
        let p = r.last().bin.price as int;
        (math::max_int(hi, p), math::min_int(lo, p))
    }
}

/// Volume profile statistics including POC and Value Area
#[derive(Debug, Clone, Copy, PartialEq, Eq, Structural)]
pub struct VolumeProfileStats {
    /// Point of Control - price with highest volume
    pub poc_price: i64,
    /// Point of Control volume
    pub poc_volume: u64,
    /// Value Area High (70% of volume around POC)
    pub vah_price: i64,
    /// Value Area Low (70% of volume around POC)
    pub val_price: i64,
    /// Total volume in profile
    pub total_volume: u64,
    pub total_buy_volume: u64,
    pub total_sell_volume: u64,
    /// Number of active bins
    pub active_bins: usize,
    /// Volume weighted average price, as sum of price times volume over volume
    pub vwap: Ratio,
}

pub open spec fn buy_volumes(bins: Seq<VolumeBin>) -> Seq<int> {
    bins.map_values(|b: VolumeBin| b.buy_volume as int)
}

pub open spec fn sell_volumes(bins: Seq<VolumeBin>) -> Seq<int> {
    bins.map_values(|b: VolumeBin| b.sell_volume as int)
}

/// What all the bins have bought.
pub open spec fn bought(bins: Seq<VolumeBin>) -> int {
    math::sum_of(buy_volumes(bins))
}

/// What all the bins have sold.
pub open spec fn sold(bins: Seq<VolumeBin>) -> int {
    math::sum_of(sell_volumes(bins))
}

/// A trade adds its volume to one of the sums over the bins and leaves the
/// other, unless all bins are taken by other prices, as long as the two sums
/// and the volume together fit a word.
pub proof fn law_trade_adds_to_the_sums(
    bins: Seq<VolumeBin>,
    price: i64,
    volume: u64,
    is_buy: bool,
)
    requires
        bought(bins) + sold(bins) + volume <= u64::MAX,
    ensures
        ({
            let added = if has_room(bins, price) {
                volume as int
            } else {
                0
            };
            let after = bins_after(bins, price, volume, is_buy);
            &&& bought(after) == bought(bins) + (if is_buy {
                added
            } else {
                0
            })
            &&& sold(after) == sold(bins) + (if is_buy {
                0
            } else {
                added
            })
        }),
{
    let after = bins_after(bins, price, volume, is_buy);
    let p = bin_position(bins, price);
    lemma_bin_position(bins, price);
    lemma_volumes_nonnegative(bins);
    if p < bins.len() {
        math::lemma_element_at_most_sum(buy_volumes(bins), p);
        math::lemma_element_at_most_sum(sell_volumes(bins), p);
        let bin = bins[p].with(volume, is_buy);
        assert(buy_volumes(after) =~= buy_volumes(bins).update(p, bin.buy_volume as int));
        assert(sell_volumes(after) =~= sell_volumes(bins).update(p, bin.sell_volume as int));
        math::lemma_sum_update(buy_volumes(bins), p, bin.buy_volume as int);
        math::lemma_sum_update(sell_volumes(bins), p, bin.sell_volume as int);
    } else if has_room(bins, price) {
        let bin = VolumeBin::at(price).with(volume, is_buy);
        assert(buy_volumes(after) =~= buy_volumes(bins).push(bin.buy_volume as int));
        assert(sell_volumes(after) =~= sell_volumes(bins).push(bin.sell_volume as int));
        math::lemma_sum_push(buy_volumes(bins), bin.buy_volume as int);
        math::lemma_sum_push(sell_volumes(bins), bin.sell_volume as int);
    }
}

proof fn lemma_volumes_nonnegative(bins: Seq<VolumeBin>)
    ensures
        forall|k: int| 0 <= k < bins.len() ==> #[trigger] buy_volumes(bins)[k] >= 0,
        forall|k: int| 0 <= k < bins.len() ==> #[trigger] sell_volumes(bins)[k] >= 0,
        bought(bins) >= 0,
        sold(bins) >= 0,
{
    math::lemma_sum_nonnegative(buy_volumes(bins));
    math::lemma_sum_nonnegative(sell_volumes(bins));
}

/// Volume Profile calculator over a bounded number of bins.
pub struct VolumeProfileCalculator {
    /// Active bins, in the order in which their prices first traded
    pub bins: Vec<VolumeBin>,
    /// Price range bounds, as unsigned words
    pub min_price: u64,
    pub max_price: u64,
    /// Bin size (tick multiplier)
    pub bin_size: i64,
    /// Cached total volume for quick access
    pub cached_total_volume: u64,
    /// Cached VWAP numerator (sum of price * volume)
    pub cached_vwap_num: u64,
}

impl VolumeProfileCalculator {
    /// No price has two bins.
    pub open spec fn wf(&self) -> bool {
        &&& self.bins.len() <= MAX_BINS
        &&& forall|i: int, j: int|
            0 <= i < j < self.bins.len() ==> (#[trigger] self.bins@[i]).price
                != (#[trigger] self.bins@[j]).price
    }

    /// The total volume is what the bins have bought and sold together.
    pub open spec fn totals_match(&self) -> bool {
        self.cached_total_volume == bought(self.bins@) + sold(self.bins@)
    }

    pub open spec fn is_blank(&self) -> bool {
        &&& self.bins.len() == 0
        &&& self.min_price == u64::MAX
        &&& self.max_price == 0
        &&& self.cached_total_volume == 0
        &&& self.cached_vwap_num == 0
    }

    /// Create new volume profile calculator with specified bin size
    pub fn new(bin_size: i64) -> (r: Self)
        ensures
            r.wf(),
            r.is_blank(),
            r.bin_size == bin_size,
    {
        VolumeProfileCalculator {
            bins: Vec::with_capacity(MAX_BINS),
            min_price: u64::MAX,
            max_price: 0,
            bin_size,
            cached_total_volume: 0,
            cached_vwap_num: 0,
        }
    }

    /// The slot of a price in a grid of bins of the given size over the prices
    /// seen, where the grid is small enough.
    pub open spec fn grid_slot(&self, price: i64) -> Option<int> {
        let lo = self.min_price as i64;
        let hi = self.max_price as i64;
        let range = math::trunc_div(hi - lo, self.bin_size as int) + 1;
        let slot = math::trunc_div(price - lo, self.bin_size as int);
        if lo == i64::MAX || hi == 0 || range < 0 || range > MAX_BINS || slot < 0 || slot
            >= MAX_BINS {
            None
        } else {
            Some(slot)
        }
    }

    /// The distances that place a price in the grid fit 64 bits, as far as they
    /// are taken.
    pub open spec fn grid_fits(&self, price: i64) -> bool {
        let lo = self.min_price as i64;
        let hi = self.max_price as i64;
        let steps = math::trunc_div(hi - lo, self.bin_size as int);
        lo == i64::MAX || hi == 0 || {
            &&& self.bin_size != 0
            &&& i64::MIN <= hi - lo <= i64::MAX
            &&& steps < i64::MAX
            &&& 0 <= steps + 1 <= MAX_BINS ==> {
                &&& i64::MIN <= price - lo <= i64::MAX
                &&& math::trunc_div(price - lo, self.bin_size as int) <= i64::MAX
            }
        }
    }

    /// Get bin index for a price level
    pub fn get_bin_index(&self, price: i64) -> (r: Option<usize>)
        requires
            self.grid_fits(price),
        ensures
            match r {
                Some(i) => self.grid_slot(price) == Some(i as int),
                None => self.grid_slot(price) is None,
            },
    {
        let min_p: i64 = self.min_price as i64;
        let max_p: i64 = self.max_price as i64;
        if min_p == i64::MAX || max_p == 0 {
            return None;
        }
        let range: i64 = div_trunc(max_p - min_p, self.bin_size) + 1;
        if range < 0 || range > 8192 {
            return None;
        }
        let slot: i64 = div_trunc(price - min_p, self.bin_size);
        if slot >= 0 && slot < 8192 {
            Some(slot as usize)
        } else {
            None
        }
    }

    /// Process a single tick/trade
    pub fn process_tick(&mut self, price: i64, volume: u64, is_buyer_maker: bool)
        requires
            old(self).wf(),
        ensures
            final(self).wf(),
            final(self).bins@ == bins_after(old(self).bins@, price, volume, !is_buyer_maker),
            final(self).min_price == math::min_int(
                old(self).min_price as int,
                (price as u64) as int,
            ),
            final(self).max_price == math::max_int(
                old(self).max_price as int,
                (price as u64) as int,
            ),
            final(self).bin_size == old(self).bin_size,
            final(self).cached_total_volume == (if has_room(old(self).bins@, price) {
                old(self).cached_total_volume.wrapping_add(volume)
            } else {
                old(self).cached_total_volume
            }),
            final(self).cached_vwap_num == (if has_room(old(self).bins@, price) {
                old(self).cached_vwap_num.wrapping_add(
                    (math::abs_int(price as int) * volume) as u64,
                )
            } else {
                old(self).cached_vwap_num
            }),
            old(self).totals_match() && old(self).cached_total_volume + volume <= u64::MAX
                ==> final(self).totals_match(),
    {
        let price_u: u64 = price as u64;
        if price_u < self.min_price {
            self.min_price = price_u;
        }
        if price_u > self.max_price {
            self.max_price = price_u;
        }
        let ghost before = self.bins@;
        proof {
            lemma_bin_position(before, price);
            if self.totals_match() && self.cached_total_volume + volume <= u64::MAX {
                law_trade_adds_to_the_sums(before, price, volume, !is_buyer_maker);
            }
        }
        match self.find_or_create_bin(price) {
            Some(i) => {
                let mut bin: VolumeBin = self.bins[i];
                bin.add(volume, !is_buyer_maker);
                self.bins.set(i, bin);
                self.cached_total_volume = self.cached_total_volume.wrapping_add(volume);
                let wide: u128 = multiply(magnitude(price), volume);
                let contribution: u64 = wide as u64;
                self.cached_vwap_num = self.cached_vwap_num.wrapping_add(contribution);
                proof {
                    assert(self.bins@ =~= bins_after(before, price, volume, !is_buyer_maker));
                    assert forall|a: int, b: int| 0 <= a < b < self.bins.len() implies (
                    #[trigger] self.bins@[a]).price != (#[trigger] self.bins@[b]).price by {
                        if b < before.len() {
                            assert(before[a].price != before[b].price);
                        }
                    }
                }
            },
            None => {},
        }
    }

    /// Find existing bin or create new one
    fn find_or_create_bin(&mut self, price: i64) -> (r: Option<usize>)
        requires
            old(self).wf(),
        ensures
            final(self).min_price == old(self).min_price,
            final(self).max_price == old(self).max_price,
            final(self).bin_size == old(self).bin_size,
            final(self).cached_total_volume == old(self).cached_total_volume,
            final(self).cached_vwap_num == old(self).cached_vwap_num,
            ({
                let p = bin_position(old(self).bins@, price);
                if p < old(self).bins.len() {
                    r == Some(p as usize) && final(self).bins@ == old(self).bins@
                } else if old(self).bins.len() < MAX_BINS {
                    r == Some(p as usize) && final(self).bins@ == old(self).bins@.push(
                        VolumeBin::at(price),
                    )
                } else {
                    r is None && final(self).bins@ == old(self).bins@
                }
            }),
    {
        let count: usize = self.bins.len();
        let mut i: usize = 0;
        proof {
            lemma_bin_position(self.bins@, price);
        }
        while i < count
            invariant
                i <= count,
                count == self.bins.len(),
                *self == *old(self),
                bin_position(self.bins@, price) >= i,
                bin_position(self.bins@, price) <= count,
                bin_position(self.bins@, price) < count ==> self.bins@[bin_position(
                    self.bins@,
                    price,
                )].price == price,
                forall|k: int|
                    0 <= k < bin_position(self.bins@, price) && k < count ==> (
                    #[trigger] self.bins@[k]).price != price,
            decreases count - i,
        {
            if self.bins[i].price == price {
                assert(bin_position(self.bins@, price) == i);
                return Some(i);
            }
            i = i + 1;
        }
        if count < MAX_BINS {
            let mut bin: VolumeBin = VolumeBin::new();
            bin.price = price;
            self.bins.push(bin);
            return Some(count);
        }
        None
    }

    /// Calculate Point of Control (price with highest volume)
    pub fn calculate_poc(&self) -> (r: Option<(i64, u64)>)
        ensures
            r == poc_of(self.bins@),
    {
        let mut max_vol: u64 = 0;
        let mut poc_price: i64 = 0;
        let mut i: usize = 0;
        proof {
            assert(self.bins@.subrange(0, 0) =~= Seq::<VolumeBin>::empty());
        }
        while i < self.bins.len()
            invariant
                i <= self.bins.len(),
                poc_of(self.bins@.subrange(0, i as int)) == (if max_vol > 0 {
                    Some((poc_price, max_vol))
                } else {
                    None
                }),
            decreases self.bins.len() - i,
        {
            proof {
                let next = self.bins@.subrange(0, i + 1);
                assert(next.drop_last() =~= self.bins@.subrange(0, i as int));
                assert(next.last() == self.bins@[i as int]);
            }
            let bin: VolumeBin = self.bins[i];
            if bin.volume > max_vol {
                max_vol = bin.volume;
                poc_price = bin.price;
            }
            i = i + 1;
        }
        proof {
            assert(self.bins@.subrange(0, i as int) =~= self.bins@);
        }
        if max_vol > 0 {
            Some((poc_price, max_vol))
        } else {
            None
        }
    }

    /// The value area of the profile at a percentage of its volume.
    pub open spec fn value_area(&self, percentage: u64) -> Option<(int, int)> {
        match poc_of(self.bins@) {
            None => None,
            Some((poc, v)) => if self.cached_total_volume == 0 {
                None
            } else {
                Some(
                    reach(
                        sorting::stable_sort(ranked(self.bins@, poc)),
                        0,
                        poc,
                        self.cached_total_volume * percentage / 100,
                    ),
                )
            },
        }
    }

    /// Calculate Value Area (70% of volume around POC)
    /// Returns (VAH, VAL) prices
    pub fn calculate_value_area(&self, percentage: u64) -> (r: Option<(i64, i64)>)
        requires
            self.wf(),
        ensures
            match r {
                Some((hi, lo)) => self.value_area(percentage) == Some((hi as int, lo as int)),
                None => self.value_area(percentage) is None,
            },
    {
        let (poc_price, poc_vol) = match self.calculate_poc() {
            Some(p) => p,
            None => {
                return None;
            },
        };
        if self.cached_total_volume == 0 {
            return None;
        }
        let target: u128 = multiply(self.cached_total_volume, percentage) / 100;
        let order: Vec<RankedBin> = self.rank_bins(poc_price);
        let ghost rs = order@;
        let mut accumulated: u128 = 0;
        let mut max_price: i64 = poc_price;
        let mut min_price: i64 = poc_price;
        let mut i: usize = 0;
        proof {
            assert(rs.subrange(0, 0) =~= Seq::<RankedBin>::empty());
            assert(ranked_volumes(rs.subrange(0, 0)) =~= Seq::<int>::empty());
        }
        while i < order.len() && !(i > 0 && accumulated >= target)
            invariant
                i <= order.len(),
                order.len() <= MAX_BINS,
                order@ == rs,
                accumulated == math::sum_of(ranked_volumes(rs.subrange(0, i as int))),
                accumulated <= i * u64::MAX,
                spanned(rs.subrange(0, i as int), poc_price) == (max_price as int, min_price as int),
                reach(rs, 0, poc_price, target as int) == reach(
                    rs,
                    i as int,
                    poc_price,
                    target as int,
                ),
            decreases order.len() - i,
        {
            let bin: VolumeBin = order[i].bin;
            proof {
                let part = rs.subrange(0, i as int);
                let next = rs.subrange(0, i + 1);
                assert(next.drop_last() =~= part);
                assert(next.last() == rs[i as int]);
                assert(ranked_volumes(next) =~= ranked_volumes(part).push(bin.volume as int));
                math::lemma_sum_push(ranked_volumes(part), bin.volume as int);
                assert(i * u64::MAX + u64::MAX == (i + 1) * u64::MAX) by (nonlinear_arith);
                assert(i * u64::MAX <= 8192 * u64::MAX) by (nonlinear_arith)
                    requires
                        i <= 8192,
                ;
            }
            accumulated = accumulated + bin.volume as u128;
            if bin.price > max_price {
                max_price = bin.price;
            }
            if bin.price < min_price {
                min_price = bin.price;
            }
            i = i + 1;
        }
        Some((max_price, min_price))
    }

    /// The bins in the order of their distance from a price.
    fn rank_bins(&self, poc_price: i64) -> (order: Vec<RankedBin>)
        ensures
            order@ == sorting::stable_sort(ranked(self.bins@, poc_price)),
            order.len() == self.bins.len(),
    {
        let mut list: Vec<RankedBin> = Vec::with_capacity(self.bins.len());
        let mut i: usize = 0;
        while i < self.bins.len()
            invariant
                i <= self.bins.len(),
                list.len() == i,
                forall|k: int|
                    0 <= k < i ==> #[trigger] list@[k] == (RankedBin {
                        bin: self.bins@[k],
                        distance: math::abs_int(self.bins@[k].price - poc_price) as u64,
                    }),
            decreases self.bins.len() - i,
        {
            let bin: VolumeBin = self.bins[i];
            let gap: i128 = bin.price as i128 - poc_price as i128;
            let distance: u64 = if gap < 0 {
                (-gap) as u64
            } else {
                gap as u64
            };
            list.push(RankedBin { bin, distance });
            i = i + 1;
        }
        proof {
            assert(list@ =~= ranked(self.bins@, poc_price));
        }
        sort_stable(list)
    }

    /// The statistics of the profile.
    pub open spec fn stats_of(&self) -> Option<VolumeProfileStats> {
        if self.bins.len() == 0 {
            None
        } else {
            let (poc_price, poc_volume) = match poc_of(self.bins@) {
                Some(p) => p,
                None => (0i64, 0u64),
            };
            let (vah, val) = match self.value_area(VALUE_AREA_PCT) {
                Some((hi, lo)) => (hi as i64, lo as i64),
                None => (poc_price, poc_price),
            };
            Some(
                VolumeProfileStats {
                    poc_price,
                    poc_volume,
                    vah_price: vah,
                    val_price: val,
                    total_volume: self.cached_total_volume,
                    total_buy_volume: math::sum_of(buy_volumes(self.bins@)) as u64,
                    total_sell_volume: math::sum_of(sell_volumes(self.bins@)) as u64,
                    active_bins: self.bins.len(),
                    vwap: if self.cached_total_volume > 0 {
                        Ratio { num: self.cached_vwap_num, den: self.cached_total_volume }
                    } else {
                        Ratio { num: 0, den: 1 }
                    },
                },
            )
        }
    }

    /// Calculate complete volume profile statistics
    pub fn calculate_stats(&self) -> (r: Option<VolumeProfileStats>)
        requires
            self.wf(),
            math::sum_of(buy_volumes(self.bins@)) <= u64::MAX,
            math::sum_of(sell_volumes(self.bins@)) <= u64::MAX,
        ensures
            r == self.stats_of(),
    {
        if self.bins.len() == 0 {
            return None;
        }
        let (poc_price, poc_volume) = match self.calculate_poc() {
            Some(p) => p,
            None => (0, 0),
        };
        let (vah, val) = match self.calculate_value_area(VALUE_AREA_PCT) {
            Some(a) => a,
            None => (poc_price, poc_price),
        };
        let ghost bs = self.bins@;
        let mut total_buy: u64 = 0;
        let mut total_sell: u64 = 0;
        let mut i: usize = 0;
        proof {
            assert(buy_volumes(bs.subrange(0, 0)) =~= Seq::<int>::empty());
            assert(sell_volumes(bs.subrange(0, 0)) =~= Seq::<int>::empty());
        }
        while i < self.bins.len()
            invariant
                i <= self.bins.len(),
                self.bins@ == bs,
                math::sum_of(buy_volumes(bs)) <= u64::MAX,
                math::sum_of(sell_volumes(bs)) <= u64::MAX,
                total_buy == math::sum_of(buy_volumes(bs.subrange(0, i as int))),
                total_sell == math::sum_of(sell_volumes(bs.subrange(0, i as int))),
            decreases self.bins.len() - i,
        {
            let bin: VolumeBin = self.bins[i];
            proof {
                let part = bs.subrange(0, i as int);
                let next = bs.subrange(0, i + 1);
                assert(buy_volumes(next) =~= buy_volumes(part).push(bin.buy_volume as int));
                assert(sell_volumes(next) =~= sell_volumes(part).push(bin.sell_volume as int));
                math::lemma_sum_push(buy_volumes(part), bin.buy_volume as int);
                math::lemma_sum_push(sell_volumes(part), bin.sell_volume as int);
                math::lemma_prefix_sum(buy_volumes(bs), i + 1);
                math::lemma_prefix_sum(sell_volumes(bs), i + 1);
                assert(buy_volumes(bs).subrange(0, i + 1) =~= buy_volumes(next));
                assert(sell_volumes(bs).subrange(0, i + 1) =~= sell_volumes(next));
            }
            total_buy = total_buy + bin.buy_volume;
            total_sell = total_sell + bin.sell_volume;
            i = i + 1;
        }
        proof {
            assert(bs.subrange(0, bs.len() as int) =~= bs);
        }
        Some(
            VolumeProfileStats {
                poc_price,
                poc_volume,
                vah_price: vah,
                val_price: val,
                total_volume: self.cached_total_volume,
                total_buy_volume: total_buy,
                total_sell_volume: total_sell,
                active_bins: self.bins.len(),
                vwap: if self.cached_total_volume > 0 {
                    Ratio { num: self.cached_vwap_num, den: self.cached_total_volume }
                } else {
                    Ratio { num: 0, den: 1 }
                },
            },
        )
    }

    /// Reset calculator for new session
    pub fn reset(&mut self)
        ensures
            final(self).wf(),
            final(self).is_blank(),
            final(self).bin_size == old(self).bin_size,
    {
        self.bins.clear();
        self.min_price = u64::MAX;
        self.max_price = 0;
        self.cached_total_volume = 0;
        self.cached_vwap_num = 0;
    }

    /// Get visible range profile between two prices
    pub fn get_visible_range(&self, start_price: i64, end_price: i64) -> (r: Vec<VolumeBin>)
        ensures
            r@ == visible(self.bins@, start_price, end_price),
    {
        let (low, high) = if start_price < end_price {
            (start_price, end_price)
        } else {
            (end_price, start_price)
        };
        let mut result: Vec<VolumeBin> = Vec::new();
        let mut i: usize = 0;
        proof {
            assert(self.bins@.subrange(0, 0) =~= Seq::<VolumeBin>::empty());
        }
        while i < self.bins.len()
            invariant
                i <= self.bins.len(),
                result@ == traded_between(
                    self.bins@.subrange(0, i as int),
                    low as int,
                    high as int,
                ),
            decreases self.bins.len() - i,
        {
            proof {
                let next = self.bins@.subrange(0, i + 1);
                assert(next.drop_last() =~= self.bins@.subrange(0, i as int));
                assert(next.last() == self.bins@[i as int]);
            }
            let bin: VolumeBin = self.bins[i];
            if bin.price >= low && bin.price <= high && bin.volume > 0 {
                result.push(bin);
            }
            i = i + 1;
        }
        proof {
            assert(self.bins@.subrange(0, i as int) =~= self.bins@);
        }
        sort_stable(result)
    }

    /// Get active bin count
    pub fn get_active_bins(&self) -> (r: usize)
        ensures
            r == self.bins.len(),
    {
        self.bins.len()
    }
}

/// The bins with volume between two prices, in their order.
pub open spec fn traded_between(bins: Seq<VolumeBin>, low: int, high: int) -> Seq<VolumeBin>
    decreases bins.len(),
{
    if bins.len() == 0 {
        bins
    } else if low <= bins.last().price <= high && bins.last().volume > 0 {
        traded_between(bins.drop_last(), low, high).push(bins.last())
    } else {
        traded_between(bins.drop_last(), low, high)
    }
}

/// The bins with volume between two prices, in either order, by rising price.
pub open spec fn visible(bins: Seq<VolumeBin>, x: i64, y: i64) -> Seq<VolumeBin> {
    sorting::stable_sort(
        traded_between(
            bins,
            math::min_int(x as int, y as int),
            math::max_int(x as int, y as int),
        ),
    )
}

/// The exact product of two words.
fn multiply(a: u64, b: u64) -> (r: u128)
    ensures
        r == a * b,
{
    assert(0 <= a * b <= u64::MAX * u64::MAX) by (nonlinear_arith)
        requires
            0 <= a <= u64::MAX,
            0 <= b <= u64::MAX,
    ;
    a as u128 * b as u128
}

/// Where the totals match, the total volume that is reported is the bought and
/// the sold volume together. They match before the first trade, and every trade
/// that keeps the total in its word keeps them so.
pub proof fn law_reported_total(c: VolumeProfileCalculator)
    ensures
        c.is_blank() ==> c.totals_match(),
        c.totals_match() ==> (c.stats_of() matches Some(s) ==> s.total_volume
            == s.total_buy_volume + s.total_sell_volume),
{
    lemma_volumes_nonnegative(c.bins@);
    if c.is_blank() {
        assert(buy_volumes(c.bins@) =~= Seq::<int>::empty());
        assert(sell_volumes(c.bins@) =~= Seq::<int>::empty());
    }
}

/// No bin trades more than the point of control, and none before it as much.
pub proof fn law_poc_is_largest(bins: Seq<VolumeBin>)
    ensures
        match poc_of(bins) {
            Some((p, v)) => v > 0 && (forall|i: int|
                0 <= i < bins.len() ==> (#[trigger] bins[i]).volume <= v) && (exists|i: int|
                0 <= i < bins.len() && (#[trigger] bins[i]).price == p && bins[i].volume == v && (
                forall|j: int| 0 <= j < i ==> (#[trigger] bins[j]).volume < v)),
            None => forall|i: int| 0 <= i < bins.len() ==> (#[trigger] bins[i]).volume == 0,
        },
    decreases bins.len(),
{
    if bins.len() > 0 {
        let t = bins.drop_last();
        law_poc_is_largest(t);
        assert forall|i: int| 0 <= i < t.len() implies #[trigger] t[i] == bins[i] by {}
        match poc_of(bins) {
            Some((p, v)) => {
                assert forall|i: int| 0 <= i < bins.len() implies (#[trigger] bins[i]).volume
                    <= v by {
                    if i < t.len() {
                        assert(t[i] == bins[i]);
                    }
                }
                if poc_of(t) == poc_of(bins) {
                    let k = choose|k: int|
                        0 <= k < t.len() && (#[trigger] t[k]).price == p && t[k].volume == v && (
                        forall|j: int| 0 <= j < k ==> (#[trigger] t[j]).volume < v);
                    assert(bins[k].price == p && bins[k].volume == v);
                    assert forall|j: int| 0 <= j < k implies (#[trigger] bins[j]).volume < v by {
                        assert(t[j] == bins[j]);
                    }
                } else {
                    let k = bins.len() - 1;
                    assert(bins[k].price == p);
                    assert forall|j: int| 0 <= j < k implies (#[trigger] bins[j]).volume < v by {
                        assert(t[j] == bins[j]);
                    }
                }
            },
            None => {
                assert forall|i: int| 0 <= i < bins.len() implies (#[trigger] bins[i]).volume
                    == 0 by {
                    if i < t.len() {
                        assert(t[i] == bins[i]);
                    }
                }
            },
        }
    }
}

/// A trade as the profile takes it.
pub struct ProfileTick {
    pub price: i64,
    pub volume: u64,
    pub is_buyer_maker: bool,
}

/// The bins after a run of ticks on an empty profile.
pub open spec fn bins_of(ticks: Seq<ProfileTick>) -> Seq<VolumeBin>
    decreases ticks.len(),
{
    if ticks.len() == 0 {
        Seq::empty()
    } else {
        let t = ticks.last();
        bins_after(bins_of(ticks.drop_last()), t.price, t.volume, !t.is_buyer_maker)
    }
}

/// The volume that a run of ticks traded at a price.
pub open spec fn volume_at(ticks: Seq<ProfileTick>, price: i64) -> int
    decreases ticks.len(),
{
    if ticks.len() == 0 {
        0
    } else {
        volume_at(ticks.drop_last(), price) + (if ticks.last().price == price {
            ticks.last().volume as int
        } else {
            0
        })
    }
}

/// Where a price first trades in a run of ticks, or the number of ticks where
/// it does not.
pub open spec fn first_at(ticks: Seq<ProfileTick>, price: i64) -> int
    decreases ticks.len(),
{
    if ticks.len() == 0 {
        0
    } else {
        let f = first_at(ticks.drop_last(), price);
        if f < ticks.len() - 1 {
            f
        } else if ticks.last().price == price {
            ticks.len() - 1
        } else {
            ticks.len() as int
        }
    }
}

/// The price trades in a run of ticks.
pub open spec fn trades_at(ticks: Seq<ProfileTick>, price: i64) -> bool {
    first_at(ticks, price) < ticks.len()
}

/// The prices of a run of ticks.
pub open spec fn tick_prices(ticks: Seq<ProfileTick>) -> Set<i64> {
    ticks.map_values(|t: ProfileTick| t.price).to_set()
}

spec fn bin_prices(bins: Seq<VolumeBin>) -> Seq<i64> {
    bins.map_values(|b: VolumeBin| b.price)
}

/// The bins of a run are those of its prices, in the order in which these first
/// traded, and hold the volume traded at each.
spec fn profiles(bins: Seq<VolumeBin>, ticks: Seq<ProfileTick>) -> bool {
    &&& bins.len() <= MAX_BINS
    &&& forall|i: int, j: int|
        0 <= i < j < bins.len() ==> first_at(ticks, (#[trigger] bins[i]).price) < first_at(
            ticks,
            (#[trigger] bins[j]).price,
        )
    &&& forall|i: int|
        0 <= i < bins.len() ==> trades_at(ticks, (#[trigger] bins[i]).price) && bins[i].volume
            == capped(volume_at(ticks, bins[i].price))
    &&& forall|p: i64| #[trigger] trades_at(ticks, p) ==> bin_position(bins, p) < bins.len()
}

proof fn lemma_first_at(ticks: Seq<ProfileTick>, price: i64)
    ensures
        0 <= first_at(ticks, price) <= ticks.len(),
        trades_at(ticks, price) <==> tick_prices(ticks).contains(price),
        trades_at(ticks, price) ==> ticks[first_at(ticks, price)].price == price,
        volume_at(ticks, price) >= 0,
        !trades_at(ticks, price) ==> volume_at(ticks, price) == 0,
    decreases ticks.len(),
{
    let all = ticks.map_values(|t: ProfileTick| t.price);
    if ticks.len() > 0 {
        let prefix = ticks.drop_last();
        lemma_first_at(prefix, price);
        let some = prefix.map_values(|t: ProfileTick| t.price);
        if some.contains(price) {
            let i = choose|i: int| 0 <= i < some.len() && some[i] == price;
            assert(all[i] == price);
        }
        if ticks.last().price == price {
            assert(all[ticks.len() - 1] == price);
        }
        if all.contains(price) && ticks.last().price != price {
            let i = choose|i: int| 0 <= i < all.len() && all[i] == price;
            assert(some[i] == price);
        }
    }
}

proof fn lemma_profiles(ticks: Seq<ProfileTick>)
    requires
        tick_prices(ticks).len() <= MAX_BINS,
    ensures
        profiles(bins_of(ticks), ticks),
    decreases ticks.len(),
{
    broadcast use vstd::seq_lib::seq_to_set_is_finite;

    if ticks.len() > 0 {
        let prefix = ticks.drop_last();
        let t = ticks.last();
        assert(tick_prices(prefix).subset_of(tick_prices(ticks))) by {
            assert forall|p: i64| tick_prices(prefix).contains(p) implies tick_prices(
                ticks,
            ).contains(p) by {
                lemma_first_at(prefix, p);
                lemma_first_at(ticks, p);
            }
        }
        vstd::set_lib::lemma_len_subset(tick_prices(prefix), tick_prices(ticks));
        lemma_profiles(prefix);
        let before = bins_of(prefix);
        let after = bins_of(ticks);
        let at = bin_position(before, t.price);
        lemma_bin_position(before, t.price);
        lemma_first_at(prefix, t.price);
        if at >= before.len() {
            assert(!trades_at(prefix, t.price));
            // The bins stand for the prices so far, to which this one is new.
            assert(bin_prices(before).to_set() =~= tick_prices(prefix)) by {
                assert forall|p: i64|
                    bin_prices(before).to_set().contains(p) <==> tick_prices(prefix).contains(
                        p,
                    ) by {
                    lemma_first_at(prefix, p);
                    lemma_bin_position(before, p);
                    if trades_at(prefix, p) {
                        assert(bin_prices(before)[bin_position(before, p)] == p);
                    }
                    if bin_prices(before).contains(p) {
                        let i = choose|i: int|
                            0 <= i < bin_prices(before).len() && bin_prices(before)[i] == p;
                        assert(before[i].price == p);
                    }
                }
            }
            assert(bin_prices(before).no_duplicates()) by {
                assert forall|i: int, j: int|
                    0 <= i < before.len() && 0 <= j < before.len() && i != j implies bin_prices(
                    before,
                )[i] != bin_prices(before)[j] by {
                    if i < j {
                        assert(first_at(prefix, before[i].price) < first_at(
                            prefix,
                            before[j].price,
                        ));
                    } else {
                        assert(first_at(prefix, before[j].price) < first_at(
                            prefix,
                            before[i].price,
                        ));
                    }
                }
            }
            bin_prices(before).unique_seq_to_set();
            assert(tick_prices(prefix).insert(t.price).subset_of(tick_prices(ticks))) by {
                lemma_first_at(ticks, t.price);
            }
            vstd::set_lib::lemma_len_subset(
                tick_prices(prefix).insert(t.price),
                tick_prices(ticks),
            );
            assert(before.len() < MAX_BINS);
        }
        assert forall|i: int| 0 <= i < after.len() implies trades_at(
            ticks,
            (#[trigger] after[i]).price,
        ) && after[i].volume == capped(volume_at(ticks, after[i].price)) by {
            lemma_first_at(prefix, after[i].price);
            if i < before.len() {
                assert(trades_at(prefix, before[i].price));
                if i != at && before[i].price == t.price {
                    lemma_first_at(prefix, before[i].price);
                    assert(at < i);
                    assert(first_at(prefix, before[at].price) < first_at(prefix, before[i].price));
                }
            }
        }
        assert forall|i: int, j: int| 0 <= i < j < after.len() implies first_at(
            ticks,
            (#[trigger] after[i]).price,
        ) < first_at(ticks, (#[trigger] after[j]).price) by {
            lemma_first_at(prefix, after[i].price);
            lemma_first_at(prefix, after[j].price);
            assert(trades_at(prefix, before[i].price));
            if j < before.len() {
                assert(trades_at(prefix, before[j].price));
                assert(first_at(prefix, before[i].price) < first_at(prefix, before[j].price));
            }
        }
        assert forall|p: i64| #[trigger] trades_at(ticks, p) implies bin_position(after, p)
            < after.len() by {
            lemma_first_at(prefix, p);
            lemma_bin_position(before, p);
            lemma_bin_position(after, p);
            if p == t.price {
                let k = if at < before.len() { at } else { before.len() as int };
                assert(after[k].price == p);
            } else {
                assert(trades_at(prefix, p));
                let k = bin_position(before, p);
                assert(after[k].price == p);
            }
        }
    }
}

/// Over a whole run of ticks at no more prices than there are bins, the point
/// of control is a traded price with its whole volume, no price has more, and of
/// equal ones the first traded wins. There is none exactly while no price has
/// any volume. Volumes stop at the largest word.
pub proof fn law_poc_of_run(ticks: Seq<ProfileTick>, q: i64)
    requires
        tick_prices(ticks).len() <= MAX_BINS,
    ensures
        match poc_of(bins_of(ticks)) {
            Some((p, v)) => {
                &&& trades_at(ticks, p)
                &&& v == capped(volume_at(ticks, p))
                &&& v > 0
                &&& capped(volume_at(ticks, q)) <= v
                &&& trades_at(ticks, q) && capped(volume_at(ticks, q)) == v ==> first_at(ticks, p)
                    <= first_at(ticks, q)
            },
            None => volume_at(ticks, q) == 0,
        },
{
    let bins = bins_of(ticks);
    lemma_profiles(ticks);
    law_poc_is_largest(bins);
    lemma_first_at(ticks, q);
    lemma_bin_position(bins, q);
    let k = bin_position(bins, q);
    match poc_of(bins) {
        Some((p, v)) => {
            let i = choose|i: int|
                0 <= i < bins.len() && (#[trigger] bins[i]).price == p && bins[i].volume == v && (
                forall|j: int| 0 <= j < i ==> (#[trigger] bins[j]).volume < v);
            assert(trades_at(ticks, bins[i].price));
            if trades_at(ticks, q) {
                assert(bins[k].volume <= v);
                if bins[k].volume == v && k != i {
                    assert(i < k);
                    assert(first_at(ticks, bins[i].price) < first_at(ticks, bins[k].price));
                }
            }
        },
        None => {
            if trades_at(ticks, q) {
                assert(bins[k].volume == 0);
            }
        },
    }
}

proof fn lemma_traded_between(bins: Seq<VolumeBin>, low: int, high: int)
    ensures
        forall|b: VolumeBin| #[trigger]
            traded_between(bins, low, high).contains(b) <==> bins.contains(b) && low <= b.price
                <= high && b.volume > 0,
    decreases bins.len(),
{
    let some = traded_between(bins, low, high);
    if bins.len() > 0 {
        let t = bins.drop_last();
        let rest = traded_between(t, low, high);
        lemma_traded_between(t, low, high);
        assert forall|b: VolumeBin| #[trigger]
            some.contains(b) <==> bins.contains(b) && low <= b.price <= high && b.volume > 0 by {
            if bins.contains(b) && b != bins.last() {
                let i = choose|i: int| 0 <= i < bins.len() && bins[i] == b;
                assert(t[i] == b);
            }
            if t.contains(b) {
                let i = choose|i: int| 0 <= i < t.len() && t[i] == b;
                assert(bins[i] == b);
            }
            if rest.contains(b) {
                let i = choose|i: int| 0 <= i < rest.len() && rest[i] == b;
                assert(some[i] == b);
            }
            if b == bins.last() {
                assert(bins[bins.len() - 1] == b);
                if low <= b.price <= high && b.volume > 0 {
                    assert(some[some.len() - 1] == b);
                }
            }
            if some.contains(b) {
                let i = choose|i: int| 0 <= i < some.len() && some[i] == b;
                if i < rest.len() {
                    assert(rest[i] == b);
                }
            }
        }
    }
}

proof fn lemma_traded_between_distinct(bins: Seq<VolumeBin>, low: int, high: int)
    requires
        forall|i: int, j: int|
            0 <= i < j < bins.len() ==> (#[trigger] bins[i]).price != (#[trigger] bins[j]).price,
    ensures
        traded_between(bins, low, high).no_duplicates(),
    decreases bins.len(),
{
    if bins.len() > 0 {
        let t = bins.drop_last();
        let rest = traded_between(t, low, high);
        lemma_traded_between_distinct(t, low, high);
        lemma_traded_between(t, low, high);
        assert(!rest.contains(bins.last())) by {
            if rest.contains(bins.last()) {
                let i = choose|i: int| 0 <= i < t.len() && t[i] == bins.last();
                assert(bins[i].price != bins[bins.len() - 1].price);
            }
        }
        assert forall|i: int| 0 <= i < rest.len() implies #[trigger] rest[i] != bins.last() by {
            assert(rest.contains(rest[i]));
        }
    }
}

/// Over a whole run of ticks at no more prices than there are bins, the visible
/// range between two prices lists each traded price between them that has any
/// volume exactly once, by rising price, with its whole volume, in whichever
/// order the two are given.
pub proof fn law_visible_range_of_run(ticks: Seq<ProfileTick>, x: i64, y: i64)
    requires
        tick_prices(ticks).len() <= MAX_BINS,
    ensures
        ({
            let r = visible(bins_of(ticks), x, y);
            let low = math::min_int(x as int, y as int);
            let high = math::max_int(x as int, y as int);
            &&& r == visible(bins_of(ticks), y, x)
            &&& forall|i: int, j: int|
                0 <= i < j < r.len() ==> (#[trigger] r[i]).price < (#[trigger] r[j]).price
            &&& forall|i: int|
                0 <= i < r.len() ==> {
                    let b = #[trigger] r[i];
                    &&& low <= b.price <= high
                    &&& trades_at(ticks, b.price)
                    &&& b.volume > 0
                    &&& b.volume == capped(volume_at(ticks, b.price))
                }
            &&& forall|q: i64| #[trigger]
                trades_at(ticks, q) && low <= q <= high && volume_at(ticks, q) > 0 ==> exists|i: int|
                    0 <= i < r.len() && (#[trigger] r[i]).price == q
        }),
{
    broadcast use vstd::seq_lib::group_to_multiset_ensures;

    let bins = bins_of(ticks);
    let low = math::min_int(x as int, y as int);
    let high = math::max_int(x as int, y as int);
    let some = traded_between(bins, low, high);
    let r = visible(bins, x, y);
    lemma_profiles(ticks);
    assert forall|i: int, j: int| 0 <= i < j < bins.len() implies (#[trigger] bins[i]).price != (
    #[trigger] bins[j]).price by {
        assert(first_at(ticks, bins[i].price) < first_at(ticks, bins[j].price));
    }
    lemma_traded_between(bins, low, high);
    lemma_traded_between_distinct(bins, low, high);
    sorting::lemma_stable_sort(some);
    some.lemma_multiset_has_no_duplicates();
    assert(r.to_multiset() =~= some.to_multiset());
    r.lemma_multiset_has_no_duplicates_conv();
    assert forall|b: VolumeBin| r.contains(b) <==> #[trigger] some.contains(b) by {
        assert(r.to_multiset().count(b) == some.to_multiset().count(b));
    }
    assert forall|i: int| 0 <= i < r.len() implies {
        let b = #[trigger] r[i];
        &&& low <= b.price <= high
        &&& trades_at(ticks, b.price)
        &&& b.volume > 0
        &&& b.volume == capped(volume_at(ticks, b.price))
    } by {
        assert(r.contains(r[i]));
        assert(some.contains(r[i]));
        let k = choose|k: int| 0 <= k < bins.len() && bins[k] == r[i];
        assert(trades_at(ticks, bins[k].price));
    }
    assert forall|i: int, j: int| 0 <= i < j < r.len() implies (#[trigger] r[i]).price < (
    #[trigger] r[j]).price by {
        assert(r[i] != r[j]);
        assert(r.contains(r[i]) && r.contains(r[j]));
        assert(some.contains(r[i]) && some.contains(r[j]));
        let a = choose|k: int| 0 <= k < bins.len() && bins[k] == r[i];
        let b = choose|k: int| 0 <= k < bins.len() && bins[k] == r[j];
        assert(a != b);
        assert(r[i].sort_key() <= r[j].sort_key());
        if a < b {
            assert(bins[a].price != bins[b].price);
        } else {
            assert(bins[b].price != bins[a].price);
        }
    }
    assert forall|q: i64| #[trigger]
        trades_at(ticks, q) && low <= q <= high && volume_at(ticks, q) > 0 implies exists|i: int|
        0 <= i < r.len() && (#[trigger] r[i]).price == q by {
        lemma_bin_position(bins, q);
        let k = bin_position(bins, q);
        assert(bins[k].price == q);
        assert(bins.contains(bins[k]));
        assert(some.contains(bins[k]));
        assert(r.contains(bins[k]));
        let i = choose|i: int| 0 <= i < r.len() && r[i] == bins[k];
        assert(r[i].price == q);
    }
}

/// The value area always contains the point of control.
pub proof fn law_value_area_holds_poc(r: Seq<RankedBin>, taken: int, poc: i64, target: int)
    requires
        0 <= taken <= r.len(),
    ensures
        reach(r, taken, poc, target).1 <= poc <= reach(r, taken, poc, target).0,
    decreases r.len() - taken,
{
    lemma_spanned_holds(r.subrange(0, taken), poc);
    if taken < r.len() {
        law_value_area_holds_poc(r, taken + 1, poc, target);
    }
}

proof fn lemma_spanned_holds(r: Seq<RankedBin>, poc: i64)
    ensures
        spanned(r, poc).1 <= poc <= spanned(r, poc).0,
    decreases r.len(),
{
    if r.len() > 0 {
        lemma_spanned_holds(r.drop_last(), poc);
    }
}

/// Hours to nanoseconds.
pub const HOUR_NS: u64 = 3_600_000_000_000;

/// The sums over recent sessions that a composite is made of.
pub open spec fn poc_terms(recent: Seq<VolumeProfileStats>) -> Seq<int> {
    Seq::new(recent.len(), |i: int| recent[i].poc_price * (recent.len() - i))
}

pub open spec fn weights(n: nat) -> Seq<int> {
    Seq::new(n, |i: int| n - i)
}

pub open spec fn stat_sum(recent: Seq<VolumeProfileStats>, field: spec_fn(VolumeProfileStats) -> int)
    -> int {
    math::sum_of(recent.map_values(field))
}

/// The newest sessions, newest first.
pub open spec fn newest(profiles: Seq<VolumeProfileStats>, take: int) -> Seq<VolumeProfileStats> {
    Seq::new(take as nat, |i: int| profiles[profiles.len() - 1 - i])
}

/// Session-based Volume Profile manager
pub struct SessionVolumeProfile {
    /// Current session calculator
    pub current_session: VolumeProfileCalculator,
    /// Session start timestamp (nanoseconds)
    pub session_start_ns: u64,
    /// Session duration in nanoseconds
    pub session_duration_ns: u64,
    /// Historical session profiles (for multi-day analysis)
    pub historical_profiles: Vec<VolumeProfileStats>,
}

/// The aggregate of several sessions. Average prices are rounded toward zero;
/// the point of control weighs recent sessions more. The quotients of the
/// sessions' average prices stay listed one by one.
#[derive(Debug)]
pub struct CompositeProfile {
    pub poc_price: i64,
    pub poc_volume: u64,
    pub vah_price: i64,
    pub val_price: i64,
    pub total_volume: u64,
    pub total_buy_volume: u64,
    pub total_sell_volume: u64,
    pub active_bins: usize,
    pub vwaps: Vec<Ratio>,
}

impl SessionVolumeProfile {
    pub open spec fn wf(&self) -> bool {
        self.current_session.wf()
    }

    /// The sums of buy and sell volume in the current session fit a word.
    pub open spec fn sums_fit(&self) -> bool {
        &&& math::sum_of(buy_volumes(self.current_session.bins@)) <= u64::MAX
        &&& math::sum_of(sell_volumes(self.current_session.bins@)) <= u64::MAX
    }

    /// The session has run for its full length.
    pub open spec fn session_over(&self, now_ns: u64) -> bool {
        self.session_start_ns != 0 && now_ns - self.session_start_ns >= self.session_duration_ns
    }

    /// Create new session volume profile manager
    pub fn new(bin_size: i64, session_duration_hours: u64) -> (r: Self)
        requires
            session_duration_hours * HOUR_NS <= u64::MAX,
        ensures
            r.wf(),
            r.current_session.is_blank(),
            r.current_session.bin_size == bin_size,
            r.session_start_ns == 0,
            r.session_duration_ns == session_duration_hours * HOUR_NS,
            r.historical_profiles@ == Seq::<VolumeProfileStats>::empty(),
    {
        SessionVolumeProfile {
            current_session: VolumeProfileCalculator::new(bin_size),
            session_start_ns: 0,
            session_duration_ns: session_duration_hours * HOUR_NS,
            historical_profiles: Vec::with_capacity(30),
        }
    }

    /// Initialize or check session rollover
    pub fn check_session(&mut self, current_time_ns: u64)
        requires
            old(self).wf(),
            old(self).session_start_ns <= current_time_ns,
            old(self).sums_fit(),
        ensures
            final(self).wf(),
            final(self).session_duration_ns == old(self).session_duration_ns,
            final(self).current_session.bin_size == old(self).current_session.bin_size,
            final(self).session_start_ns == (if old(self).session_start_ns == 0 || old(self).session_over(current_time_ns) {
                current_time_ns
            } else {
                old(self).session_start_ns
            }),
            if old(self).session_over(current_time_ns) {
                &&& final(self).current_session.is_blank()
                &&& final(self).historical_profiles@ == (match old(self).current_session.stats_of() {
                    Some(s) => old(self).historical_profiles@.push(s),
                    None => old(self).historical_profiles@,
                })
            } else {
                &&& final(self).current_session == old(self).current_session
                &&& final(self).historical_profiles == old(self).historical_profiles
            },
    {
        if self.session_start_ns == 0 {
            self.session_start_ns = current_time_ns;
        } else if current_time_ns - self.session_start_ns >= self.session_duration_ns {
            match self.current_session.calculate_stats() {
                Some(stats) => {
                    self.historical_profiles.push(stats);
                },
                None => {},
            }
            self.current_session.reset();
            self.session_start_ns = current_time_ns;
        }
    }

    /// Process tick with session management
    pub fn process_tick(&mut self, price: i64, volume: u64, is_buyer_maker: bool, timestamp_ns: u64)
        requires
            old(self).wf(),
            old(self).session_start_ns <= timestamp_ns,
            old(self).sums_fit(),
        ensures
            final(self).wf(),
            final(self).session_duration_ns == old(self).session_duration_ns,
            final(self).session_start_ns == (if old(self).session_start_ns == 0 || old(self).session_over(timestamp_ns) {
                timestamp_ns
            } else {
                old(self).session_start_ns
            }),
            final(self).current_session.bins@ == bins_after(
                if old(self).session_over(timestamp_ns) {
                    Seq::empty()
                } else {
                    old(self).current_session.bins@
                },
                price,
                volume,
                !is_buyer_maker,
            ),
            final(self).historical_profiles@ == (if old(self).session_over(timestamp_ns)
                && old(self).current_session.stats_of() is Some {
                old(self).historical_profiles@.push(old(self).current_session.stats_of()->0)
            } else {
                old(self).historical_profiles@
            }),
    {
        self.check_session(timestamp_ns);
        assert(self.current_session.is_blank() ==> self.current_session.bins@
            =~= Seq::<VolumeBin>::empty());
        self.current_session.process_tick(price, volume, is_buyer_maker);
    }

    /// Get current session stats
    pub fn get_current_stats(&self) -> (r: Option<VolumeProfileStats>)
        requires
            self.wf(),
            self.sums_fit(),
        ensures
            r == self.current_session.stats_of(),
    {
        self.current_session.calculate_stats()
    }

    /// Get historical session profiles
    pub fn get_historical_profiles(&self) -> (r: Vec<VolumeProfileStats>)
        ensures
            r@ == self.historical_profiles@,
    {
        let mut out: Vec<VolumeProfileStats> = Vec::with_capacity(self.historical_profiles.len());
        let mut i: usize = 0;
        while i < self.historical_profiles.len()
            invariant
                i <= self.historical_profiles.len(),
                out@ == self.historical_profiles@.subrange(0, i as int),
            decreases self.historical_profiles.len() - i,
        {
            out.push(self.historical_profiles[i]);
            i = i + 1;
            assert(out@ =~= self.historical_profiles@.subrange(0, i as int));
        }
        assert(out@ =~= self.historical_profiles@);
        out
    }

    /// The sums over the newest sessions fit their fields.
    pub open spec fn composite_fits(&self, num_sessions: usize) -> bool {
        let take = math::min_int(num_sessions as int, self.historical_profiles.len() as int);
        let recent = newest(self.historical_profiles@, take);
        &&& take <= 0x4000_0000
        &&& stat_sum(recent, |p: VolumeProfileStats| p.poc_volume as int) <= u64::MAX
        &&& stat_sum(recent, |p: VolumeProfileStats| p.total_volume as int) <= u64::MAX
        &&& stat_sum(recent, |p: VolumeProfileStats| p.total_buy_volume as int) <= u64::MAX
        &&& stat_sum(recent, |p: VolumeProfileStats| p.total_sell_volume as int) <= u64::MAX
        &&& stat_sum(recent, |p: VolumeProfileStats| p.active_bins as int) <= usize::MAX
    }

    /// Get composite profile from multiple sessions
    #[verifier::rlimit(60)]
    pub fn get_composite_profile(&self, num_sessions: usize) -> (r: Option<CompositeProfile>)
        requires
            self.composite_fits(num_sessions),
        ensures
            ({
                let take = math::min_int(
                    num_sessions as int,
                    self.historical_profiles.len() as int,
                );
                let recent = newest(self.historical_profiles@, take);
                match r {
                    None => take == 0,
                    Some(c) => {
                        &&& take > 0
                        &&& c.poc_price == math::trunc_div(
                            math::sum_of(poc_terms(recent)),
                            math::sum_of(weights(take as nat)),
                        )
                        &&& c.vah_price == math::trunc_div(
                            stat_sum(recent, |p: VolumeProfileStats| p.vah_price as int),
                            take,
                        )
                        &&& c.val_price == math::trunc_div(
                            stat_sum(recent, |p: VolumeProfileStats| p.val_price as int),
                            take,
                        )
                        &&& c.poc_volume == stat_sum(
                            recent,
                            |p: VolumeProfileStats| p.poc_volume as int,
                        )
                        &&& c.total_volume == stat_sum(
                            recent,
                            |p: VolumeProfileStats| p.total_volume as int,
                        )
                        &&& c.total_buy_volume == stat_sum(
                            recent,
                            |p: VolumeProfileStats| p.total_buy_volume as int,
                        )
                        &&& c.total_sell_volume == stat_sum(
                            recent,
                            |p: VolumeProfileStats| p.total_sell_volume as int,
                        )
                        &&& c.active_bins == stat_sum(
                            recent,
                            |p: VolumeProfileStats| p.active_bins as int,
                        )
                        &&& c.vwaps@ == recent.map_values(|p: VolumeProfileStats| p.vwap)
                    },
                }
            }),
    {
        let take: usize = min_usize(num_sessions, self.historical_profiles.len());
        if take == 0 {
            return None;
        }
        let ghost recent = newest(self.historical_profiles@, take as int);
        let ghost f_poc = |p: VolumeProfileStats| p.poc_volume as int;
        let ghost f_tot = |p: VolumeProfileStats| p.total_volume as int;
        let ghost f_buy = |p: VolumeProfileStats| p.total_buy_volume as int;
        let ghost f_sell = |p: VolumeProfileStats| p.total_sell_volume as int;
        let ghost f_bins = |p: VolumeProfileStats| p.active_bins as int;
        let ghost f_vah = |p: VolumeProfileStats| p.vah_price as int;
        let ghost f_val = |p: VolumeProfileStats| p.val_price as int;
        let mut weighted: i128 = 0;
        let mut weight_total: i128 = 0;
        let mut vah: i128 = 0;
        let mut val: i128 = 0;
        let mut poc_volume: u64 = 0;
        let mut total: u64 = 0;
        let mut buy: u64 = 0;
        let mut sell: u64 = 0;
        let mut bins: usize = 0;
        let mut vwaps: Vec<Ratio> = Vec::with_capacity(take);
        let mut i: usize = 0;
        proof {
            let e = recent.subrange(0, 0);
            assert(e.map_values(f_poc) =~= Seq::<int>::empty());
            assert(e.map_values(f_tot) =~= Seq::<int>::empty());
            assert(e.map_values(f_buy) =~= Seq::<int>::empty());
            assert(e.map_values(f_sell) =~= Seq::<int>::empty());
            assert(e.map_values(f_bins) =~= Seq::<int>::empty());
            assert(e.map_values(f_vah) =~= Seq::<int>::empty());
            assert(e.map_values(f_val) =~= Seq::<int>::empty());
            assert(poc_terms(recent).subrange(0, 0) =~= Seq::<int>::empty());
            assert(weights(take as nat).subrange(0, 0) =~= Seq::<int>::empty());
        }
        while i < take
            invariant
                i <= take,
                0 < take <= self.historical_profiles.len(),
                take <= 0x4000_0000,
                recent == newest(self.historical_profiles@, take as int),
                f_poc == (|p: VolumeProfileStats| p.poc_volume as int),
                f_tot == (|p: VolumeProfileStats| p.total_volume as int),
                f_buy == (|p: VolumeProfileStats| p.total_buy_volume as int),
                f_sell == (|p: VolumeProfileStats| p.total_sell_volume as int),
                f_bins == (|p: VolumeProfileStats| p.active_bins as int),
                f_vah == (|p: VolumeProfileStats| p.vah_price as int),
                f_val == (|p: VolumeProfileStats| p.val_price as int),
                stat_sum(recent, f_poc) <= u64::MAX,
                stat_sum(recent, f_tot) <= u64::MAX,
                stat_sum(recent, f_buy) <= u64::MAX,
                stat_sum(recent, f_sell) <= u64::MAX,
                stat_sum(recent, f_bins) <= usize::MAX,
                poc_volume == stat_sum(recent.subrange(0, i as int), f_poc),
                total == stat_sum(recent.subrange(0, i as int), f_tot),
                buy == stat_sum(recent.subrange(0, i as int), f_buy),
                sell == stat_sum(recent.subrange(0, i as int), f_sell),
                bins == stat_sum(recent.subrange(0, i as int), f_bins),
                vah == stat_sum(recent.subrange(0, i as int), f_vah),
                val == stat_sum(recent.subrange(0, i as int), f_val),
                i64::MIN * i <= vah <= i64::MAX * i,
                i64::MIN * i <= val <= i64::MAX * i,
                weighted == math::sum_of(poc_terms(recent).subrange(0, i as int)),
                weight_total == math::sum_of(weights(take as nat).subrange(0, i as int)),
                i <= weight_total <= i * take,
                i64::MIN * weight_total <= weighted <= i64::MAX * weight_total,
                vwaps@ == recent.subrange(0, i as int).map_values(|p: VolumeProfileStats| p.vwap),
            decreases take - i,
        {
            let p: VolumeProfileStats = self.historical_profiles[self.historical_profiles.len() - 1
                - i];
            let weight: i128 = (take - i) as i128;
            let price: i128 = p.poc_price as i128;
            proof {
                let part = recent.subrange(0, i as int);
                let next = recent.subrange(0, i + 1);
                assert(recent[i as int] == p);
                assert(next =~= part.push(p));
                lemma_stat_step(recent, i as int, f_poc);
                lemma_stat_step(recent, i as int, f_tot);
                lemma_stat_step(recent, i as int, f_buy);
                lemma_stat_step(recent, i as int, f_sell);
                lemma_stat_step(recent, i as int, f_bins);
                lemma_stat_step(recent, i as int, f_vah);
                lemma_stat_step(recent, i as int, f_val);
                lemma_stat_prefix(recent, i + 1, f_poc);
                lemma_stat_prefix(recent, i + 1, f_tot);
                lemma_stat_prefix(recent, i + 1, f_buy);
                lemma_stat_prefix(recent, i + 1, f_sell);
                lemma_stat_prefix(recent, i + 1, f_bins);
                let pt = poc_terms(recent);
                let wt = weights(take as nat);
                assert(pt.subrange(0, i + 1) =~= pt.subrange(0, i as int).push(pt[i as int]));
                assert(wt.subrange(0, i + 1) =~= wt.subrange(0, i as int).push(wt[i as int]));
                math::lemma_sum_push(pt.subrange(0, i as int), pt[i as int]);
                math::lemma_sum_push(wt.subrange(0, i as int), wt[i as int]);
                assert(pt[i as int] == price * weight);
                assert(wt[i as int] == weight);
                lemma_weighted_bounds(weighted as int, weight_total as int, price as int, weight as int);
                assert(i64::MIN * (i + 1) == i64::MIN * i + i64::MIN && i64::MAX * (i + 1)
                    == i64::MAX * i + i64::MAX) by (nonlinear_arith);
                assert((i + 1) * take == i * take + take) by (nonlinear_arith);
                assert(i * take <= 0x4000_0000 * 0x4000_0000) by (nonlinear_arith)
                    requires
                        i <= 0x4000_0000,
                        take <= 0x4000_0000,
                ;
                assert(i64::MAX * i <= i64::MAX * 0x4000_0000 && i64::MIN * i >= i64::MIN
                    * 0x4000_0000) by (nonlinear_arith)
                    requires
                        i <= 0x4000_0000,
                ;
                assert(-0x8000_0000_0000_0000_0000_0000 <= price * weight
                    <= 0x8000_0000_0000_0000_0000_0000) by (nonlinear_arith)
                    requires
                        -0x8000_0000_0000_0000 <= price <= 0x8000_0000_0000_0000,
                        0 <= weight <= 0x4000_0000,
                ;
                assert(i64::MAX * weight_total <= i64::MAX * 0x1000_0000_0000_0000 && i64::MIN
                    * weight_total >= i64::MIN * 0x1000_0000_0000_0000) by (nonlinear_arith)
                    requires
                        0 <= weight_total <= 0x1000_0000_0000_0000,
                ;
            }
            weighted = weighted + price * weight;
            weight_total = weight_total + weight;
            vah = vah + p.vah_price as i128;
            val = val + p.val_price as i128;
            poc_volume = poc_volume + p.poc_volume;
            total = total + p.total_volume;
            buy = buy + p.total_buy_volume;
            sell = sell + p.total_sell_volume;
            bins = bins + p.active_bins;
            vwaps.push(p.vwap);
            proof {
                assert(vwaps@ =~= recent.subrange(0, i + 1).map_values(
                    |p: VolumeProfileStats| p.vwap,
                ));
            }
            i = i + 1;
        }
        proof {
            assert(recent.subrange(0, take as int) =~= recent);
            assert(poc_terms(recent).subrange(0, take as int) =~= poc_terms(recent));
            assert(weights(take as nat).subrange(0, take as int) =~= weights(take as nat));
            lemma_average_fits(weighted as int, weight_total as int);
            lemma_average_fits(vah as int, take as int);
            lemma_average_fits(val as int, take as int);
            assert(weight_total <= 0x1000_0000_0000_0000) by (nonlinear_arith)
                requires
                    weight_total <= take * take,
                    take <= 0x4000_0000,
            ;
            assert(i64::MIN * weight_total > i128::MIN) by (nonlinear_arith)
                requires
                    0 <= weight_total <= 0x1000_0000_0000_0000,
            ;
            assert(i64::MIN * take > i128::MIN) by (nonlinear_arith)
                requires
                    0 <= take <= 0x4000_0000,
            ;
        }
        let composite_poc: i128 = div_trunc_wide(weighted, weight_total);
        let vah_avg: i128 = div_trunc_wide(vah, take as i128);
        let val_avg: i128 = div_trunc_wide(val, take as i128);
        Some(
            CompositeProfile {
                poc_price: composite_poc as i64,
                poc_volume,
                vah_price: vah_avg as i64,
                val_price: val_avg as i64,
                total_volume: total,
                total_buy_volume: buy,
                total_sell_volume: sell,
                active_bins: bins,
                vwaps,
            },
        )
    }
}

proof fn lemma_stat_step(
    recent: Seq<VolumeProfileStats>,
    i: int,
    field: spec_fn(VolumeProfileStats) -> int,
)
    requires
        0 <= i < recent.len(),
    ensures
        stat_sum(recent.subrange(0, i + 1), field) == stat_sum(recent.subrange(0, i), field)
            + field(recent[i]),
{
    assert(recent.subrange(0, i + 1).map_values(field) =~= recent.subrange(0, i).map_values(
        field,
    ).push(field(recent[i])));
    math::lemma_sum_push(recent.subrange(0, i).map_values(field), field(recent[i]));
}

proof fn lemma_stat_prefix(
    recent: Seq<VolumeProfileStats>,
    n: int,
    field: spec_fn(VolumeProfileStats) -> int,
)
    requires
        0 <= n <= recent.len(),
        forall|p: VolumeProfileStats| #[trigger] field(p) >= 0,
    ensures
        stat_sum(recent.subrange(0, n), field) <= stat_sum(recent, field),
{
    let s = recent.map_values(field);
    math::lemma_prefix_sum(s, n);
    assert(s.subrange(0, n) =~= recent.subrange(0, n).map_values(field));
}

proof fn lemma_weighted_bounds(sum: int, weight_sum: int, price: int, weight: int)
    requires
        i64::MIN * weight_sum <= sum <= i64::MAX * weight_sum,
        i64::MIN <= price <= i64::MAX,
        weight > 0,
    ensures
        i64::MIN * (weight_sum + weight) <= sum + price * weight <= i64::MAX * (weight_sum
            + weight),
{
    assert(i64::MIN * (weight_sum + weight) <= sum + price * weight <= i64::MAX * (weight_sum
        + weight)) by (nonlinear_arith)
        requires
            i64::MIN * weight_sum <= sum <= i64::MAX * weight_sum,
            i64::MIN <= price <= i64::MAX,
            weight > 0,
    ;
}

/// An average of signed words is a signed word.
proof fn lemma_average_fits(sum: int, n: int)
    requires
        n > 0,
        i64::MIN * n <= sum <= i64::MAX * n,
    ensures
        i64::MIN <= math::trunc_div(sum, n) <= i64::MAX,
{
    if sum >= 0 {
        assert(0 <= sum / n <= i64::MAX) by (nonlinear_arith)
            requires
                n > 0,
                0 <= sum <= i64::MAX * n,
        ;
    } else {
        let s = -sum;
        assert(0 <= s / n <= 0x8000_0000_0000_0000) by (nonlinear_arith)
            requires
                n > 0,
                0 <= s <= 0x8000_0000_0000_0000 * n,
        ;
    }
}

/// Whether the first `k` bins of a ranking make up a value area: with them the
/// volume reaches the target, or they are all, without the last of them it does
/// not, or that is the only one, and the two prices are the highest and the
/// lowest among them and the point of control.
pub open spec fn is_area(
    r: Seq<RankedBin>,
    k: int,
    poc: i64,
    target: int,
    high: int,
    low: int,
) -> bool {
    &&& 1 <= k <= r.len()
    &&& k == r.len() || math::sum_of(ranked_volumes(r.subrange(0, k))) >= target
    &&& k == 1 || math::sum_of(ranked_volumes(r.subrange(0, k - 1))) < target
    &&& low <= poc <= high
    &&& forall|i: int| 0 <= i < k ==> low <= (#[trigger] r[i]).bin.price <= high
    &&& high == poc || exists|i: int| 0 <= i < k && (#[trigger] r[i]).bin.price == high
    &&& low == poc || exists|i: int| 0 <= i < k && (#[trigger] r[i]).bin.price == low
}

proof fn lemma_spanned_bounds(r: Seq<RankedBin>, poc: i64)
    ensures
        ({
            let (high, low) = spanned(r, poc);
            &&& low <= poc <= high
            &&& forall|i: int| 0 <= i < r.len() ==> low <= (#[trigger] r[i]).bin.price <= high
            &&& high == poc || exists|i: int|
                0 <= i < r.len() && (#[trigger] r[i]).bin.price == high
            &&& low == poc || exists|i: int| 0 <= i < r.len() && (#[trigger] r[i]).bin.price == low
        }),
    decreases r.len(),
{
    if r.len() > 0 {
        let t = r.drop_last();
        lemma_spanned_bounds(t, poc);
        let (high, low) = spanned(r, poc);
        let (h, l) = spanned(t, poc);
        assert(r[r.len() - 1] == r.last());
        assert forall|i: int| 0 <= i < r.len() implies low <= (#[trigger] r[i]).bin.price
            <= high by {
            if i < t.len() {
                assert(t[i] == r[i]);
            }
        }
        if high == h && high != poc {
            let i = choose|i: int| 0 <= i < t.len() && (#[trigger] t[i]).bin.price == h;
            assert(r[i].bin.price == high);
        }
        if low == l && low != poc {
            let i = choose|i: int| 0 <= i < t.len() && (#[trigger] t[i]).bin.price == l;
            assert(r[i].bin.price == low);
        }
    }
}

proof fn lemma_reach_is_area(r: Seq<RankedBin>, taken: int, poc: i64, target: int)
    requires
        r.len() > 0,
        0 <= taken <= r.len(),
        taken <= 1 || math::sum_of(ranked_volumes(r.subrange(0, taken - 1))) < target,
    ensures
        exists|k: int| #[trigger]
            is_area(
                r,
                k,
                poc,
                target,
                reach(r, taken, poc, target).0,
                reach(r, taken, poc, target).1,
            ),
    decreases r.len() - taken,
{
    let part = r.subrange(0, taken);
    if taken >= r.len() || (taken > 0 && math::sum_of(ranked_volumes(part)) >= target) {
        lemma_spanned_bounds(part, poc);
        let (high, low) = spanned(part, poc);
        assert forall|i: int| 0 <= i < taken implies low <= (#[trigger] r[i]).bin.price
            <= high by {
            assert(part[i] == r[i]);
        }
        if high != poc {
            let i = choose|i: int| 0 <= i < part.len() && (#[trigger] part[i]).bin.price == high;
            assert(r[i].bin.price == high);
        }
        if low != poc {
            let i = choose|i: int| 0 <= i < part.len() && (#[trigger] part[i]).bin.price == low;
            assert(r[i].bin.price == low);
        }
        assert(reach(r, taken, poc, target) == (high, low));
        assert(is_area(r, taken, poc, target, high, low));
    } else {
        lemma_reach_is_area(r, taken + 1, poc, target);
        assert(reach(r, taken, poc, target) == reach(r, taken + 1, poc, target));
    }
}

/// A value area stands around the point of control: of the bins by their
/// distance from it, nearest first, it takes the fewest whose volume reaches the
/// percentage of the total, and spans exactly their prices. There is one where
/// there is a point of control and a total volume.
pub proof fn law_value_area_is_nearest_volume(c: VolumeProfileCalculator, percentage: u64)
    ensures
        c.value_area(percentage) is Some <==> poc_of(c.bins@) is Some && c.cached_total_volume > 0,
        c.value_area(percentage) matches Some((high, low)) ==> {
            let (poc, v) = poc_of(c.bins@)->0;
            let r = sorting::stable_sort(ranked(c.bins@, poc));
            &&& exists|k: int| #[trigger]
                is_area(r, k, poc, c.cached_total_volume * percentage / 100, high, low)
            &&& forall|i: int, j: int|
                0 <= i <= j < r.len() ==> math::abs_int((#[trigger] r[i]).bin.price - poc)
                    <= math::abs_int((#[trigger] r[j]).bin.price - poc)
            &&& r.len() == c.bins.len()
            &&& r.to_multiset() == ranked(c.bins@, poc).to_multiset()
            &&& forall|i: int|
                0 <= i < c.bins.len() ==> (#[trigger] ranked(c.bins@, poc)[i]).bin == c.bins@[i]
        },
{
    if let Some((poc, v)) = poc_of(c.bins@) {
        law_poc_is_largest(c.bins@);
        let list = ranked(c.bins@, poc);
        let r = sorting::stable_sort(list);
        sorting::lemma_stable_sort(list);
        let target = c.cached_total_volume * percentage / 100;
        lemma_reach_is_area(r, 0, poc, target);
        if c.cached_total_volume > 0 {
            assert(c.value_area(percentage) == Some(reach(r, 0, poc, target)));
        }
        assert forall|i: int| 0 <= i < r.len() implies (#[trigger] r[i]).distance == math::abs_int(
            r[i].bin.price - poc,
        ) by {
            broadcast use vstd::seq_lib::group_to_multiset_ensures;

            assert(r.contains(r[i]));
            assert(list.to_multiset().count(r[i]) > 0);
            assert(list.contains(r[i]));
        }
        assert forall|i: int, j: int| 0 <= i <= j < r.len() implies math::abs_int(
            (#[trigger] r[i]).bin.price - poc,
        ) <= math::abs_int((#[trigger] r[j]).bin.price - poc) by {
            assert(r[i].sort_key() <= r[j].sort_key());
        }
        if let Some((high, low)) = c.value_area(percentage) {
            assert(exists|k: int| #[trigger] is_area(r, k, poc, target, high, low));
            assert(r.len() == c.bins.len());
            assert(r.to_multiset() == list.to_multiset());
            assert forall|i: int| 0 <= i < c.bins.len() implies (#[trigger] list[i]).bin
                == c.bins@[i] by {}
        }
    }
}

/// The statistics report the point of control and the value area at seventy
/// hundredths of the volume, its high above and its low below: the low is at
/// most and the high at least the point of control. They report what was bought
/// and sold, and the average price as the sum of price times volume over the
/// volume.
pub proof fn law_reported_profile(c: VolumeProfileCalculator)
    requires
        bought(c.bins@) <= u64::MAX,
        sold(c.bins@) <= u64::MAX,
    ensures
        c.stats_of() is Some <==> c.bins.len() > 0,
        c.stats_of() matches Some(s) ==> {
            &&& s.val_price <= s.poc_price <= s.vah_price
            &&& poc_of(c.bins@) matches Some((p, v)) ==> s.poc_price == p && s.poc_volume == v
            &&& poc_of(c.bins@) is None ==> s.poc_price == 0 && s.poc_volume == 0
            &&& forall|i: int|
                0 <= i < c.bins.len() ==> (#[trigger] c.bins@[i]).volume <= s.poc_volume
            &&& c.value_area(70) matches Some((high, low)) ==> s.vah_price == high && s.val_price
                == low
            &&& c.value_area(70) is None ==> s.vah_price == s.poc_price && s.val_price
                == s.poc_price
            &&& s.total_volume == c.cached_total_volume
            &&& s.total_buy_volume == bought(c.bins@)
            &&& s.total_sell_volume == sold(c.bins@)
            &&& s.active_bins == c.bins.len()
            &&& c.cached_total_volume > 0 ==> s.vwap.den == c.cached_total_volume && s.vwap.num
                == c.cached_vwap_num
            &&& c.cached_total_volume == 0 ==> s.vwap.num == 0
        },
{
    law_poc_is_largest(c.bins@);
    lemma_volumes_nonnegative(c.bins@);
    if let Some((poc, v)) = poc_of(c.bins@) {
        if c.cached_total_volume > 0 {
            law_value_area_is_nearest_volume(c, 70);
            let (high, low) = c.value_area(70)->0;
            let r = sorting::stable_sort(ranked(c.bins@, poc));
            let target = c.cached_total_volume * 70 / 100;
            let k = choose|k: int| #[trigger] is_area(r, k, poc, target, high, low);
            assert(is_area(r, k, poc, target, high, low));
        }
    }
}

/// A trade counts once in its bin: its volume in the volume and on its side, and
/// itself in the number of trades, as far as these fit.
pub proof fn law_bin_counts_a_trade(b: VolumeBin, vol: u64, is_buy: bool)
    requires
        b.volume + vol <= u64::MAX,
        b.buy_volume + vol <= u64::MAX,
        b.sell_volume + vol <= u64::MAX,
        b.trade_count < u32::MAX,
    ensures
        ({
            let t = b.with(vol, is_buy);
            &&& t.price == b.price
            &&& t.volume - b.volume == vol
            &&& (t.buy_volume - b.buy_volume) + (t.sell_volume - b.sell_volume) == vol
            &&& is_buy ==> t.sell_volume == b.sell_volume
            &&& !is_buy ==> t.buy_volume == b.buy_volume
            &&& t.trade_count == b.trade_count + 1
        }),
{
}

/// The newest of several sessions stands first, and the sessions follow from
/// there back in time.
pub proof fn law_newest_sessions(profiles: Seq<VolumeProfileStats>, take: int)
    requires
        0 < take <= profiles.len(),
    ensures
        newest(profiles, take).len() == take,
        newest(profiles, take)[0] == profiles.last(),
        newest(profiles, take).reverse() == profiles.subrange(
            profiles.len() - take,
            profiles.len() as int,
        ),
{
    assert(newest(profiles, take).reverse() =~= profiles.subrange(
        profiles.len() - take,
        profiles.len() as int,
    ));
}

/// A composite weighs the newest session by the number of sessions, each older
/// one by one less, and the oldest by one; each point of control counts with
/// the weight of its session.
pub proof fn law_recent_sessions_weigh_more(recent: Seq<VolumeProfileStats>, i: int)
    requires
        0 <= i < recent.len(),
    ensures
        ({
            let w = weights(recent.len());
            &&& w.len() == recent.len()
            &&& w[0] == recent.len()
            &&& w.last() == 1
            &&& i > 0 ==> w[i - 1] == w[i] + 1
            &&& poc_terms(recent).len() == recent.len()
            &&& poc_terms(recent)[i] == recent[i].poc_price * w[i]
        }),
{
}

/// Sessions that agree on their point of control make a composite with that
/// point of control.
pub proof fn law_composite_of_equal_sessions(recent: Seq<VolumeProfileStats>, p: i64)
    requires
        recent.len() > 0,
        forall|i: int| 0 <= i < recent.len() ==> (#[trigger] recent[i]).poc_price == p,
    ensures
        math::trunc_div(
            math::sum_of(poc_terms(recent)),
            math::sum_of(weights(recent.len())),
        ) == p,
{
    let (t, w) = (poc_terms(recent), weights(recent.len()));
    assert forall|i: int| 0 <= i < t.len() implies #[trigger] t[i] == p * w[i] by {
        assert(recent[i].poc_price == p);
    }
    lemma_scaled_sum(t, w, p as int);
    math::lemma_element_at_most_sum(w, 0);
    let s = math::sum_of(w);
    assert(math::sum_of(t) == p * s);
    lemma_whole_quotient(p as int, s);
}

proof fn lemma_scaled_sum(t: Seq<int>, w: Seq<int>, p: int)
    requires
        t.len() == w.len(),
        forall|i: int| 0 <= i < t.len() ==> #[trigger] t[i] == p * w[i],
    ensures
        math::sum_of(t) == p * math::sum_of(w),
    decreases t.len(),
{
    if t.len() > 0 {
        lemma_scaled_sum(t.drop_last(), w.drop_last(), p);
        let (a, b) = (math::sum_of(w.drop_last()), w.last());
        assert(t.last() == p * b);
        assert(p * (a + b) == p * a + p * b) by (nonlinear_arith);
    } else {
        assert(p * 0 == 0) by (nonlinear_arith);
    }
}

proof fn lemma_whole_quotient(p: int, s: int)
    requires
        s > 0,
    ensures
        math::trunc_div(p * s, s) == p,
{
    math::law_quotient_toward_zero(p * s, s);
    let q = math::trunc_div(p * s, s);
    assert(q == p) by (nonlinear_arith)
        requires
            s > 0,
            -s < p * s - q * s < s,
    ;
}

/// A session is over exactly where it has begun and its full length has passed.
pub proof fn law_session_lasts_its_length(s: SessionVolumeProfile, now_ns: u64)
    ensures
        s.session_over(now_ns) <==> s.session_start_ns > 0 && s.session_start_ns
            + s.session_duration_ns <= now_ns,
{
}

/// The slot of a price counts whole bins from the lowest price that was seen.
pub proof fn law_grid_slot(c: VolumeProfileCalculator, price: i64)
    requires
        c.bin_size > 0,
    ensures
        c.grid_slot(price) matches Some(slot) ==> {
            &&& 0 <= slot < 8192
            &&& slot * c.bin_size <= math::max_int(price - (c.min_price as i64), 0) < (slot + 1)
                * c.bin_size
        },
{
    let d = price - (c.min_price as i64);
    let b = c.bin_size as int;
    math::law_quotient_toward_zero(d, b);
    let q = math::trunc_div(d, b);
    assert((q + 1) * b == q * b + b) by (nonlinear_arith);
    if q >= 0 && d < 0 {
        assert(q == 0) by (nonlinear_arith)
            requires
                q >= 0,
                d < 0,
                b > 0,
                -b < d - q * b <= 0,
        ;
        assert(0 * b == 0) by (nonlinear_arith);
    }
}

/// Sums over sessions add up session by session, so an average of equal figures
/// is that figure.
pub proof fn law_session_sums_add_up(
    recent: Seq<VolumeProfileStats>,
    p: VolumeProfileStats,
    field: spec_fn(VolumeProfileStats) -> int,
)
    ensures
        stat_sum(Seq::<VolumeProfileStats>::empty(), field) == 0,
        stat_sum(recent.push(p), field) == stat_sum(recent, field) + field(p),
{
    let all = recent.push(p);
    lemma_stat_step(all, recent.len() as int, field);
    assert(all.subrange(0, recent.len() as int) =~= recent);
    assert(all.subrange(0, all.len() as int) =~= all);
    assert(Seq::<VolumeProfileStats>::empty().map_values(field) =~= Seq::<int>::empty());
}

} // verus!
