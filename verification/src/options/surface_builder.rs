//! The expiries of a volatility surface: how quotes are grouped by them, and
//! between which of them a given expiry lies.
use crate::math;
use crate::math::Ratio;
use vstd::prelude::*;

verus! {

/// Implied volatility surface point; strike and volatilities in units of one
/// hundred-millionth
#[derive(Debug, Clone, Copy, PartialEq, Eq, Structural)]
pub struct VolPoint {
    pub strike: u64,
    pub expiry_days: u32,
    pub implied_vol: u64,
    pub bid_vol: u64,
    pub ask_vol: u64,
}

/// The points of one expiry.
#[derive(Debug)]
pub struct ExpiryBucket {
    pub expiry_days: u32,
    pub points: Vec<VolPoint>,
}

/// The points of an expiry, in their order.
pub open spec fn points_of(points: Seq<VolPoint>, expiry_days: u32) -> Seq<VolPoint>
    decreases points.len(),
{
    if points.len() == 0 {
        Seq::empty()
    } else {
        let rest = points_of(points.drop_last(), expiry_days);
        if points.last().expiry_days == expiry_days {
            rest.push(points.last())
        } else {
            rest
        }
    }
}

/// Strictly rising numbers.
pub open spec fn rising(s: Seq<u32>) -> bool {
    forall|i: int, j: int| 0 <= i < j < s.len() ==> #[trigger] s[i] < #[trigger] s[j]
}

/// The expiries of buckets.
pub open spec fn expiries_of(buckets: Seq<ExpiryBucket>) -> Seq<u32> {
    Seq::new(buckets.len(), |i: int| buckets[i].expiry_days)
}

/// Whether buckets hold points grouped by expiry: one bucket for each expiry
/// that occurs, in rising order, with its points.
pub open spec fn grouped(buckets: Seq<ExpiryBucket>, points: Seq<VolPoint>) -> bool {
    &&& rising(expiries_of(buckets))
    &&& forall|i: int|
        0 <= i < buckets.len() ==> (#[trigger] buckets[i]).points@ == points_of(
            points,
            buckets[i].expiry_days,
        ) && buckets[i].points@.len() > 0
    &&& forall|k: int|
        0 <= k < points.len() ==> expiries_of(buckets).contains(
            (#[trigger] points[k]).expiry_days,
        )
}

/// The points of an expiry all have it.
pub proof fn law_points_of_expiry(points: Seq<VolPoint>, expiry_days: u32)
    ensures
        forall|i: int|
            0 <= i < points_of(points, expiry_days).len() ==> (#[trigger] points_of(
                points,
                expiry_days,
            )[i]).expiry_days == expiry_days,
    decreases points.len(),
{
    if points.len() > 0 {
        law_points_of_expiry(points.drop_last(), expiry_days);
        let rest = points_of(points.drop_last(), expiry_days);
        let all = points_of(points, expiry_days);
        assert forall|i: int| 0 <= i < all.len() implies (#[trigger] all[i]).expiry_days
            == expiry_days by {
            if i < rest.len() {
                assert(all[i] == rest[i]);
            }
        }
    }
}

/// Where the first expiry that is not below a given one stands.
pub open spec fn lower_bound(expiries: Seq<u32>, days: u32, i: int) -> int
    decreases expiries.len() - i,
{
    if i >= expiries.len() {
        expiries.len() as int
    } else if expiries[i] >= days {
        i
    } else {
        lower_bound(expiries, days, i + 1)
    }
}

/// Between which expiries a given one lies.
#[derive(Debug, Clone, Copy, PartialEq, Eq, Structural)]
pub enum Bracket {
    /// The surface at one expiry holds
    At(usize),
    /// Between two neighbouring expiries; the weight is that of the later one
    Between { low: usize, weight: Ratio },
}

/// The bracket of an expiry: the first or last one outside of the surface, and
/// in it the two neighbours, weighted by distance.
pub open spec fn bracket_of(expiries: Seq<u32>, days: u32) -> Option<Bracket> {
    let idx = lower_bound(expiries, days, 0);
    if expiries.len() == 0 {
        None
    } else if idx == 0 {
        Some(Bracket::At(0))
    } else if idx >= expiries.len() {
        Some(Bracket::At((expiries.len() - 1) as usize))
    } else {
        Some(
            Bracket::Between {
                low: (idx - 1) as usize,
                weight: Ratio {
                    num: (days - expiries[idx - 1]) as u64,
                    den: (expiries[idx] - expiries[idx - 1]) as u64,
                },
            },
        )
    }
}

proof fn lemma_lower_bound(expiries: Seq<u32>, days: u32, i: int)
    requires
        0 <= i <= expiries.len(),
    ensures
        i <= lower_bound(expiries, days, i) <= expiries.len(),
        lower_bound(expiries, days, i) < expiries.len() ==> expiries[lower_bound(
            expiries,
            days,
            i,
        )] >= days,
        forall|j: int| i <= j < lower_bound(expiries, days, i) ==> #[trigger] expiries[j] < days,
    decreases expiries.len() - i,
{
    if i < expiries.len() && expiries[i] < days {
        lemma_lower_bound(expiries, days, i + 1);
    }
}

/// The weight of a bracket is a part of the whole, and the whole exactly at
/// the later expiry.
pub proof fn law_bracket_weight(expiries: Seq<u32>, days: u32)
    requires
        rising(expiries),
        expiries.len() <= usize::MAX,
    ensures
        bracket_of(expiries, days) matches Some(Bracket::Between { low, weight }) ==> {
            &&& low + 1 < expiries.len()
            &&& expiries[low as int] < days <= expiries[low + 1]
            &&& 0 < weight.num <= weight.den
            &&& weight.num == weight.den <==> days == expiries[low + 1]
        },
{
    lemma_lower_bound(expiries, days, 0);
    let idx = lower_bound(expiries, days, 0);
    if 0 < idx < expiries.len() {
        assert(expiries[idx - 1] < expiries[idx]);
    }
}

/// Expiries of a volatility surface
pub struct VolatilitySurfaceBuilder {
    /// Days to expiry, rising
    pub expiries: Vec<u32>,
}

impl VolatilitySurfaceBuilder {
    pub open spec fn wf(&self) -> bool {
        rising(self.expiries@)
    }

    pub fn new() -> (r: Self)
        ensures
            r.wf(),
            r.expiries.len() == 0,
    {
        VolatilitySurfaceBuilder { expiries: Vec::new() }
    }

    /// The points with an expiry, which a calibration is made from
    pub fn calibration_points(points: &Vec<VolPoint>, expiry_days: u32) -> (r: Vec<VolPoint>)
        ensures
            r@ == points_of(points@, expiry_days),
    {
        let mut out: Vec<VolPoint> = Vec::new();
        let mut i: usize = 0;
        assert(points@.subrange(0, 0) =~= Seq::<VolPoint>::empty());
        while i < points.len()
            invariant
                i <= points.len(),
                out@ == points_of(points@.subrange(0, i as int), expiry_days),
            decreases points.len() - i,
        {
            proof {
                let next = points@.subrange(0, i + 1);
                assert(next.drop_last() =~= points@.subrange(0, i as int));
                assert(next.last() == points@[i as int]);
            }
            if points[i].expiry_days == expiry_days {
                out.push(points[i]);
            }
            i = i + 1;
        }
        assert(points@.subrange(0, i as int) =~= points@);
        out
    }

    /// Takes the expiries of points, rising and each once.
    fn distinct_expiries(points: &Vec<VolPoint>) -> (r: Vec<u32>)
        ensures
            rising(r@),
            forall|k: int|
                0 <= k < points.len() ==> r@.contains((#[trigger] points@[k]).expiry_days),
            forall|e: int|
                0 <= e < r.len() ==> points_of(points@, #[trigger] r@[e]).len() > 0,
    {
        let mut out: Vec<u32> = Vec::new();
        let mut i: usize = 0;
        while i < points.len()
            invariant
                i <= points.len(),
                rising(out@),
                forall|k: int|
                    0 <= k < i ==> out@.contains((#[trigger] points@[k]).expiry_days),
                forall|e: int|
                    0 <= e < out.len() ==> points_of(
                        points@.subrange(0, i as int),
                        #[trigger] out@[e],
                    ).len() > 0,
            decreases points.len() - i,
        {
            let days: u32 = points[i].expiry_days;
            let at: usize = VolatilitySurfaceBuilder::find(&out, days);
            let ghost before = out@;
            proof {
                let next = points@.subrange(0, i + 1);
                assert(next.drop_last() =~= points@.subrange(0, i as int));
                assert(next.last() == points@[i as int]);
                lemma_lower_bound(before, days, 0);
            }
            if at == out.len() || out[at] != days {
                out.insert(at, days);
                proof {
                    assert(out@ =~= before.insert(at as int, days));
                    assert forall|a: int, b: int| 0 <= a < b < out.len() implies
                        #[trigger] out@[a] < #[trigger] out@[b] by {
                        let x = if a < at {
                            a
                        } else {
                            a - 1
                        };
                        let y = if b < at {
                            b
                        } else {
                            b - 1
                        };
                        if a == at {
                            assert(out@[b] == before[b - 1]);
                            assert(before[at as int] > days);
                            if b - 1 > at {
                                assert(before[at as int] < before[b - 1]);
                            }
                        } else if b == at {
                            assert(out@[a] == before[a]);
                        } else {
                            assert(out@[a] == before[x]);
                            assert(out@[b] == before[y]);
                        }
                    }
                    assert forall|k: int| 0 <= k < i + 1 implies out@.contains(
                        (#[trigger] points@[k]).expiry_days,
                    ) by {
                        let d = points@[k].expiry_days;
                        if k < i {
                            let p = before.index_of(d);
                            if p < at {
                                assert(out@[p] == d);
                            } else {
                                assert(out@[p + 1] == d);
                            }
                        } else {
                            assert(out@[at as int] == d);
                        }
                    }
                    assert forall|e: int| 0 <= e < out.len() implies points_of(
                        points@.subrange(0, i + 1),
                        #[trigger] out@[e],
                    ).len() > 0 by {
                        if e < at {
                            assert(out@[e] == before[e]);
                        } else if e > at {
                            assert(out@[e] == before[e - 1]);
                        }
                    }
                }
            } else {
                proof {
                    assert(out@[at as int] == days);
                    assert forall|e: int| 0 <= e < out.len() implies points_of(
                        points@.subrange(0, i + 1),
                        #[trigger] out@[e],
                    ).len() > 0 by {
                        assert(points_of(points@.subrange(0, i as int), before[e]).len() > 0);
                    }
                }
            }
            i = i + 1;
        }
        assert(points@.subrange(0, i as int) =~= points@);
        out
    }

    fn find(expiries: &Vec<u32>, days: u32) -> (r: usize)
        ensures
            r == lower_bound(expiries@, days, 0),
            r <= expiries.len(),
    {
        let mut i: usize = 0;
        while i < expiries.len()
            invariant
                i <= expiries.len(),
                lower_bound(expiries@, days, 0) == lower_bound(expiries@, days, i as int),
            decreases expiries.len() - i,
        {
            if expiries[i] >= days {
                return i;
            }
            i = i + 1;
        }
        i
    }

    /// Build the complete volatility surface: the points grouped by expiry,
    /// each group to be calibrated by itself
    pub fn build_surface(&mut self, all_points: Vec<VolPoint>) -> (buckets: Vec<ExpiryBucket>)
        ensures
            final(self).wf(),
            grouped(buckets@, all_points@),
            final(self).expiries@ == expiries_of(buckets@),
    {
        let expiries: Vec<u32> = VolatilitySurfaceBuilder::distinct_expiries(&all_points);
        let mut buckets: Vec<ExpiryBucket> = Vec::new();
        let mut i: usize = 0;
        while i < expiries.len()
            invariant
                i <= expiries.len(),
                buckets.len() == i,
                forall|e: int|
                    0 <= e < expiries.len() ==> points_of(
                        all_points@,
                        #[trigger] expiries@[e],
                    ).len() > 0,
                forall|b: int|
                    0 <= b < i ==> (#[trigger] buckets@[b]).expiry_days == expiries@[b]
                        && buckets@[b].points@ == points_of(all_points@, expiries@[b])
                        && buckets@[b].points@.len() > 0,
            decreases expiries.len() - i,
        {
            let days: u32 = expiries[i];
            let points: Vec<VolPoint> = VolatilitySurfaceBuilder::calibration_points(
                &all_points,
                days,
            );
            buckets.push(ExpiryBucket { expiry_days: days, points });
            i = i + 1;
        }
        assert(expiries_of(buckets@) =~= expiries@);
        self.expiries = expiries;
        buckets
    }

    /// Between which expiries of the surface an expiry lies
    pub fn bracket(&self, expiry_days: u32) -> (r: Option<Bracket>)
        requires
            self.wf(),
        ensures
            r == bracket_of(self.expiries@, expiry_days),
    {
        if self.expiries.len() == 0 {
            return None;
        }
        let idx: usize = VolatilitySurfaceBuilder::find(&self.expiries, expiry_days);
        if idx == 0 {
            return Some(Bracket::At(0));
        }
        if idx >= self.expiries.len() {
            return Some(Bracket::At(self.expiries.len() - 1));
        }
        proof {
            lemma_lower_bound(self.expiries@, expiry_days, 0);
            assert(self.expiries@[idx - 1] < self.expiries@[idx as int]);
        }
        let exp1: u32 = self.expiries[idx - 1];
        let exp2: u32 = self.expiries[idx];
        Some(
            Bracket::Between {
                low: idx - 1,
                weight: Ratio { num: (expiry_days - exp1) as u64, den: (exp2 - exp1) as u64 },
            },
        )
    }

    /// Interpolate volatility for an arbitrary expiry from the volatilities
    /// that the surface gives at each of its expiries
    pub fn get_volatility(&self, expiry_days: u32, vols: &Vec<u64>) -> (r: Option<VolRatio>)
        requires
            self.wf(),
            vols.len() == self.expiries.len(),
        ensures
            r == interpolated(bracket_of(self.expiries@, expiry_days), vols@),
    {
        proof {
            lemma_bracket_places(self.expiries@, expiry_days);
        }
        match self.bracket(expiry_days) {
            None => None,
            Some(Bracket::At(i)) => Some(VolRatio { num: vols[i] as u128, den: 1 }),
            Some(Bracket::Between { low, weight }) => {
                let (v1, v2): (u64, u64) = (vols[low], vols[low + 1]);
                proof {
                    lemma_weighted(v1 as int, v2 as int, weight.num as int, weight.den as int);
                }
                Some(
                    VolRatio {
                        num: v1 as u128 * (weight.den - weight.num) as u128 + v2 as u128
                            * weight.num as u128,
                        den: weight.den,
                    },
                )
            },
        }
    }

    /// Validate no-arbitrage conditions on the surface from the total variance
    /// at the money of each expiry: it grows with the expiry, give or take a
    /// twentieth
    pub fn validate_no_arbitrage(&self, variances: &Vec<i64>) -> (r: bool)
        requires
            variances.len() == self.expiries.len(),
        ensures
            r == free_of_calendar_arbitrage(self.expiries@, variances@),
    {
        let mut i: usize = 1;
        while i < self.expiries.len()
            invariant
                1 <= i,
                variances.len() == self.expiries.len(),
                forall|k: int|
                    1 <= k < i && k < self.expiries.len() ==> !(#[trigger] calendar_violation(
                        self.expiries@,
                        variances@,
                        k,
                    )),
            decreases self.expiries.len() - i,
        {
            let w1: i128 = variances[i - 1] as i128;
            let w2: i128 = variances[i] as i128;
            let e1: i128 = self.expiries[i - 1] as i128;
            let e2: i128 = self.expiries[i] as i128;
            proof {
                lemma_scaled(w2 as int, e1 as int);
                lemma_scaled(w1 as int, e2 as int);
            }
            if w2 * e1 * 100 < w1 * e2 * 95 {
                assert(calendar_violation(self.expiries@, variances@, i as int));
                return false;
            }
            i = i + 1;
        }
        true
    }
}

/// A volatility, kept unreduced.
#[derive(Debug, Clone, Copy, PartialEq, Eq, Structural)]
pub struct VolRatio {
    pub num: u128,
    pub den: u64,
}

/// The volatility at a bracket: that of its expiry, or of both its expiries by
/// their weights.
pub open spec fn interpolated(bracket: Option<Bracket>, vols: Seq<u64>) -> Option<VolRatio> {
    match bracket {
        None => None,
        Some(Bracket::At(i)) => Some(VolRatio { num: vols[i as int] as u128, den: 1 }),
        Some(Bracket::Between { low, weight }) => Some(
            VolRatio {
                num: (vols[low as int] * (weight.den - weight.num) + vols[low + 1]
                    * weight.num) as u128,
                den: weight.den,
            },
        ),
    }
}

/// Whether the total variance of an expiry is more than a twentieth below what
/// that of the expiry before grows to in proportion to time.
pub open spec fn calendar_violation(expiries: Seq<u32>, variances: Seq<i64>, i: int) -> bool {
    variances[i] * expiries[i - 1] * 100 < variances[i - 1] * expiries[i] * 95
}

pub open spec fn free_of_calendar_arbitrage(expiries: Seq<u32>, variances: Seq<i64>) -> bool {
    forall|i: int|
        1 <= i < expiries.len() ==> !(#[trigger] calendar_violation(expiries, variances, i))
}

proof fn lemma_bracket_places(expiries: Seq<u32>, days: u32)
    requires
        rising(expiries),
        expiries.len() <= usize::MAX,
    ensures
        match bracket_of(expiries, days) {
            None => expiries.len() == 0,
            Some(Bracket::At(i)) => i < expiries.len(),
            Some(Bracket::Between { low, weight }) => low + 1 < expiries.len() && weight.num
                <= weight.den <= u32::MAX && weight.den > 0,
        },
{
    law_bracket_weight(expiries, days);
    lemma_lower_bound(expiries, days, 0);
}

proof fn lemma_weighted(v1: int, v2: int, num: int, den: int)
    requires
        0 <= v1 <= u64::MAX,
        0 <= v2 <= u64::MAX,
        0 <= num <= den <= u32::MAX,
    ensures
        0 <= v1 * (den - num) <= u64::MAX * u32::MAX,
        0 <= v2 * num <= u64::MAX * u32::MAX,
{
    assert(0 <= v1 * (den - num) <= u64::MAX * u32::MAX) by (nonlinear_arith)
        requires
            0 <= v1 <= u64::MAX,
            0 <= num <= den <= u32::MAX,
    ;
    assert(0 <= v2 * num <= u64::MAX * u32::MAX) by (nonlinear_arith)
        requires
            0 <= v2 <= u64::MAX,
            0 <= num <= u32::MAX,
    ;
}

proof fn lemma_scaled(w: int, e: int)
    requires
        i64::MIN <= w <= i64::MAX,
        0 <= e <= u32::MAX,
    ensures
        -0x8000_0000_0000_0000 * 0x1_0000_0000 <= w * e <= 0x8000_0000_0000_0000 * 0x1_0000_0000,
{
    assert(-0x8000_0000_0000_0000 * 0x1_0000_0000 <= w * e <= 0x8000_0000_0000_0000
        * 0x1_0000_0000) by (nonlinear_arith)
        requires
            -0x8000_0000_0000_0000 <= w <= 0x7FFF_FFFF_FFFF_FFFF,
            0 <= e <= 0xFFFF_FFFF,
    ;
}

/// An interpolated volatility lies between those that it is made of.
pub proof fn law_interpolation_between(expiries: Seq<u32>, days: u32, vols: Seq<u64>)
    requires
        rising(expiries),
        vols.len() == expiries.len(),
        expiries.len() <= usize::MAX,
    ensures
        bracket_of(expiries, days) matches Some(Bracket::Between { low, weight }) ==> {
            let v = interpolated(bracket_of(expiries, days), vols)->0;
            let (lo, hi) = (
                math::min_int(vols[low as int] as int, vols[low + 1] as int),
                math::max_int(vols[low as int] as int, vols[low + 1] as int),
            );
            lo * v.den <= v.num <= hi * v.den
        },
{
    if let Some(Bracket::Between { low, weight }) = bracket_of(expiries, days) {
        lemma_bracket_places(expiries, days);
        let (a, b) = (vols[low as int] as int, vols[low + 1] as int);
        let (n, d) = (weight.num as int, weight.den as int);
        lemma_weighted(a, b, n, d);
        let (lo, hi) = (math::min_int(a, b), math::max_int(a, b));
        assert(lo * d <= a * (d - n) + b * n <= hi * d) by (nonlinear_arith)
            requires
                lo <= a <= hi,
                lo <= b <= hi,
                0 <= n <= d,
        ;
    }
}

/// The points of an expiry are all those that have it, in their order.
pub proof fn law_points_of_expiry_are_all(
    s: Seq<VolPoint>,
    t: Seq<VolPoint>,
    p: VolPoint,
    expiry_days: u32,
)
    ensures
        points_of(s + t, expiry_days) == points_of(s, expiry_days) + points_of(t, expiry_days),
        p.expiry_days == expiry_days ==> points_of(seq![p], expiry_days) == seq![p],
        p.expiry_days != expiry_days ==> points_of(seq![p], expiry_days).len() == 0,
    decreases t.len(),
{
    assert(seq![p].drop_last() =~= Seq::<VolPoint>::empty());
    reveal_with_fuel(points_of, 2);
    if p.expiry_days == expiry_days {
        assert(points_of(seq![p], expiry_days) =~= seq![p]);
    }
    if t.len() == 0 {
        assert(s + t =~= s);
        assert(points_of(s, expiry_days) + points_of(t, expiry_days) =~= points_of(s, expiry_days));
    } else {
        law_points_of_expiry_are_all(s, t.drop_last(), p, expiry_days);
        assert((s + t).drop_last() =~= s + t.drop_last());
        assert(points_of(s + t, expiry_days) =~= points_of(s, expiry_days) + points_of(
            t,
            expiry_days,
        ));
    }
}

/// Whether one of the buckets has an expiry.
pub open spec fn has_bucket(buckets: Seq<ExpiryBucket>, expiry_days: u32) -> bool {
    exists|i: int| 0 <= i < buckets.len() && (#[trigger] buckets[i]).expiry_days == expiry_days
}

/// Groups stand for the expiries of the points: one for each, by rising expiry,
/// with the points of that expiry.
pub proof fn law_groups_by_expiry(buckets: Seq<ExpiryBucket>, points: Seq<VolPoint>)
    requires
        grouped(buckets, points),
    ensures
        forall|i: int, j: int|
            0 <= i < j < buckets.len() ==> (#[trigger] buckets[i]).expiry_days < (
            #[trigger] buckets[j]).expiry_days,
        forall|i: int|
            0 <= i < buckets.len() ==> (#[trigger] buckets[i]).points@ == points_of(
                points,
                buckets[i].expiry_days,
            ),
        forall|k: int|
            0 <= k < points.len() ==> has_bucket(buckets, (#[trigger] points[k]).expiry_days),
{
    assert forall|i: int, j: int| 0 <= i < j < buckets.len() implies (
    #[trigger] buckets[i]).expiry_days < (#[trigger] buckets[j]).expiry_days by {
        assert(expiries_of(buckets)[i] < expiries_of(buckets)[j]);
    }
    assert forall|k: int| 0 <= k < points.len() implies has_bucket(
        buckets,
        (#[trigger] points[k]).expiry_days,
    ) by {
        let e = expiries_of(buckets);
        assert(e.contains(points[k].expiry_days));
        let i = choose|i: int| 0 <= i < e.len() && e[i] == points[k].expiry_days;
        assert(buckets[i].expiry_days == points[k].expiry_days);
    }
}

/// A time up to the first expiry takes the surface of the first, one beyond the
/// last takes that of the last, and one between lies between two neighbours;
/// the weight of the later one is how much of the way to it has passed.
pub proof fn law_bracket_holds_the_time(expiries: Seq<u32>, days: u32)
    requires
        rising(expiries),
        0 < expiries.len() <= usize::MAX,
    ensures
        days <= expiries[0] ==> bracket_of(expiries, days) == Some(Bracket::At(0)),
        days > expiries.last() ==> bracket_of(expiries, days) == Some(
            Bracket::At((expiries.len() - 1) as usize),
        ),
        expiries[0] < days <= expiries.last() ==> (bracket_of(expiries, days) matches Some(
            Bracket::Between { low, weight },
        ) && {
            &&& low + 1 < expiries.len()
            &&& expiries[low as int] < days <= expiries[low + 1]
            &&& weight.num == days - expiries[low as int]
            &&& weight.den == expiries[low + 1] - expiries[low as int]
        }),
{
    lemma_lower_bound(expiries, days, 0);
    let k = lower_bound(expiries, days, 0);
    if k > 0 {
        assert(expiries[0] < days);
    }
    if k == expiries.len() {
        assert(expiries[k - 1] < days);
    } else {
        assert(expiries[k] <= expiries.last()) by {
            if k < expiries.len() - 1 {
                assert(expiries[k] < expiries[expiries.len() - 1]);
            }
        }
        if k > 0 {
            assert(expiries[k - 1] < days);
        }
    }
}

/// Between two expiries the volatility runs straight from the one to the other:
/// its rise from the earlier is to the whole rise as the time passed is to the
/// whole time.
pub proof fn law_interpolation_is_linear(expiries: Seq<u32>, days: u32, vols: Seq<u64>, i: int)
    requires
        rising(expiries),
        vols.len() == expiries.len(),
        0 < expiries.len() <= usize::MAX,
        0 <= i < expiries.len() - 1,
        expiries[i] < days <= expiries[i + 1],
    ensures
        interpolated(bracket_of(expiries, days), vols) matches Some(v) && {
            &&& v.den == expiries[i + 1] - expiries[i]
            &&& v.num - vols[i] * v.den == (vols[i + 1] - vols[i]) * (days - expiries[i])
        },
{
    assert(expiries[0] <= expiries[i]) by {
        if i > 0 {
            assert(expiries[0] < expiries[i]);
        }
    }
    assert(expiries[i + 1] <= expiries.last()) by {
        if i + 1 < expiries.len() - 1 {
            assert(expiries[i + 1] < expiries[expiries.len() - 1]);
        }
    }
    law_bracket_holds_the_time(expiries, days);
    if let Some(Bracket::Between { low, weight }) = bracket_of(expiries, days) {
        let k = low as int;
        if k < i {
            if k + 1 < i {
                assert(expiries[k + 1] < expiries[i]);
            }
            assert(false);
        }
        if k > i {
            if i + 1 < k {
                assert(expiries[i + 1] < expiries[k]);
            }
            assert(false);
        }
        let (a, b, n, d) = (vols[i] as int, vols[i + 1] as int, weight.num as int, weight.den as int);
        assert(a * (d - n) + b * n - a * d == (b - a) * n) by (nonlinear_arith);
        assert(0 <= a * (d - n) + b * n <= 0xFFFF_FFFF_FFFF_FFFF * 0x1_0000_0000) by (nonlinear_arith)
            requires
                0 <= a <= 0xFFFF_FFFF_FFFF_FFFF,
                0 <= b <= 0xFFFF_FFFF_FFFF_FFFF,
                0 <= n <= d <= 0xFFFF_FFFF,
        ;
    }
}

/// Outside the expiries the volatility of the nearest one holds.
pub proof fn law_flat_outside_expiries(expiries: Seq<u32>, days: u32, vols: Seq<u64>)
    requires
        rising(expiries),
        vols.len() == expiries.len(),
        0 < expiries.len() <= usize::MAX,
    ensures
        days <= expiries[0] ==> (interpolated(bracket_of(expiries, days), vols) matches Some(v)
            && v.num == vols[0] && v.den == 1),
        days > expiries.last() ==> (interpolated(bracket_of(expiries, days), vols) matches Some(v)
            && v.num == vols.last() && v.den == 1),
        interpolated(bracket_of(Seq::<u32>::empty(), days), vols) is None,
{
    law_bracket_holds_the_time(expiries, days);
}

/// Two neighbours violate the calendar where the variance per day of the later
/// is more than a twentieth below that of the earlier; a surface is free of
/// arbitrage where no two do.
pub proof fn law_calendar_violation(expiries: Seq<u32>, variances: Seq<i64>, i: int)
    requires
        1 <= i < expiries.len(),
    ensures
        calendar_violation(expiries, variances, i) <==> 20 * (variances[i] * expiries[i - 1]) < 19
            * (variances[i - 1] * expiries[i]),
        free_of_calendar_arbitrage(expiries, variances) ==> 20 * (variances[i] * expiries[i - 1])
            >= 19 * (variances[i - 1] * expiries[i]),
{
    let _ = calendar_violation(expiries, variances, i);
}

/// A surface whose variance per day never falls is free of arbitrage.
pub proof fn law_rising_variance_is_free(expiries: Seq<u32>, variances: Seq<i64>)
    requires
        forall|i: int|
            1 <= i < expiries.len() ==> variances[i] * expiries[i - 1] >= #[trigger] variances[i - 1]
                * expiries[i] >= 0,
    ensures
        free_of_calendar_arbitrage(expiries, variances),
{
    assert forall|i: int| 1 <= i < expiries.len() implies !(#[trigger] calendar_violation(
        expiries,
        variances,
        i,
    )) by {
        assert(variances[i] * expiries[i - 1] >= variances[i - 1] * expiries[i] >= 0);
    }
}

} // verus!
