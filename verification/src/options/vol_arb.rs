//! Detection of calendar, butterfly and risk reversal arbitrage.
use crate::math::{Ratio, SignedRatio};
use vstd::prelude::*;

verus! {

/// Strikes around the spot price that calendar spreads are looked for at
pub const CALENDAR_STRIKES: usize = 5;

/// Strikes around the spot price that butterflies are made of
pub const BUTTERFLY_STRIKES: usize = 5;

/// Largest spot price for which strikes can be written
pub const MAX_SPOT: u64 = 0x10_0000_0000_0000;

/// Largest volatility for which variances can be compared
pub const MAX_VOL: u64 = 0x8000_0000;

/// Difference of volatilities that is still reasonable (fifteen hundredths)
pub const REASONABLE_SKEW: u64 = 15_000_000;

/// Arbitrage signal types
#[derive(Debug, Clone, Copy, PartialEq, Eq, Structural)]
pub enum ArbType {
    CalendarSpread,
    ButterflySpread,
    RiskReversal,
    BoxSpread,
}

/// An arbitrage opportunity.
#[derive(Debug, Clone, Copy, PartialEq, Eq, Structural)]
pub struct ArbFinding {
    pub arb_type: ArbType,
    pub leg1_strike: Ratio,
    pub leg2_strike: Ratio,
    /// For butterfly spreads
    pub leg3_strike: Option<Ratio>,
    pub expiry1_days: u32,
    pub expiry2_days: u32,
    pub expected_profit_bps: SignedRatio,
}

/// Execution signal for arbitrage opportunity
#[derive(Debug)]
pub struct ArbSignal {
    pub symbol: String,
    pub finding: ArbFinding,
    pub timestamp_ns: u64,
    pub confidence: Ratio,
}

/// What an opportunity has to bring, and what it costs, in basis points.
#[derive(Debug, Clone, Copy, PartialEq, Eq, Structural)]
pub struct Thresholds {
    pub min_profit_threshold_bps: u64,
    pub transaction_cost_bps: u64,
}

/// The strike at a number of thousandths of the spot price.
pub open spec fn strike_at(spot: u64, permille: u64) -> Ratio {
    Ratio { num: (spot * permille) as u64, den: 1000 }
}

fn make_strike(spot: u64, permille: u64) -> (r: Ratio)
    requires
        spot <= MAX_SPOT,
        permille <= 1100,
    ensures
        r == strike_at(spot, permille),
{
    assert(spot * permille <= 0x10_0000_0000_0000 * 1100) by (nonlinear_arith)
        requires
            spot <= 0x10_0000_0000_0000,
            permille <= 1100,
    ;
    Ratio { num: spot * permille, den: 1000 }
}

/// Thousandths of the spot price at which calendar spreads are looked for.
pub open spec fn calendar_permille(j: int) -> u64 {
    if j == 0 {
        950
    } else if j == 1 {
        975
    } else if j == 2 {
        1000
    } else if j == 3 {
        1025
    } else {
        1050
    }
}

fn calendar_step(j: usize) -> (r: u64)
    ensures
        r == calendar_permille(j as int),
        r <= 1100,
{
    if j == 0 {
        950
    } else if j == 1 {
        975
    } else if j == 2 {
        1000
    } else if j == 3 {
        1025
    } else {
        1050
    }
}

/// The profit of a calendar spread in basis points: by how much the variance of
/// the longer expiry falls short, relative to the shorter.
pub open spec fn calendar_profit(short: u64, long: u64) -> SignedRatio {
    SignedRatio {
        num: (10000 * (short * short - long * long)) as i128,
        den: (short * short) as u64,
    }
}

/// Whether a profit exceeds what is asked for.
pub open spec fn worthwhile(profit: SignedRatio, t: Thresholds) -> bool {
    profit.num > (t.min_profit_threshold_bps + t.transaction_cost_bps) * profit.den
}

/// A profit less the transaction cost.
pub open spec fn net(profit: SignedRatio, t: Thresholds) -> SignedRatio {
    SignedRatio {
        num: (profit.num - t.transaction_cost_bps * profit.den) as i128,
        den: profit.den,
    }
}

/// The calendar spread between two expiries at a strike, where the total
/// variance of the longer one is more than two percent below the shorter's.
pub open spec fn calendar_finding(
    spot: u64,
    e1: u32,
    e2: u32,
    permille: u64,
    short: Option<u64>,
    long: Option<u64>,
    t: Thresholds,
) -> Option<ArbFinding> {
    match (short, long) {
        (Some(s), Some(l)) => {
            let profit = calendar_profit(s, l);
            if e2 > 0 && 100 * (l * l * e2) < 98 * (s * s * e1) && worthwhile(profit, t) {
                Some(
                    ArbFinding {
                        arb_type: ArbType::CalendarSpread,
                        leg1_strike: strike_at(spot, permille),
                        leg2_strike: strike_at(spot, permille),
                        leg3_strike: None,
                        expiry1_days: e1,
                        expiry2_days: e2,
                        expected_profit_bps: net(profit, t),
                    },
                )
            } else {
                None
            }
        },
        _ => None,
    }
}

/// Findings with one more, if there is one.
pub open spec fn with_finding(s: Seq<ArbFinding>, f: Option<ArbFinding>) -> Seq<ArbFinding> {
    match f {
        Some(x) => s.push(x),
        None => s,
    }
}

/// The calendar spreads between two expiries at the first `n` strikes.
pub open spec fn calendar_row(
    spot: u64,
    e1: u32,
    e2: u32,
    short: Seq<Option<u64>>,
    long: Seq<Option<u64>>,
    t: Thresholds,
    n: int,
) -> Seq<ArbFinding>
    decreases n,
{
    if n <= 0 {
        Seq::empty()
    } else {
        with_finding(
            calendar_row(spot, e1, e2, short, long, t, n - 1),
            calendar_finding(
                spot,
                e1,
                e2,
                calendar_permille(n - 1),
                short[n - 1],
                long[n - 1],
                t,
            ),
        )
    }
}

/// The calendar spreads between the first `n` pairs of neighbouring expiries.
pub open spec fn calendar_findings(
    spot: u64,
    expiries: Seq<u32>,
    vols: Seq<Vec<Option<u64>>>,
    t: Thresholds,
    n: int,
) -> Seq<ArbFinding>
    decreases n,
{
    if n <= 0 {
        Seq::empty()
    } else {
        calendar_findings(spot, expiries, vols, t, n - 1) + calendar_row(
            spot,
            expiries[n - 1],
            expiries[n],
            vols[n - 1]@,
            vols[n]@,
            t,
            CALENDAR_STRIKES as int,
        )
    }
}

/// Thousandths of the spot price of the strikes of butterflies.
pub open spec fn butterfly_permille(j: int) -> u64 {
    (960 + 20 * j) as u64
}

/// The butterfly over three neighbouring strikes, where call prices are not
/// convex by more than a thousandth of the spot price. The strikes are equally
/// far apart.
pub open spec fn butterfly_finding(
    spot: u64,
    expiry_days: u32,
    prices: Seq<Option<i64>>,
    i: int,
    t: Thresholds,
) -> Option<ArbFinding> {
    match (prices[i], prices[i + 1], prices[i + 2]) {
        (Some(p1), Some(p2), Some(p3)) => {
            let cost = p1 - 2 * p2 + p3;
            let profit = SignedRatio { num: (-(10000 * cost)) as i128, den: spot };
            if 1000 * cost < -spot && worthwhile(profit, t) {
                Some(
                    ArbFinding {
                        arb_type: ArbType::ButterflySpread,
                        leg1_strike: strike_at(spot, butterfly_permille(i)),
                        leg2_strike: strike_at(spot, butterfly_permille(i + 1)),
                        leg3_strike: Some(strike_at(spot, butterfly_permille(i + 2))),
                        expiry1_days: expiry_days,
                        expiry2_days: expiry_days,
                        expected_profit_bps: net(profit, t),
                    },
                )
            } else {
                None
            }
        },
        _ => None,
    }
}

/// The first `n` butterflies.
pub open spec fn butterfly_findings(
    spot: u64,
    expiry_days: u32,
    prices: Seq<Option<i64>>,
    t: Thresholds,
    n: int,
) -> Seq<ArbFinding>
    decreases n,
{
    if n <= 0 {
        Seq::empty()
    } else {
        with_finding(
            butterfly_findings(spot, expiry_days, prices, t, n - 1),
            butterfly_finding(spot, expiry_days, prices, n - 1, t),
        )
    }
}

/// The risk reversal between a call and a put out of the money, where their
/// volatilities differ by more than is reasonable. A hundredth of volatility
/// counts as one basis point.
pub open spec fn reversal_finding(
    spot: u64,
    expiry_days: u32,
    call: Option<u64>,
    put: Option<u64>,
    t: Thresholds,
) -> Option<ArbFinding> {
    match (call, put) {
        (Some(c), Some(p)) => {
            let skew = if c >= p {
                c - p
            } else {
                p - c
            };
            let profit = SignedRatio {
                num: (100 * (skew - REASONABLE_SKEW)) as i128,
                den: 100_000_000,
            };
            if skew > REASONABLE_SKEW && worthwhile(profit, t) {
                Some(
                    ArbFinding {
                        arb_type: ArbType::RiskReversal,
                        leg1_strike: strike_at(spot, 1050),
                        leg2_strike: strike_at(spot, 950),
                        leg3_strike: None,
                        expiry1_days: expiry_days,
                        expiry2_days: expiry_days,
                        expected_profit_bps: net(profit, t),
                    },
                )
            } else {
                None
            }
        },
        _ => None,
    }
}

/// Signals that stand for findings, one for one. What is signalled exceeds the
/// least profit, so the confidence is full.
pub open spec fn signals_for(
    signals: Seq<ArbSignal>,
    findings: Seq<ArbFinding>,
    symbol: Seq<char>,
    now_ns: u64,
) -> bool {
    &&& signals.len() == findings.len()
    &&& forall|i: int|
        0 <= i < signals.len() ==> {
            &&& (#[trigger] signals[i]).finding == findings[i]
            &&& signals[i].symbol@ == symbol
            &&& signals[i].timestamp_ns == now_ns
            &&& signals[i].confidence == (Ratio { num: 1, den: 1 })
        }
}

fn push_signal(signals: &mut Vec<ArbSignal>, finding: ArbFinding, symbol: &String, now_ns: u64)
    ensures
        final(signals).len() == old(signals).len() + 1,
        final(signals)@.drop_last() == old(signals)@,
        final(signals)@.last().finding == finding,
        final(signals)@.last().symbol@ == symbol@,
        final(signals)@.last().timestamp_ns == now_ns,
        final(signals)@.last().confidence == (Ratio { num: 1, den: 1 }),
{
    let ghost before = signals@;
    signals.push(
        ArbSignal {
            symbol: symbol.clone(),
            finding,
            timestamp_ns: now_ns,
            confidence: Ratio { num: 1, den: 1 },
        },
    );
    assert(signals@.drop_last() =~= before);
}

/// Arbitrage detector
pub struct VolArbDetector {
    pub signal_pending: bool,
    pub last_signal_ts: u64,
    pub thresholds: Thresholds,
}

impl VolArbDetector {
    pub open spec fn wf(&self) -> bool {
        self.thresholds.min_profit_threshold_bps <= 1_000_000
            && self.thresholds.transaction_cost_bps <= 1_000_000
    }

    pub fn new() -> (r: Self)
        ensures
            r.wf(),
            r == (VolArbDetector {
                signal_pending: false,
                last_signal_ts: 0,
                thresholds: Thresholds { min_profit_threshold_bps: 5, transaction_cost_bps: 2 },
            }),
    {
        VolArbDetector {
            signal_pending: false,
            last_signal_ts: 0,
            thresholds: Thresholds { min_profit_threshold_bps: 5, transaction_cost_bps: 2 },
        }
    }

    /// The detector after signals were found, or not.
    pub open spec fn notified(&self, after: &VolArbDetector, found: nat, now_ns: u64) -> bool {
        *after == (if found > 0 {
            VolArbDetector { signal_pending: true, last_signal_ts: now_ns, ..*self }
        } else {
            *self
        })
    }

    fn find_calendar(
        &self,
        spot: u64,
        e1: u32,
        e2: u32,
        permille: u64,
        short: Option<u64>,
        long: Option<u64>,
    ) -> (r: Option<ArbFinding>)
        requires
            self.wf(),
            spot <= MAX_SPOT,
            permille <= 1100,
            short matches Some(s) ==> s <= MAX_VOL,
            long matches Some(l) ==> l <= MAX_VOL,
        ensures
            r == calendar_finding(spot, e1, e2, permille, short, long, self.thresholds),
    {
        let s: u64 = match short {
            Some(v) => v,
            None => {
                return None;
            },
        };
        let l: u64 = match long {
            Some(v) => v,
            None => {
                return None;
            },
        };
        proof {
            lemma_squares(s as int, l as int, e1 as int, e2 as int);
        }
        let ss: u64 = s * s;
        let ll: u64 = l * l;
        let var_short: u128 = ss as u128 * e1 as u128;
        let var_long: u128 = ll as u128 * e2 as u128;
        if e2 > 0 && 100 * var_long < 98 * var_short {
            let num: i128 = 10000 * (ss as i128 - ll as i128);
            let asked: u64 = self.thresholds.min_profit_threshold_bps
                + self.thresholds.transaction_cost_bps;
            let cost: u64 = self.thresholds.transaction_cost_bps;
            proof {
                lemma_scaled(asked as int, ss as int);
                lemma_scaled(cost as int, ss as int);
            }
            if num > asked as i128 * ss as i128 {
                let strike: Ratio = make_strike(spot, permille);
                return Some(
                    ArbFinding {
                        arb_type: ArbType::CalendarSpread,
                        leg1_strike: strike,
                        leg2_strike: strike,
                        leg3_strike: None,
                        expiry1_days: e1,
                        expiry2_days: e2,
                        expected_profit_bps: SignedRatio {
                            num: num - cost as i128 * ss as i128,
                            den: ss,
                        },
                    },
                );
            }
        }
        None
    }

    /// Scan for calendar spread arbitrage opportunities
    /// Calendar arbitrage: longer-dated options should have higher total variance
    ///
    /// The volatilities of each expiry are those at the strikes looked at.
    pub fn scan_calendar_arb(
        &mut self,
        symbol: &String,
        spot: u64,
        expiries: &Vec<u32>,
        vols: &Vec<Vec<Option<u64>>>,
        now_ns: u64,
    ) -> (signals: Vec<ArbSignal>)
        requires
            old(self).wf(),
            spot <= MAX_SPOT,
            vols.len() == expiries.len(),
            forall|i: int, j: int|
                0 <= i < vols.len() && 0 <= j < vols@[i]@.len() ==> (#[trigger] vols@[i]@[j] matches Some(
                    v,
                ) ==> v <= MAX_VOL),
            forall|i: int|
                0 <= i < vols.len() ==> (#[trigger] vols@[i])@.len() == CALENDAR_STRIKES,
        ensures
            signals_for(
                signals@,
                calendar_findings(
                    spot,
                    expiries@,
                    vols@,
                    old(self).thresholds,
                    expiries.len() - 1,
                ),
                symbol@,
                now_ns,
            ),
            old(self).notified(final(self), signals@.len(), now_ns),
    {
        let mut signals: Vec<ArbSignal> = Vec::new();
        if expiries.len() < 2 {
            return signals;
        }
        let mut i: usize = 0;
        let ghost t = self.thresholds;
        while i < expiries.len() - 1
            invariant
                self.wf(),
                *self == *old(self),
                t == self.thresholds,
                spot <= MAX_SPOT,
                expiries.len() >= 2,
                i <= expiries.len() - 1,
                vols.len() == expiries.len(),
                forall|a: int, b: int|
                    0 <= a < vols.len() && 0 <= b < vols@[a]@.len() ==> (
                    #[trigger] vols@[a]@[b] matches Some(v) ==> v <= MAX_VOL),
                forall|a: int|
                    0 <= a < vols.len() ==> (#[trigger] vols@[a])@.len() == CALENDAR_STRIKES,
                signals_for(
                    signals@,
                    calendar_findings(spot, expiries@, vols@, t, i as int),
                    symbol@,
                    now_ns,
                ),
            decreases expiries.len() - 1 - i,
        {
            let e1: u32 = expiries[i];
            let e2: u32 = expiries[i + 1];
            let ghost done = calendar_findings(spot, expiries@, vols@, t, i as int);
            let mut j: usize = 0;
            assert(done + Seq::<ArbFinding>::empty() =~= done);
            while j < CALENDAR_STRIKES
                invariant
                    self.wf(),
                    *self == *old(self),
                    t == self.thresholds,
                    spot <= MAX_SPOT,
                    i < expiries.len() - 1,
                    j <= CALENDAR_STRIKES,
                    vols.len() == expiries.len(),
                    e1 == expiries@[i as int],
                    e2 == expiries@[i + 1],
                    forall|a: int, b: int|
                        0 <= a < vols.len() && 0 <= b < vols@[a]@.len() ==> (
                        #[trigger] vols@[a]@[b] matches Some(v) ==> v <= MAX_VOL),
                    forall|a: int|
                        0 <= a < vols.len() ==> (#[trigger] vols@[a])@.len() == CALENDAR_STRIKES,
                    signals_for(
                        signals@,
                        done + calendar_row(
                            spot,
                            e1,
                            e2,
                            vols@[i as int]@,
                            vols@[i + 1]@,
                            t,
                            j as int,
                        ),
                        symbol@,
                        now_ns,
                    ),
                decreases CALENDAR_STRIKES - j,
            {
                let permille: u64 = calendar_step(j);
                let short: Option<u64> = vols[i][j];
                let long: Option<u64> = vols[i + 1][j];
                assert(vols@[i as int]@[j as int] == short);
                assert(vols@[i + 1]@[j as int] == long);
                let ghost row = calendar_row(
                    spot,
                    e1,
                    e2,
                    vols@[i as int]@,
                    vols@[i + 1]@,
                    t,
                    j as int,
                );
                let ghost before = signals@;
                match self.find_calendar(spot, e1, e2, permille, short, long) {
                    Some(f) => {
                        push_signal(&mut signals, f, symbol, now_ns);
                        proof {
                            assert(done + row.push(f) =~= (done + row).push(f));
                            lemma_signals_push(before, signals@, done + row, f, symbol@, now_ns);
                        }
                    },
                    None => {},
                }
                j = j + 1;
            }
            i = i + 1;
        }
        if signals.len() > 0 {
            self.signal_pending = true;
            self.last_signal_ts = now_ns;
        }
        signals
    }

    fn find_butterfly(&self, spot: u64, expiry_days: u32, prices: &Vec<Option<i64>>, i: usize) -> (r:
        Option<ArbFinding>)
        requires
            self.wf(),
            0 < spot <= MAX_SPOT,
            prices.len() == BUTTERFLY_STRIKES,
            i + 2 < BUTTERFLY_STRIKES,
        ensures
            r == butterfly_finding(spot, expiry_days, prices@, i as int, self.thresholds),
    {
        let p1: i64 = match prices[i] {
            Some(p) => p,
            None => {
                return None;
            },
        };
        let p2: i64 = match prices[i + 1] {
            Some(p) => p,
            None => {
                return None;
            },
        };
        let p3: i64 = match prices[i + 2] {
            Some(p) => p,
            None => {
                return None;
            },
        };
        let cost: i128 = p1 as i128 - 2 * (p2 as i128) + p3 as i128;
        let asked: u64 = self.thresholds.min_profit_threshold_bps
            + self.thresholds.transaction_cost_bps;
        let fee: u64 = self.thresholds.transaction_cost_bps;
        proof {
            lemma_scaled(asked as int, spot as int);
            lemma_scaled(fee as int, spot as int);
        }
        let num: i128 = -(10000 * cost);
        if 1000 * cost < -(spot as i128) && num > asked as i128 * spot as i128 {
            let k: u64 = 960 + 20 * (i as u64);
            return Some(
                ArbFinding {
                    arb_type: ArbType::ButterflySpread,
                    leg1_strike: make_strike(spot, k),
                    leg2_strike: make_strike(spot, k + 20),
                    leg3_strike: Some(make_strike(spot, k + 40)),
                    expiry1_days: expiry_days,
                    expiry2_days: expiry_days,
                    expected_profit_bps: SignedRatio {
                        num: num - fee as i128 * spot as i128,
                        den: spot,
                    },
                },
            );
        }
        None
    }

    /// Scan for butterfly spread arbitrage opportunities
    /// Butterfly arbitrage: call prices must be convex in strike
    ///
    /// The prices are those of calls at the strikes looked at.
    pub fn scan_butterfly_arb(
        &mut self,
        symbol: &String,
        spot: u64,
        expiry_days: u32,
        prices: &Vec<Option<i64>>,
        now_ns: u64,
    ) -> (signals: Vec<ArbSignal>)
        requires
            old(self).wf(),
            0 < spot <= MAX_SPOT,
            prices.len() == BUTTERFLY_STRIKES,
        ensures
            signals_for(
                signals@,
                butterfly_findings(
                    spot,
                    expiry_days,
                    prices@,
                    old(self).thresholds,
                    BUTTERFLY_STRIKES - 2,
                ),
                symbol@,
                now_ns,
            ),
            old(self).notified(final(self), signals@.len(), now_ns),
    {
        let mut signals: Vec<ArbSignal> = Vec::new();
        let mut i: usize = 0;
        while i < BUTTERFLY_STRIKES - 2
            invariant
                self.wf(),
                *self == *old(self),
                0 < spot <= MAX_SPOT,
                prices.len() == BUTTERFLY_STRIKES,
                i <= BUTTERFLY_STRIKES - 2,
                signals_for(
                    signals@,
                    butterfly_findings(spot, expiry_days, prices@, self.thresholds, i as int),
                    symbol@,
                    now_ns,
                ),
            decreases BUTTERFLY_STRIKES - i,
        {
            let ghost done = butterfly_findings(
                spot,
                expiry_days,
                prices@,
                self.thresholds,
                i as int,
            );
            let ghost before = signals@;
            match self.find_butterfly(spot, expiry_days, prices, i) {
                Some(f) => {
                    push_signal(&mut signals, f, symbol, now_ns);
                    proof {
                        lemma_signals_push(before, signals@, done, f, symbol@, now_ns);
                    }
                },
                None => {},
            }
            i = i + 1;
        }
        if signals.len() > 0 {
            self.signal_pending = true;
            self.last_signal_ts = now_ns;
        }
        signals
    }

    /// Scan for risk reversal arbitrage
    ///
    /// The volatilities are those of a call five percent above the spot price
    /// and of a put five percent below it.
    pub fn scan_risk_reversal_arb(
        &mut self,
        symbol: &String,
        spot: u64,
        expiry_days: u32,
        vol_call: Option<u64>,
        vol_put: Option<u64>,
        now_ns: u64,
    ) -> (signals: Vec<ArbSignal>)
        requires
            old(self).wf(),
            spot <= MAX_SPOT,
        ensures
            signals_for(
                signals@,
                with_finding(
                    Seq::empty(),
                    reversal_finding(spot, expiry_days, vol_call, vol_put, old(self).thresholds),
                ),
                symbol@,
                now_ns,
            ),
            old(self).notified(final(self), signals@.len(), now_ns),
    {
        let mut signals: Vec<ArbSignal> = Vec::new();
        let c: u64 = match vol_call {
            Some(v) => v,
            None => {
                return signals;
            },
        };
        let p: u64 = match vol_put {
            Some(v) => v,
            None => {
                return signals;
            },
        };
        let skew: u64 = if c >= p {
            c - p
        } else {
            p - c
        };
        if skew > REASONABLE_SKEW {
            let num: i128 = 100 * (skew as i128 - REASONABLE_SKEW as i128);
            let asked: u64 = self.thresholds.min_profit_threshold_bps
                + self.thresholds.transaction_cost_bps;
            let fee: u64 = self.thresholds.transaction_cost_bps;
            if num > asked as i128 * 100_000_000 {
                let ghost before = signals@;
                let finding: ArbFinding = ArbFinding {
                    arb_type: ArbType::RiskReversal,
                    leg1_strike: make_strike(spot, 1050),
                    leg2_strike: make_strike(spot, 950),
                    leg3_strike: None,
                    expiry1_days: expiry_days,
                    expiry2_days: expiry_days,
                    expected_profit_bps: SignedRatio {
                        num: num - fee as i128 * 100_000_000,
                        den: 100_000_000,
                    },
                };
                push_signal(&mut signals, finding, symbol, now_ns);
                proof {
                    lemma_signals_push(
                        before,
                        signals@,
                        Seq::empty(),
                        finding,
                        symbol@,
                        now_ns,
                    );
                }
                self.signal_pending = true;
                self.last_signal_ts = now_ns;
            }
        }
        signals
    }

    /// Check if there's a pending signal
    pub fn has_pending_signal(&self) -> (r: bool)
        ensures
            r == self.signal_pending,
    {
        self.signal_pending
    }

    /// Get timestamp of last signal
    pub fn last_signal_timestamp(&self) -> (r: u64)
        ensures
            r == self.last_signal_ts,
    {
        self.last_signal_ts
    }

    /// Clear pending signal flag after processing
    pub fn clear_signal(&mut self)
        ensures
            *final(self) == (VolArbDetector { signal_pending: false, ..*old(self) }),
    {
        self.signal_pending = false;
    }
}

proof fn lemma_signals_push(
    before: Seq<ArbSignal>,
    after: Seq<ArbSignal>,
    findings: Seq<ArbFinding>,
    f: ArbFinding,
    symbol: Seq<char>,
    now_ns: u64,
)
    requires
        signals_for(before, findings, symbol, now_ns),
        after.len() == before.len() + 1,
        after.drop_last() == before,
        after.last().finding == f,
        after.last().symbol@ == symbol,
        after.last().timestamp_ns == now_ns,
        after.last().confidence == (Ratio { num: 1, den: 1 }),
    ensures
        signals_for(after, findings.push(f), symbol, now_ns),
{
    assert forall|i: int| 0 <= i < after.len() implies {
        &&& (#[trigger] after[i]).finding == findings.push(f)[i]
        &&& after[i].symbol@ == symbol
        &&& after[i].timestamp_ns == now_ns
        &&& after[i].confidence == (Ratio { num: 1, den: 1 })
    } by {
        if i < before.len() {
            assert(after[i] == before[i]);
        }
    }
}

proof fn lemma_squares(s: int, l: int, e1: int, e2: int)
    requires
        0 <= s <= 0x8000_0000,
        0 <= l <= 0x8000_0000,
        0 <= e1 <= 0xFFFF_FFFF,
        0 <= e2 <= 0xFFFF_FFFF,
    ensures
        0 <= s * s <= 0x4000_0000_0000_0000,
        0 <= l * l <= 0x4000_0000_0000_0000,
        0 <= s * s * e1 <= 0x4000_0000_0000_0000 * 0xFFFF_FFFF,
        0 <= l * l * e2 <= 0x4000_0000_0000_0000 * 0xFFFF_FFFF,
{
    assert(0 <= s * s <= 0x4000_0000_0000_0000) by (nonlinear_arith)
        requires
            0 <= s <= 0x8000_0000,
    ;
    assert(0 <= l * l <= 0x4000_0000_0000_0000) by (nonlinear_arith)
        requires
            0 <= l <= 0x8000_0000,
    ;
    let ss = s * s;
    let ll = l * l;
    assert(0 <= ss * e1 <= 0x4000_0000_0000_0000 * 0xFFFF_FFFF) by (nonlinear_arith)
        requires
            0 <= ss <= 0x4000_0000_0000_0000,
            0 <= e1 <= 0xFFFF_FFFF,
    ;
    assert(0 <= ll * e2 <= 0x4000_0000_0000_0000 * 0xFFFF_FFFF) by (nonlinear_arith)
        requires
            0 <= ll <= 0x4000_0000_0000_0000,
            0 <= e2 <= 0xFFFF_FFFF,
    ;
}

proof fn lemma_scaled(bps: int, den: int)
    requires
        0 <= bps <= 2_000_000,
        0 <= den <= 0x4000_0000_0000_0000,
    ensures
        0 <= bps * den <= 2_000_000 * 0x4000_0000_0000_0000,
{
    assert(0 <= bps * den <= 2_000_000 * 0x4000_0000_0000_0000) by (nonlinear_arith)
        requires
            0 <= bps <= 2_000_000,
            0 <= den <= 0x4000_0000_0000_0000,
    ;
}

/// Where variance grows with time to expiry, there is no calendar spread to
/// signal.
pub proof fn law_no_calendar_arbitrage(
    spot: u64,
    e1: u32,
    e2: u32,
    permille: u64,
    short: u64,
    long: u64,
    t: Thresholds,
)
    requires
        short * short * e1 <= long * long * e2,
    ensures
        calendar_finding(spot, e1, e2, permille, Some(short), Some(long), t) is None,
{
    assert(0 <= short * short * e1) by (nonlinear_arith);
}

/// Where call prices are convex in strike, there is no butterfly to signal.
pub proof fn law_no_butterfly_arbitrage(
    spot: u64,
    expiry_days: u32,
    prices: Seq<Option<i64>>,
    i: int,
    t: Thresholds,
)
    requires
        prices[i] matches Some(p1) && prices[i + 1] matches Some(p2) && prices[i + 2] matches Some(p3)
            && p1 - 2 * p2 + p3 >= 0,
    ensures
        butterfly_finding(spot, expiry_days, prices, i, t) is None,
{
}

/// A calendar spread is signalled exactly where both volatilities are known,
/// the total variance of the longer expiry is more than two hundredths below
/// that of the shorter, and the shortfall of the squared volatility, in basis
/// points of the shorter one's, is more than the least profit and the cost. The
/// profit is that shortfall less the cost.
pub proof fn law_calendar_needs_falling_variance(
    spot: u64,
    e1: u32,
    e2: u32,
    permille: u64,
    short: u64,
    long: u64,
    t: Thresholds,
)
    requires
        short <= MAX_VOL,
        long <= MAX_VOL,
        t.min_profit_threshold_bps <= 1_000_000,
        t.transaction_cost_bps <= 1_000_000,
    ensures
        ({
            let f = calendar_finding(spot, e1, e2, permille, Some(short), Some(long), t);
            let gap = 10000 * (short * short - long * long);
            &&& f is Some <==> e2 > 0 && 100 * (long * long * e2) < 98 * (short * short * e1) && gap
                > (t.min_profit_threshold_bps + t.transaction_cost_bps) * (short * short)
            &&& f matches Some(x) ==> {
                &&& x.arb_type is CalendarSpread
                &&& x.leg1_strike == x.leg2_strike
                &&& x.leg3_strike is None
                &&& x.expiry1_days == e1
                &&& x.expiry2_days == e2
                &&& x.expected_profit_bps.den == short * short
                &&& x.expected_profit_bps.num + t.transaction_cost_bps * (short * short) == gap
            }
            &&& calendar_finding(spot, e1, e2, permille, None, Some(long), t) is None
            &&& calendar_finding(spot, e1, e2, permille, Some(short), None, t) is None
        }),
{
    lemma_squares(short as int, long as int, e1 as int, e2 as int);
    lemma_scaled(t.transaction_cost_bps as int, short * short);
    let (a, b, c) = (
        t.min_profit_threshold_bps as int,
        t.transaction_cost_bps as int,
        short * short,
    );
    lemma_scaled(a + b, c);
}

/// A butterfly is signalled exactly where the three prices are known, the two
/// outer ones together are cheaper than twice the middle one by more than a
/// thousandth of the spot price, and the gain in basis points of the spot price
/// is more than the least profit and the cost. The profit is that gain less the
/// cost.
pub proof fn law_butterfly_needs_dear_middle(
    spot: u64,
    expiry_days: u32,
    prices: Seq<Option<i64>>,
    i: int,
    t: Thresholds,
)
    requires
        0 <= i && i + 2 < prices.len(),
        0 < spot <= MAX_SPOT,
        t.min_profit_threshold_bps <= 1_000_000,
        t.transaction_cost_bps <= 1_000_000,
    ensures
        ({
            let f = butterfly_finding(spot, expiry_days, prices, i, t);
            let known = prices[i] is Some && prices[i + 1] is Some && prices[i + 2] is Some;
            let gain = 2 * prices[i + 1]->0 - prices[i]->0 - prices[i + 2]->0;
            &&& f is Some <==> known && 1000 * gain > spot && 10000 * gain > (
            t.min_profit_threshold_bps + t.transaction_cost_bps) * spot
            &&& f matches Some(x) ==> {
                &&& x.arb_type is ButterflySpread
                &&& x.leg3_strike is Some
                &&& x.expiry1_days == expiry_days
                &&& x.expiry2_days == expiry_days
                &&& x.expected_profit_bps.den == spot
                &&& x.expected_profit_bps.num + t.transaction_cost_bps * spot == 10000 * gain
            }
        }),
{
    lemma_scaled(t.transaction_cost_bps as int, spot as int);
    lemma_scaled(t.min_profit_threshold_bps + t.transaction_cost_bps, spot as int);
}

/// A risk reversal is signalled exactly where both volatilities are known and
/// differ, either way, by more than fifteen hundredths, and what they differ by
/// beyond that, a basis point for each hundredth, is more than the least profit
/// and the cost. The profit is that much less the cost.
pub proof fn law_reversal_needs_wide_skew(
    spot: u64,
    expiry_days: u32,
    call: u64,
    put: u64,
    t: Thresholds,
)
    requires
        t.min_profit_threshold_bps <= 1_000_000,
        t.transaction_cost_bps <= 1_000_000,
    ensures
        ({
            let f = reversal_finding(spot, expiry_days, Some(call), Some(put), t);
            let one: int = 100_000_000;
            let wide = call - put > 15_000_000 || put - call > 15_000_000;
            let beyond = if call > put {
                100 * (call - put - 15_000_000)
            } else {
                100 * (put - call - 15_000_000)
            };
            &&& f is Some <==> wide && beyond > (t.min_profit_threshold_bps
                + t.transaction_cost_bps) * one
            &&& f matches Some(x) ==> {
                &&& x.arb_type is RiskReversal
                &&& x.leg3_strike is None
                &&& x.expiry1_days == expiry_days
                &&& x.expiry2_days == expiry_days
                &&& x.expected_profit_bps.den == one
                &&& x.expected_profit_bps.num + t.transaction_cost_bps * one == beyond
            }
            &&& reversal_finding(spot, expiry_days, None, Some(put), t) is None
            &&& reversal_finding(spot, expiry_days, Some(call), None, t) is None
        }),
{
}

/// Which of the two volatilities is the larger makes no difference: with call
/// and put exchanged the same risk reversal is found.
pub proof fn law_reversal_is_symmetric(
    spot: u64,
    expiry_days: u32,
    call: Option<u64>,
    put: Option<u64>,
    t: Thresholds,
)
    ensures
        reversal_finding(spot, expiry_days, call, put, t) == reversal_finding(
            spot,
            expiry_days,
            put,
            call,
            t,
        ),
{
}

/// Strikes lie where they should around the spot price: those of calendar
/// spreads every two and a half hundredths from five hundredths below to five
/// above, those of butterflies every two hundredths from four below, and those
/// of risk reversals five hundredths above and below.
pub proof fn law_strikes_around_spot(
    spot: u64,
    e1: u32,
    e2: u32,
    short: u64,
    long: u64,
    prices: Seq<Option<i64>>,
    t: Thresholds,
    j: int,
)
    requires
        spot <= MAX_SPOT,
        0 <= j < CALENDAR_STRIKES,
    ensures
        calendar_finding(spot, e1, e2, calendar_permille(j), Some(short), Some(long), t) matches Some(
            x,
        ) ==> x.leg1_strike.num * 1000 == spot * (950 + 25 * j) * x.leg1_strike.den,
        j < 3 ==> (butterfly_finding(spot, e1, prices, j, t) matches Some(x) ==> {
            &&& x.leg1_strike.num * 100 == spot * (96 + 2 * j) * x.leg1_strike.den
            &&& x.leg2_strike.num * 100 == spot * (98 + 2 * j) * x.leg2_strike.den
            &&& x.leg3_strike matches Some(k) ==> k.num * 100 == spot * (100 + 2 * j) * k.den
        }),
        reversal_finding(spot, e1, Some(short), Some(long), t) matches Some(x) ==> {
            &&& x.leg1_strike.num * 100 == spot * 105 * x.leg1_strike.den
            &&& x.leg2_strike.num * 100 == spot * 95 * x.leg2_strike.den
        },
{
    lemma_strike(spot, calendar_permille(j));
    assert(spot * (950 + 25 * j) * 1000 == spot * calendar_permille(j) * 1000);
    lemma_strike(spot, 1050);
    lemma_strike(spot, 950);
    if j < 3 {
        lemma_strike(spot, butterfly_permille(j));
        lemma_strike(spot, butterfly_permille(j + 1));
        lemma_strike(spot, butterfly_permille(j + 2));
        assert(butterfly_permille(j) == 960 + 20 * j);
        assert(butterfly_permille(j + 1) == 980 + 20 * j);
        assert(butterfly_permille(j + 2) == 1000 + 20 * j);
        let k = j;
        assert(spot * (960 + 20 * k) * 100 == spot * (96 + 2 * k) * 1000) by (nonlinear_arith);
        assert(spot * (980 + 20 * k) * 100 == spot * (98 + 2 * k) * 1000) by (nonlinear_arith);
        assert(spot * (1000 + 20 * k) * 100 == spot * (100 + 2 * k) * 1000) by (nonlinear_arith);
    }
}

proof fn lemma_strike(spot: u64, permille: u64)
    requires
        spot <= MAX_SPOT,
        permille <= 1100,
    ensures
        strike_at(spot, permille).num == spot * permille,
        strike_at(spot, permille).den == 1000,
{
    assert(spot * permille <= 0x10_0000_0000_0000 * 1100) by (nonlinear_arith)
        requires
            spot <= 0x10_0000_0000_0000,
            permille <= 1100,
    ;
}

proof fn lemma_row_holds(
    spot: u64,
    e1: u32,
    e2: u32,
    short: Seq<Option<u64>>,
    long: Seq<Option<u64>>,
    t: Thresholds,
    n: int,
    x: ArbFinding,
)
    ensures
        calendar_row(spot, e1, e2, short, long, t, n).contains(x) <==> exists|j: int|
            0 <= j < n && calendar_finding(
                spot,
                e1,
                e2,
                calendar_permille(j),
                #[trigger] short[j],
                long[j],
                t,
            ) == Some(x),
    decreases n,
{
    if n > 0 {
        lemma_row_holds(spot, e1, e2, short, long, t, n - 1, x);
        let row = calendar_row(spot, e1, e2, short, long, t, n);
        let rest = calendar_row(spot, e1, e2, short, long, t, n - 1);
        let f = calendar_finding(
            spot,
            e1,
            e2,
            calendar_permille(n - 1),
            short[n - 1],
            long[n - 1],
            t,
        );
        if f is Some {
            lemma_push_contains(rest, f->0, x);
        }
        if row.contains(x) && rest.contains(x) {
            let j = choose|j: int|
                0 <= j < n - 1 && calendar_finding(
                    spot,
                    e1,
                    e2,
                    calendar_permille(j),
                    #[trigger] short[j],
                    long[j],
                    t,
                ) == Some(x);
            assert(0 <= j < n);
        }
    }
}

proof fn lemma_push_contains(s: Seq<ArbFinding>, y: ArbFinding, x: ArbFinding)
    ensures
        s.push(y).contains(x) <==> s.contains(x) || x == y,
{
    let p = s.push(y);
    if s.contains(x) {
        let i = choose|i: int| 0 <= i < s.len() && s[i] == x;
        assert(p[i] == x);
    }
    assert(p[s.len() as int] == y);
    if p.contains(x) {
        let i = choose|i: int| 0 <= i < p.len() && p[i] == x;
        if i < s.len() {
            assert(s[i] == x);
        }
    }
}

/// A calendar scan looks at every pair of neighbouring expiries, the earlier of
/// the two as the shorter, and at every strike: it finds exactly what one of
/// them gives.
pub proof fn law_calendar_scan_is_complete(
    spot: u64,
    expiries: Seq<u32>,
    vols: Seq<Vec<Option<u64>>>,
    t: Thresholds,
    n: int,
    x: ArbFinding,
)
    ensures
        calendar_findings(spot, expiries, vols, t, n).contains(x) <==> exists|i: int, j: int|
            0 <= i < n && 0 <= j < CALENDAR_STRIKES && calendar_finding(
                spot,
                #[trigger] expiries[i],
                expiries[i + 1],
                calendar_permille(j),
                #[trigger] vols[i]@[j],
                vols[i + 1]@[j],
                t,
            ) == Some(x),
    decreases n,
{
    if n > 0 {
        law_calendar_scan_is_complete(spot, expiries, vols, t, n - 1, x);
        let a = calendar_findings(spot, expiries, vols, t, n - 1);
        let b = calendar_row(
            spot,
            expiries[n - 1],
            expiries[n],
            vols[n - 1]@,
            vols[n]@,
            t,
            CALENDAR_STRIKES as int,
        );
        lemma_row_holds(
            spot,
            expiries[n - 1],
            expiries[n],
            vols[n - 1]@,
            vols[n]@,
            t,
            CALENDAR_STRIKES as int,
            x,
        );
        if (a + b).contains(x) {
            let k = choose|k: int| 0 <= k < (a + b).len() && (a + b)[k] == x;
            if k < a.len() {
                assert(a[k] == x);
            } else {
                assert(b[k - a.len()] == x);
            }
        }
        if a.contains(x) {
            let k = choose|k: int| 0 <= k < a.len() && a[k] == x;
            assert((a + b)[k] == x);
        }
        if b.contains(x) {
            let k = choose|k: int| 0 <= k < b.len() && b[k] == x;
            assert((a + b)[a.len() + k] == x);
            let j = choose|j: int|
                0 <= j < CALENDAR_STRIKES && calendar_finding(
                    spot,
                    expiries[n - 1],
                    expiries[n],
                    calendar_permille(j),
                    #[trigger] vols[n - 1]@[j],
                    vols[n]@[j],
                    t,
                ) == Some(x);
            assert(expiries[n - 1] == expiries[n - 1] && vols[n - 1]@[j] == vols[n - 1]@[j]);
        }
        if exists|i: int, j: int|
            0 <= i < n && 0 <= j < CALENDAR_STRIKES && calendar_finding(
                spot,
                #[trigger] expiries[i],
                expiries[i + 1],
                calendar_permille(j),
                #[trigger] vols[i]@[j],
                vols[i + 1]@[j],
                t,
            ) == Some(x) {
            let (i, j) = choose|i: int, j: int|
                0 <= i < n && 0 <= j < CALENDAR_STRIKES && calendar_finding(
                    spot,
                    #[trigger] expiries[i],
                    expiries[i + 1],
                    calendar_permille(j),
                    #[trigger] vols[i]@[j],
                    vols[i + 1]@[j],
                    t,
                ) == Some(x);
            if i == n - 1 {
                assert(vols[n - 1]@[j] == vols[i]@[j]);
            }
        }
    }
}

/// A butterfly scan looks at every three neighbouring strikes: it finds exactly
/// what one of them gives.
pub proof fn law_butterfly_scan_is_complete(
    spot: u64,
    expiry_days: u32,
    prices: Seq<Option<i64>>,
    t: Thresholds,
    n: int,
    x: ArbFinding,
)
    ensures
        butterfly_findings(spot, expiry_days, prices, t, n).contains(x) <==> exists|i: int|
            0 <= i < n && #[trigger] butterfly_finding(spot, expiry_days, prices, i, t) == Some(x),
    decreases n,
{
    if n > 0 {
        law_butterfly_scan_is_complete(spot, expiry_days, prices, t, n - 1, x);
        let f = butterfly_finding(spot, expiry_days, prices, n - 1, t);
        let rest = butterfly_findings(spot, expiry_days, prices, t, n - 1);
        if f is Some {
            lemma_push_contains(rest, f->0, x);
        }
    }
}

/// Signals stand for the findings one for one and in their order, with full
/// confidence, and a detector that found any has one pending from now on.
pub proof fn law_signals_stand_for_findings(
    signals: Seq<ArbSignal>,
    findings: Seq<ArbFinding>,
    symbol: Seq<char>,
    before: VolArbDetector,
    after: VolArbDetector,
    now_ns: u64,
)
    requires
        signals_for(signals, findings, symbol, now_ns),
        before.notified(&after, signals.len(), now_ns),
    ensures
        signals.map_values(|s: ArbSignal| s.finding) == findings,
        forall|i: int|
            0 <= i < signals.len() ==> (#[trigger] signals[i]).confidence.num
                == signals[i].confidence.den && signals[i].confidence.den > 0
                && signals[i].timestamp_ns == now_ns && signals[i].symbol@ == symbol,
        findings.len() > 0 ==> after.signal_pending && after.last_signal_ts == now_ns,
        findings.len() == 0 ==> after == before,
        after.thresholds == before.thresholds,
{
    assert(signals.map_values(|s: ArbSignal| s.finding) =~= findings);
}

} // verus!
