//! Delta-neutral hedging of options with perpetual futures: positions, hedge
//! signals, fees and funding. All amounts are in units of one
//! hundred-millionth, and products of amounts are kept exact.
use crate::math;
use crate::math::magnitude;
use crate::text::same_text;
use vstd::prelude::*;

verus! {

/// Units of one
pub const ONE: u64 = 100_000_000;

/// Largest quantity or price for which products are exact
pub const MAX_AMOUNT: u64 = 0x4000_0000_0000;

/// Largest rate for which products are exact (a little more than one)
pub const MAX_RATE: u64 = 0x800_0000;

/// Most hedge positions for which sums are exact
pub const MAX_HEDGES: usize = 64;

#[derive(Debug, Clone, Copy, PartialEq, Eq, Structural)]
pub enum OptionType {
    Call,
    Put,
}

#[derive(Debug, Clone, Copy, PartialEq, Eq, Structural)]
pub enum HedgeAction {
    BuyFuture,
    SellFuture,
    CloseHedge,
    Rebalance,
}

/// Option position in the portfolio
#[derive(Debug)]
pub struct OptionPosition {
    pub symbol: String,
    pub strike: u64,
    pub expiry_days: u32,
    /// Number of contracts (positive = long)
    pub quantity: i64,
    pub option_type: OptionType,
    /// Implied vol at entry
    pub entry_vol: u64,
}

/// Perpetual futures hedge position
#[derive(Debug)]
pub struct HedgePosition {
    pub symbol: String,
    /// Positive = long, negative = short
    pub quantity: i64,
    pub entry_price: u64,
    pub unrealized_pnl: i64,
}

/// Trading fee structure
#[derive(Debug, Clone, Copy, PartialEq, Eq, Structural)]
pub struct FeeStructure {
    pub maker_fee: u64,
    pub taker_fee: u64,
    /// Minimum fee in quote currency
    pub min_fee: u64,
}

pub open spec fn standard_fees() -> FeeStructure {
    FeeStructure { maker_fee: 20_000, taker_fee: 40_000, min_fee: 10_000 }
}

impl Default for FeeStructure {
    fn default() -> (r: Self)
        ensures
            r == standard_fees(),
    {
        FeeStructure { maker_fee: 20_000, taker_fee: 40_000, min_fee: 10_000 }
    }
}

/// Gamma scalping signal
#[derive(Debug)]
pub struct ScalpSignal {
    pub symbol: String,
    pub action: HedgeAction,
    pub quantity: i64,
    pub target_delta: i64,
    pub current_delta: i64,
    /// In units of one over ten to the twenty-fourth
    pub estimated_cost: u128,
    pub timestamp_ns: u64,
}

/// Whether a position is of an option.
pub open spec fn is_option(
    p: OptionPosition,
    symbol: Seq<char>,
    strike: u64,
    option_type: OptionType,
) -> bool {
    p.symbol@ == symbol && p.strike == strike && p.option_type == option_type
}

/// Positions without those of an option, in their order.
pub open spec fn without_option(
    s: Seq<OptionPosition>,
    symbol: Seq<char>,
    strike: u64,
    option_type: OptionType,
) -> Seq<OptionPosition>
    decreases s.len(),
{
    if s.len() == 0 {
        s
    } else {
        let rest = without_option(s.drop_last(), symbol, strike, option_type);
        if is_option(s.last(), symbol, strike, option_type) {
            rest
        } else {
            rest.push(s.last())
        }
    }
}

/// The fee on a trade: a rate on its notional value, and no less than the
/// minimum; in units of one over ten to the twenty-fourth.
pub open spec fn trade_fee(quantity: int, price: u64, fees: FeeStructure) -> int {
    math::max_int(
        math::abs_int(quantity) * price * fees.taker_fee,
        fees.min_fee * 10_000_000_000_000_000,
    )
}

/// The funding that a position pays, or receives where it is short; in units
/// of one over ten to the twenty-fourth.
pub open spec fn funding_of(p: HedgePosition, rate: i64) -> int {
    let payment = math::abs_int(p.quantity as int) * p.entry_price * rate;
    if p.quantity > 0 {
        payment
    } else {
        -payment
    }
}

/// The funding that positions pay together.
pub open spec fn total_funding(s: Seq<HedgePosition>, rate: i64) -> int
    decreases s.len(),
{
    if s.len() == 0 {
        0
    } else {
        total_funding(s.drop_last(), rate) + funding_of(s.last(), rate)
    }
}

/// Where the hedge of a symbol stands, from `i` on, or the number of hedges.
pub open spec fn hedge_place(s: Seq<HedgePosition>, symbol: Seq<char>, i: int) -> int
    decreases s.len() - i,
{
    if i >= s.len() {
        s.len() as int
    } else if s[i].symbol@ == symbol {
        i
    } else {
        hedge_place(s, symbol, i + 1)
    }
}

/// The average entry price after a trade: what was held at its price and the
/// trade at its own, over what is held now, rounded down. Where nothing is
/// held the price stays.
pub open spec fn entry_after(price: u64, held: int, quantity: int, trade_price: u64) -> int {
    let now = held + quantity;
    if now == 0 {
        price as int
    } else {
        (math::abs_int(price * held) + trade_price * math::abs_int(quantity)) / math::abs_int(now)
    }
}

/// The sum of a figure per contract over the positions, each times its number
/// of contracts.
pub open spec fn weighted_total(s: Seq<OptionPosition>, figures: Seq<i64>) -> int
    decreases s.len(),
{
    if s.len() == 0 {
        0
    } else {
        weighted_total(s.drop_last(), figures) + figures[s.len() - 1] * s.last().quantity
    }
}

/// The delta of the hedges: a future has a delta of one.
pub open spec fn total_hedge(s: Seq<HedgePosition>) -> int
    decreases s.len(),
{
    if s.len() == 0 {
        0
    } else {
        total_hedge(s.drop_last()) + s.last().quantity
    }
}

/// The delta of options and hedges together, in units of one over ten to the
/// sixteenth.
pub open spec fn portfolio_delta(
    positions: Seq<OptionPosition>,
    deltas: Seq<i64>,
    hedges: Seq<HedgePosition>,
) -> int {
    weighted_total(positions, deltas) + total_hedge(hedges) * ONE
}

/// Figures per contract that leave room for their sum.
pub open spec fn figures_fit(positions: Seq<OptionPosition>, figures: Seq<i64>) -> bool {
    &&& figures.len() == positions.len()
    &&& positions.len() <= 0x1000_0000
    &&& forall|i: int|
        0 <= i < figures.len() ==> math::abs_int((#[trigger] figures[i]) as int) <= 0x1_0000_0000
}

/// Gamma scalping engine
pub struct GammaScalpingEngine {
    pub positions: Vec<OptionPosition>,
    pub hedge_positions: Vec<HedgePosition>,
    pub fee_structure: FeeStructure,
    pub is_active: bool,
    /// Delta from which the hedge is rebalanced
    pub rebalance_threshold_delta: u64,
}

impl GammaScalpingEngine {
    pub fn new(fee_structure: FeeStructure) -> (r: Self)
        ensures
            r.positions.len() == 0,
            r.hedge_positions.len() == 0,
            r.fee_structure == fee_structure,
            !r.is_active,
            r.rebalance_threshold_delta == 5_000_000,
    {
        GammaScalpingEngine {
            positions: Vec::new(),
            hedge_positions: Vec::new(),
            fee_structure,
            is_active: false,
            rebalance_threshold_delta: 5_000_000,
        }
    }

    /// Add an option position to the portfolio
    pub fn add_option_position(&mut self, position: OptionPosition)
        ensures
            final(self).positions@ == old(self).positions@.push(position),
            *final(self) == (GammaScalpingEngine {
                positions: final(self).positions,
                ..*old(self)
            }),
    {
        self.positions.push(position);
    }

    /// Remove an option position
    pub fn remove_option_position(&mut self, symbol: &str, strike: u64, option_type: OptionType)
        ensures
            final(self).positions@ == without_option(
                old(self).positions@,
                symbol@,
                strike,
                option_type,
            ),
            *final(self) == (GammaScalpingEngine {
                positions: final(self).positions,
                ..*old(self)
            }),
    {
        let ghost all = self.positions@;
        let mut i: usize = 0;
        let mut seen: Ghost<int> = Ghost(0);
        assert(all.subrange(0, 0) =~= Seq::<OptionPosition>::empty());
        assert(self.positions@ =~= without_option(
            all.subrange(0, 0),
            symbol@,
            strike,
            option_type,
        ) + all.subrange(0, all.len() as int));
        while i < self.positions.len()
            invariant
                0 <= seen@ <= all.len(),
                all == old(self).positions@,
                i <= self.positions.len(),
                i == without_option(
                    all.subrange(0, seen@),
                    symbol@,
                    strike,
                    option_type,
                ).len(),
                self.positions@ == without_option(
                    all.subrange(0, seen@),
                    symbol@,
                    strike,
                    option_type,
                ) + all.subrange(seen@, all.len() as int),
                *self == (GammaScalpingEngine { positions: self.positions, ..*old(self) }),
            decreases self.positions.len() - i,
        {
            let ghost kept = without_option(all.subrange(0, seen@), symbol@, strike, option_type);
            let ghost n = seen@;
            proof {
                let next = all.subrange(0, n + 1);
                assert(next.drop_last() =~= all.subrange(0, n));
                assert(next.last() == all[n]);
                assert(self.positions@[i as int] == all.subrange(n, all.len() as int)[0]);
            }
            let same: bool = same_text(self.positions[i].symbol.as_str(), symbol)
                && self.positions[i].strike == strike && self.positions[i].option_type
                == option_type;
            if same {
                let ghost before = self.positions@;
                let _ = self.positions.remove(i);
                proof {
                    assert(self.positions@ =~= before.remove(i as int));
                    assert(self.positions@ =~= kept + all.subrange(n + 1, all.len() as int));
                }
            } else {
                i = i + 1;
                proof {
                    assert(self.positions@ =~= kept.push(all[n]) + all.subrange(
                        n + 1,
                        all.len() as int,
                    ));
                }
            }
            proof {
                seen@ = n + 1;
            }
        }
        proof {
            assert(all.subrange(seen@, all.len() as int).len() == 0);
            assert(all.subrange(0, seen@) =~= all);
            assert(self.positions@ =~= without_option(all, symbol@, strike, option_type));
        }
    }

    fn sum_figures(&self, figures: &Vec<i64>) -> (r: i128)
        requires
            figures_fit(self.positions@, figures@),
        ensures
            r == weighted_total(self.positions@, figures@),
            -0x800_0000_0000_0000_0000_0000_0000_0000 <= r
                <= 0x800_0000_0000_0000_0000_0000_0000_0000,
    {
        let mut total: i128 = 0;
        let mut i: usize = 0;
        assert(self.positions@.subrange(0, 0) =~= Seq::<OptionPosition>::empty());
        while i < self.positions.len()
            invariant
                i <= self.positions.len(),
                figures_fit(self.positions@, figures@),
                total == weighted_total(self.positions@.subrange(0, i as int), figures@),
                -(i * 0x8000_0000_0000_0000_0000_0000) <= total <= i
                    * 0x8000_0000_0000_0000_0000_0000,
            decreases self.positions.len() - i,
        {
            let q: i64 = self.positions[i].quantity;
            let f: i64 = figures[i];
            proof {
                let next = self.positions@.subrange(0, i + 1);
                assert(next.drop_last() =~= self.positions@.subrange(0, i as int));
                assert(next.last() == self.positions@[i as int]);
                assert(-0x8000_0000_0000_0000_0000_0000 <= f * q
                    <= 0x8000_0000_0000_0000_0000_0000) by (nonlinear_arith)
                    requires
                        -0x1_0000_0000 <= f <= 0x1_0000_0000,
                        -0x8000_0000_0000_0000 <= q <= 0x7FFF_FFFF_FFFF_FFFF,
                ;
            }
            total = total + f as i128 * q as i128;
            i = i + 1;
        }
        assert(self.positions@.subrange(0, i as int) =~= self.positions@);
        total
    }

    /// Calculate portfolio-wide delta from the delta of each option, in units
    /// of one over ten to the sixteenth
    pub fn get_portfolio_delta(&self, deltas: &Vec<i64>) -> (r: i128)
        requires
            figures_fit(self.positions@, deltas@),
            self.hedge_positions.len() <= 0x1000_0000,
        ensures
            r == portfolio_delta(self.positions@, deltas@, self.hedge_positions@),
    {
        let options: i128 = self.sum_figures(deltas);
        let mut hedges: i128 = 0;
        let mut i: usize = 0;
        assert(self.hedge_positions@.subrange(0, 0) =~= Seq::<HedgePosition>::empty());
        while i < self.hedge_positions.len()
            invariant
                i <= self.hedge_positions.len(),
                self.hedge_positions.len() <= 0x1000_0000,
                hedges == total_hedge(self.hedge_positions@.subrange(0, i as int)),
                -(i * 0x8000_0000_0000_0000) <= hedges <= i * 0x8000_0000_0000_0000,
            decreases self.hedge_positions.len() - i,
        {
            proof {
                let next = self.hedge_positions@.subrange(0, i + 1);
                assert(next.drop_last() =~= self.hedge_positions@.subrange(0, i as int));
                assert(next.last() == self.hedge_positions@[i as int]);
            }
            hedges = hedges + self.hedge_positions[i].quantity as i128;
            i = i + 1;
        }
        assert(self.hedge_positions@.subrange(0, i as int) =~= self.hedge_positions@);
        options + hedges * 100_000_000
    }

    /// Calculate portfolio gamma from the gamma of each option, in units of one
    /// over ten to the sixteenth
    pub fn get_portfolio_gamma(&self, gammas: &Vec<i64>) -> (r: i128)
        requires
            figures_fit(self.positions@, gammas@),
        ensures
            r == weighted_total(self.positions@, gammas@),
    {
        self.sum_figures(gammas)
    }

    /// Generate delta-neutral hedge signal for the delta of the portfolio
    ///
    /// A portfolio that is long delta sells futures, one that is short buys
    /// them, as many as neutralize it.
    pub fn generate_hedge_signal(&self, portfolio_delta: i64, spot_price: u64, now_ns: u64) -> (r:
        Option<ScalpSignal>)
        requires
            math::abs_int(portfolio_delta as int) <= MAX_AMOUNT,
            spot_price <= MAX_AMOUNT,
            self.fee_structure.taker_fee <= MAX_RATE,
        ensures
            match r {
                Some(s) => {
                    &&& math::abs_int(portfolio_delta as int) >= self.rebalance_threshold_delta
                    &&& s.symbol@ == "BTCUSDT"@
                    &&& s.action == (if portfolio_delta > 0 {
                        HedgeAction::SellFuture
                    } else {
                        HedgeAction::BuyFuture
                    })
                    &&& s.quantity == -portfolio_delta
                    &&& s.target_delta == 0
                    &&& s.current_delta == portfolio_delta
                    &&& s.estimated_cost == trade_fee(
                        portfolio_delta as int,
                        spot_price,
                        self.fee_structure,
                    )
                    &&& s.timestamp_ns == now_ns
                },
                None => math::abs_int(portfolio_delta as int) < self.rebalance_threshold_delta,
            },
    {
        let size: u64 = magnitude(portfolio_delta);
        if size < self.rebalance_threshold_delta {
            return None;
        }
        let action: HedgeAction = if portfolio_delta > 0 {
            HedgeAction::SellFuture
        } else {
            HedgeAction::BuyFuture
        };
        proof {
            lemma_product(size as int, spot_price as int, self.fee_structure.taker_fee as int);
        }
        let fee: u128 = size as u128 * spot_price as u128 * self.fee_structure.taker_fee as u128;
        let least: u128 = self.fee_structure.min_fee as u128 * 10_000_000_000_000_000;
        Some(
            ScalpSignal {
                symbol: "BTCUSDT".to_owned(),
                action,
                quantity: -portfolio_delta,
                target_delta: 0,
                current_delta: portfolio_delta,
                estimated_cost: if fee >= least {
                    fee
                } else {
                    least
                },
                timestamp_ns: now_ns,
            },
        )
    }

    /// Calculate funding cost for perpetual futures hedge: long positions pay
    /// where the rate is positive, short ones receive
    pub fn calculate_funding_cost(&self, hedge_positions: &Vec<HedgePosition>, funding_rate: i64) -> (r:
        i128)
        requires
            hedge_positions.len() <= MAX_HEDGES,
            math::abs_int(funding_rate as int) <= MAX_RATE,
            forall|i: int|
                0 <= i < hedge_positions.len() ==> math::abs_int(
                    (#[trigger] hedge_positions@[i]).quantity as int,
                ) <= MAX_AMOUNT && hedge_positions@[i].entry_price <= MAX_AMOUNT,
        ensures
            r == total_funding(hedge_positions@, funding_rate),
    {
        let mut total: i128 = 0;
        let mut i: usize = 0;
        assert(hedge_positions@.subrange(0, 0) =~= Seq::<HedgePosition>::empty());
        while i < hedge_positions.len()
            invariant
                i <= hedge_positions.len(),
                hedge_positions.len() <= MAX_HEDGES,
                math::abs_int(funding_rate as int) <= MAX_RATE,
                forall|k: int|
                    0 <= k < hedge_positions.len() ==> math::abs_int(
                        (#[trigger] hedge_positions@[k]).quantity as int,
                    ) <= MAX_AMOUNT && hedge_positions@[k].entry_price <= MAX_AMOUNT,
                total == total_funding(hedge_positions@.subrange(0, i as int), funding_rate),
                -(i * 0x80_0000_0000_0000_0000_0000_0000_0000) <= total <= i
                    * 0x80_0000_0000_0000_0000_0000_0000_0000,
            decreases hedge_positions.len() - i,
        {
            let q: i64 = hedge_positions[i].quantity;
            let size: u64 = magnitude(q);
            let price: u64 = hedge_positions[i].entry_price;
            proof {
                let next = hedge_positions@.subrange(0, i + 1);
                assert(next.drop_last() =~= hedge_positions@.subrange(0, i as int));
                assert(next.last() == hedge_positions@[i as int]);
                lemma_signed_product(size as int, price as int, funding_rate as int);
            }
            let payment: i128 = size as i128 * price as i128 * funding_rate as i128;
            total = if q > 0 {
                total + payment
            } else {
                total - payment
            };
            i = i + 1;
        }
        assert(hedge_positions@.subrange(0, i as int) =~= hedge_positions@);
        total
    }

    /// Check if gamma scalping is profitable given realized vs implied vol:
    /// half the gamma times the difference of the variances exceeds the theta
    pub fn check_scalp_profitability(
        &self,
        realized_vol: u64,
        implied_vol: u64,
        gamma: i64,
        theta: i64,
    ) -> (r: bool)
        requires
            realized_vol <= 0x4000_0000,
            implied_vol <= 0x4000_0000,
        ensures
            r == (gamma > 0 && gamma * (realized_vol * realized_vol - implied_vol * implied_vol) > 2
                * math::abs_int(theta as int) * 10_000_000_000_000_000),
    {
        if gamma <= 0 {
            return false;
        }
        proof {
            let (a, b, g) = (realized_vol as int, implied_vol as int, gamma as int);
            assert(0 <= a * a <= 0x1000_0000_0000_0000 && 0 <= b * b <= 0x1000_0000_0000_0000)
                by (nonlinear_arith)
                requires
                    0 <= a <= 0x4000_0000,
                    0 <= b <= 0x4000_0000,
            ;
            let d = a * a - b * b;
            assert(-(0x1000_0000_0000_0000 * 0x8000_0000_0000_0000) <= g * d
                <= 0x1000_0000_0000_0000 * 0x8000_0000_0000_0000) by (nonlinear_arith)
                requires
                    0 < g <= 0x7FFF_FFFF_FFFF_FFFF,
                    -0x1000_0000_0000_0000 <= d <= 0x1000_0000_0000_0000,
            ;
        }
        let rv: i128 = realized_vol as i128 * realized_vol as i128;
        let iv: i128 = implied_vol as i128 * implied_vol as i128;
        let capture: i128 = gamma as i128 * (rv - iv);
        capture > 2 * (magnitude(theta) as i128) * 10_000_000_000_000_000
    }

    fn find_hedge(&self, symbol: &str) -> (r: usize)
        ensures
            r == hedge_place(self.hedge_positions@, symbol@, 0),
            r <= self.hedge_positions.len(),
    {
        let mut i: usize = 0;
        while i < self.hedge_positions.len()
            invariant
                i <= self.hedge_positions.len(),
                hedge_place(self.hedge_positions@, symbol@, 0) == hedge_place(
                    self.hedge_positions@,
                    symbol@,
                    i as int,
                ),
            decreases self.hedge_positions.len() - i,
        {
            if same_text(self.hedge_positions[i].symbol.as_str(), symbol) {
                return i;
            }
            i = i + 1;
        }
        i
    }

    /// The amounts of a hedge and of a trade leave room for their products.
    pub open spec fn accepts_trade(&self, symbol: Seq<char>, quantity: i64, price: u64) -> bool {
        let p = hedge_place(self.hedge_positions@, symbol, 0);
        p < self.hedge_positions.len() ==> {
            let h = self.hedge_positions@[p];
            &&& math::abs_int(h.quantity as int) <= MAX_AMOUNT
            &&& math::abs_int(quantity as int) <= MAX_AMOUNT
            &&& h.entry_price <= MAX_AMOUNT
            &&& price <= MAX_AMOUNT
            &&& entry_after(h.entry_price, h.quantity as int, quantity as int, price) <= u64::MAX
        }
    }

    /// Update hedge position after execution
    pub fn update_hedge_position(&mut self, symbol: &str, quantity: i64, entry_price: u64)
        requires
            old(self).accepts_trade(symbol@, quantity, entry_price),
        ensures
            ({
                let p = hedge_place(old(self).hedge_positions@, symbol@, 0);
                if p < old(self).hedge_positions.len() {
                    let h = old(self).hedge_positions@[p];
                    &&& final(self).hedge_positions.len() == old(self).hedge_positions.len()
                    &&& final(self).hedge_positions@[p] == (HedgePosition {
                        quantity: (h.quantity + quantity) as i64,
                        entry_price: entry_after(
                            h.entry_price,
                            h.quantity as int,
                            quantity as int,
                            entry_price,
                        ) as u64,
                        ..h
                    })
                    &&& forall|i: int|
                        0 <= i < old(self).hedge_positions.len() && i != p ==> #[trigger] final(self).hedge_positions@[i] == old(self).hedge_positions@[i]
                } else {
                    &&& final(self).hedge_positions.len() == old(self).hedge_positions.len() + 1
                    &&& final(self).hedge_positions@.drop_last() == old(self).hedge_positions@
                    &&& final(self).hedge_positions@.last().symbol@ == symbol@
                    &&& final(self).hedge_positions@.last().quantity == quantity
                    &&& final(self).hedge_positions@.last().entry_price == entry_price
                    &&& final(self).hedge_positions@.last().unrealized_pnl == 0
                }
            }),
            *final(self) == (GammaScalpingEngine {
                hedge_positions: final(self).hedge_positions,
                ..*old(self)
            }),
    {
        let p: usize = self.find_hedge(symbol);
        if p < self.hedge_positions.len() {
            let held: i64 = self.hedge_positions[p].quantity;
            let price: u64 = self.hedge_positions[p].entry_price;
            let now: i64 = held + quantity;
            self.hedge_positions[p].quantity = now;
            if now != 0 {
                let held_size: u64 = magnitude(held);
                let trade_size: u64 = magnitude(quantity);
                proof {
                    lemma_pair(price as int, held_size as int);
                    lemma_pair(entry_price as int, trade_size as int);
                    lemma_abs_product(price as int, held as int);
                }
                let value: u128 = price as u128 * held_size as u128 + entry_price as u128
                    * trade_size as u128;
                let size: u128 = magnitude(now) as u128;
                self.hedge_positions[p].entry_price = (value / size) as u64;
            }
        } else {
            let ghost before = self.hedge_positions@;
            self.hedge_positions.push(
                HedgePosition {
                    symbol: symbol.to_owned(),
                    quantity,
                    entry_price,
                    unrealized_pnl: 0,
                },
            );
            assert(self.hedge_positions@.drop_last() =~= before);
        }
    }

    /// Start the gamma scalping engine
    pub fn start(&mut self)
        ensures
            *final(self) == (GammaScalpingEngine { is_active: true, ..*old(self) }),
    {
        self.is_active = true;
    }

    /// Stop the gamma scalping engine
    pub fn stop(&mut self)
        ensures
            *final(self) == (GammaScalpingEngine { is_active: false, ..*old(self) }),
    {
        self.is_active = false;
    }

    /// Check if engine is active
    pub fn is_running(&self) -> (r: bool)
        ensures
            r == self.is_active,
    {
        self.is_active
    }
}

proof fn lemma_product(a: int, b: int, c: int)
    requires
        0 <= a <= 0x4000_0000_0000,
        0 <= b <= 0x4000_0000_0000,
        0 <= c <= 0x800_0000,
    ensures
        0 <= a * b <= 0x1000_0000_0000_0000_0000_0000,
        0 <= a * b * c <= 0x80_0000_0000_0000_0000_0000_0000_0000,
{
    assert(0 <= a * b <= 0x1000_0000_0000_0000_0000_0000) by (nonlinear_arith)
        requires
            0 <= a <= 0x4000_0000_0000,
            0 <= b <= 0x4000_0000_0000,
    ;
    let ab = a * b;
    assert(0 <= ab * c <= 0x80_0000_0000_0000_0000_0000_0000_0000) by (nonlinear_arith)
        requires
            0 <= ab <= 0x1000_0000_0000_0000_0000_0000,
            0 <= c <= 0x800_0000,
    ;
}

proof fn lemma_signed_product(a: int, b: int, c: int)
    requires
        0 <= a <= 0x4000_0000_0000,
        0 <= b <= 0x4000_0000_0000,
        -0x800_0000 <= c <= 0x800_0000,
    ensures
        0 <= a * b <= 0x1000_0000_0000_0000_0000_0000,
        -0x80_0000_0000_0000_0000_0000_0000_0000 <= a * b * c
            <= 0x80_0000_0000_0000_0000_0000_0000_0000,
{
    lemma_product(a, b, 0);
    let ab = a * b;
    assert(-0x80_0000_0000_0000_0000_0000_0000_0000 <= ab * c
        <= 0x80_0000_0000_0000_0000_0000_0000_0000) by (nonlinear_arith)
        requires
            0 <= ab <= 0x1000_0000_0000_0000_0000_0000,
            -0x800_0000 <= c <= 0x800_0000,
    ;
}

proof fn lemma_pair(a: int, b: int)
    requires
        0 <= a <= 0x4000_0000_0000,
        0 <= b <= 0x4000_0000_0000,
    ensures
        0 <= a * b <= 0x1000_0000_0000_0000_0000_0000,
{
    lemma_product(a, b, 0);
}

proof fn lemma_abs_product(price: int, held: int)
    requires
        price >= 0,
    ensures
        math::abs_int(price * held) == price * math::abs_int(held),
{
    if held >= 0 {
        assert(price * held >= 0) by (nonlinear_arith)
            requires
                price >= 0,
                held >= 0,
        ;
    } else {
        assert(price * held <= 0) by (nonlinear_arith)
            requires
                price >= 0,
                held < 0,
        ;
        assert(-(price * held) == price * (-held)) by (nonlinear_arith);
    }
}

/// Executing a signal neutralizes the portfolio: where the delta is `d` units
/// and the hedge of a symbol grows by the signalled `-d`, as an execution
/// records it, the delta is then zero.
pub proof fn law_hedge_neutralizes(
    positions: Seq<OptionPosition>,
    deltas: Seq<i64>,
    before: Seq<HedgePosition>,
    after: Seq<HedgePosition>,
    place: int,
    d: int,
)
    requires
        portfolio_delta(positions, deltas, before) == d * ONE,
        0 <= place <= before.len(),
        place < before.len() ==> after.len() == before.len() && after[place].quantity
            == before[place].quantity - d && (forall|i: int|
            0 <= i < before.len() && i != place ==> #[trigger] after[i] == before[i]),
        place == before.len() ==> after.len() == before.len() + 1 && after.drop_last() == before
            && after.last().quantity == -d,
    ensures
        portfolio_delta(positions, deltas, after) == 0,
{
    if place < before.len() {
        lemma_hedge_change(before, after, place);
        let x = before[place].quantity;
        let y = after[place].quantity;
        assert(y - x == -d);
    }
    assert(total_hedge(after) == total_hedge(before) - d);
}

proof fn lemma_hedge_change(before: Seq<HedgePosition>, after: Seq<HedgePosition>, place: int)
    requires
        0 <= place < before.len(),
        after.len() == before.len(),
        forall|i: int| 0 <= i < before.len() && i != place ==> #[trigger] after[i] == before[i],
    ensures
        total_hedge(after) == total_hedge(before) + after[place].quantity - before[place].quantity,
    decreases before.len(),
{
    let (b, a) = (before.drop_last(), after.drop_last());
    if place == before.len() - 1 {
        assert(a =~= b);
    } else {
        assert forall|i: int| 0 <= i < b.len() && i != place implies #[trigger] a[i] == b[i] by {
            assert(after[i] == before[i]);
        }
        assert(after[before.len() - 1] == before[before.len() - 1]);
        lemma_hedge_change(b, a, place);
    }
}

/// What a long position pays in funding, a short one of the same size receives.
pub proof fn law_funding_mirrors(long: HedgePosition, short: HedgePosition, rate: i64)
    requires
        long.quantity > 0,
        short.quantity == -long.quantity,
        long.entry_price == short.entry_price,
    ensures
        funding_of(long, rate) + funding_of(short, rate) == 0,
{
}

/// Removing an option leaves every other position, in their order.
pub proof fn law_removal_leaves_the_others(
    s: Seq<OptionPosition>,
    t: Seq<OptionPosition>,
    p: OptionPosition,
    symbol: Seq<char>,
    strike: u64,
    option_type: OptionType,
)
    ensures
        without_option(s + t, symbol, strike, option_type) == without_option(
            s,
            symbol,
            strike,
            option_type,
        ) + without_option(t, symbol, strike, option_type),
        p.symbol@ == symbol && p.strike == strike && p.option_type == option_type
            ==> without_option(seq![p], symbol, strike, option_type).len() == 0,
        p.symbol@ != symbol || p.strike != strike || p.option_type != option_type
            ==> without_option(seq![p], symbol, strike, option_type) == seq![p],
    decreases t.len(),
{
    assert(seq![p].drop_last() =~= Seq::<OptionPosition>::empty());
    reveal_with_fuel(without_option, 2);
    if !is_option(p, symbol, strike, option_type) {
        assert(without_option(seq![p], symbol, strike, option_type) =~= seq![p]);
    }
    let a = without_option(s, symbol, strike, option_type);
    if t.len() == 0 {
        assert(s + t =~= s);
        assert(a + t =~= a);
    } else {
        law_removal_leaves_the_others(s, t.drop_last(), p, symbol, strike, option_type);
        assert((s + t).drop_last() =~= s + t.drop_last());
        assert(without_option(s + t, symbol, strike, option_type) =~= a + without_option(
            t,
            symbol,
            strike,
            option_type,
        ));
    }
}

/// A trade costs the taker's share of its value, but at least the least fee,
/// whichever way it goes.
pub proof fn law_fee_is_share_or_least(quantity: int, price: u64, fees: FeeStructure)
    requires
        quantity >= 0,
    ensures
        ({
            let share = quantity * price * fees.taker_fee;
            let least = fees.min_fee * 10_000_000_000_000_000;
            let fee = trade_fee(quantity, price, fees);
            &&& fee >= share
            &&& fee >= least
            &&& fee == share || fee == least
            &&& trade_fee(-quantity, price, fees) == fee
        }),
{
}

/// The standard fees are two hundredths of a percent for makers, four for
/// takers, and a ten-thousandth at least.
pub proof fn law_standard_fees()
    ensures
        standard_fees().maker_fee * 10_000 == 2 * ONE,
        standard_fees().taker_fee * 10_000 == 4 * ONE,
        standard_fees().min_fee * 10_000 == ONE,
{
}

/// Funding is quantity times price times rate: a long position pays where the
/// rate is above zero, and a short one receives. Positions add up.
pub proof fn law_funding_is_signed_value(
    s: Seq<HedgePosition>,
    t: Seq<HedgePosition>,
    p: HedgePosition,
    rate: i64,
)
    ensures
        funding_of(p, rate) == (p.quantity * p.entry_price) * rate,
        total_funding(s + t, rate) == total_funding(s, rate) + total_funding(t, rate),
        total_funding(seq![p], rate) == funding_of(p, rate),
    decreases t.len(),
{
    let (q, e, r) = (p.quantity as int, p.entry_price as int, rate as int);
    assert(q <= 0 ==> -((-q) * e * r) == (q * e) * r) by (nonlinear_arith);
    assert(q > 0 ==> q * e * r == (q * e) * r) by (nonlinear_arith);
    if q == 0 {
        assert(0 * e * r == 0) by (nonlinear_arith);
    }
    assert(seq![p].drop_last() =~= Seq::<HedgePosition>::empty());
    reveal_with_fuel(total_funding, 2);
    if t.len() == 0 {
        assert(s + t =~= s);
    } else {
        law_funding_is_signed_value(s, t.drop_last(), p, rate);
        assert((s + t).drop_last() =~= s + t.drop_last());
    }
}

/// The place of a hedge is the first of its symbol, or the end where there is
/// none.
pub proof fn law_first_hedge_of_symbol(s: Seq<HedgePosition>, symbol: Seq<char>, i: int)
    requires
        0 <= i <= s.len(),
    ensures
        ({
            let p = hedge_place(s, symbol, i);
            &&& i <= p <= s.len()
            &&& p < s.len() ==> s[p].symbol@ == symbol
            &&& forall|k: int| i <= k < p ==> (#[trigger] s[k]).symbol@ != symbol
        }),
    decreases s.len() - i,
{
    if i < s.len() && s[i].symbol@ != symbol {
        law_first_hedge_of_symbol(s, symbol, i + 1);
    }
}

/// The entry price after a trade is the value of what was held and of what was
/// traded, whichever way, over the size that is left, rounded down; where both
/// go the same way it lies between the two prices. A position that is closed
/// keeps its price.
pub proof fn law_entry_price_is_mean(price: u64, held: int, quantity: int, trade_price: u64)
    ensures
        ({
            let size = math::abs_int(held + quantity);
            let e = entry_after(price, held, quantity, trade_price);
            let value = price * math::abs_int(held) + trade_price * math::abs_int(quantity);
            let same = (held >= 0 && quantity >= 0) || (held <= 0 && quantity <= 0);
            &&& size > 0 ==> e * size <= value < (e + 1) * size
            &&& size > 0 && same ==> math::min_int(price as int, trade_price as int) <= e
                <= math::max_int(price as int, trade_price as int)
            &&& size == 0 ==> e == price
        }),
{
    let (x, y) = (math::abs_int(held), math::abs_int(quantity));
    let size = math::abs_int(held + quantity);
    let (p, t) = (price as int, trade_price as int);
    let ph = price * held;
    assert(math::abs_int(ph) == p * x) by {
        assert(held < 0 ==> -(p * held) == p * x) by (nonlinear_arith)
            requires
                held < 0 ==> x == -held,
        ;
        assert(p * x >= 0) by (nonlinear_arith)
            requires
                p >= 0,
                x >= 0,
        ;
    }
    if size > 0 {
        let value = p * x + t * y;
        let e = value / size;
        vstd::arithmetic::div_mod::lemma_fundamental_div_mod(value, size);
        vstd::arithmetic::div_mod::lemma_mod_bound(value, size);
        assert(e * size == size * e && (e + 1) * size == size * e + size) by (nonlinear_arith);
        if size == x + y {
            let (lo, hi) = (math::min_int(p, t), math::max_int(p, t));
            assert(lo * size <= value <= hi * size) by (nonlinear_arith)
                requires
                    value == p * x + t * y,
                    size == x + y,
                    lo <= p <= hi,
                    lo <= t <= hi,
                    x >= 0,
                    y >= 0,
            ;
            assert(lo <= e <= hi) by (nonlinear_arith)
                requires
                    size > 0,
                    lo * size <= value <= hi * size,
                    value == size * e + value % size,
                    0 <= value % size < size,
            ;
        }
    }
}

/// Figures weigh by the quantity of their position and hedges count in full:
/// one more position or hedge adds its own to the delta of the portfolio.
pub proof fn law_delta_adds_positions(
    positions: Seq<OptionPosition>,
    deltas: Seq<i64>,
    hedges: Seq<HedgePosition>,
    p: OptionPosition,
    d: i64,
    h: HedgePosition,
)
    requires
        deltas.len() == positions.len(),
    ensures
        portfolio_delta(Seq::empty(), Seq::empty(), Seq::empty()) == 0,
        portfolio_delta(positions.push(p), deltas.push(d), hedges) == portfolio_delta(
            positions,
            deltas,
            hedges,
        ) + d * p.quantity,
        portfolio_delta(positions, deltas, hedges.push(h)) == portfolio_delta(
            positions,
            deltas,
            hedges,
        ) + h.quantity * 100_000_000,
        weighted_total(positions.push(p), deltas.push(d)) == weighted_total(positions, deltas) + d
            * p.quantity,
{
    assert(positions.push(p).drop_last() =~= positions);
    assert(hedges.push(h).drop_last() =~= hedges);
    lemma_figures_prefix(positions, deltas, deltas.push(d));
}

proof fn lemma_figures_prefix(s: Seq<OptionPosition>, a: Seq<i64>, b: Seq<i64>)
    requires
        s.len() <= a.len(),
        s.len() <= b.len(),
        forall|i: int| 0 <= i < s.len() ==> #[trigger] a[i] == b[i],
    ensures
        weighted_total(s, a) == weighted_total(s, b),
    decreases s.len(),
{
    if s.len() > 0 {
        lemma_figures_prefix(s.drop_last(), a, b);
        assert(a[s.len() - 1] == b[s.len() - 1]);
    }
}

} // verus!
