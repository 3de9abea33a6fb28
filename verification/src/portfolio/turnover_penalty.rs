//! Turnover penalties: how much a rebalance would trade, what that costs in
//! fees and slippage, and whether it may go ahead.
use crate::math;
use crate::math::{min_usize, Ratio};
use crate::portfolio::budget::MemoryBudget;
use vstd::prelude::*;

verus! {

/// Memory budget for turnover tracking (500MB)
pub const TURNOVER_MEMORY_BUDGET: u64 = 524_288_000;

/// Maximum tracked assets
pub const MAX_TRACKED_ASSETS: usize = 300;

/// Maximum history length for turnover tracking
pub const MAX_HISTORY_LENGTH: usize = 1000;

/// Taker fee, in basis points
pub const BINANCE_TAKER_FEE_BPS: u64 = 10;

/// Slippage per unit of turnover, in basis points
pub const ESTIMATED_SLIPPAGE_BPS: u64 = 5;

/// Units of one
pub const ONE: u64 = 100_000_000;

/// Largest turnover for which sums of squares are exact
pub const MAX_TURNOVER: u64 = 0x4_0000_0000_0000;

/// Largest penalty threshold for which comparisons are exact
pub const MAX_THRESHOLD: u64 = 0x40_0000_0000;

/// Longest interval between rebalances, in seconds
pub const MAX_INTERVAL_SECONDS: u64 = 0x1_0000_0000;

/// The variance of a sample, kept unreduced.
#[derive(Debug, Clone, Copy, PartialEq, Eq, Structural)]
pub struct Variance {
    pub num: u128,
    pub den: u64,
}

/// The sum of turnovers.
pub open spec fn total(s: Seq<u64>) -> int
    decreases s.len(),
{
    if s.len() == 0 {
        0
    } else {
        total(s.drop_last()) + s.last()
    }
}

/// The sum of the squares of turnovers.
pub open spec fn total_sq(s: Seq<u64>) -> int
    decreases s.len(),
{
    if s.len() == 0 {
        0
    } else {
        total_sq(s.drop_last()) + s.last() * s.last()
    }
}

/// The last `n` records, or all where there are fewer.
pub open spec fn latest(s: Seq<u64>, n: int) -> Seq<u64> {
    if n >= s.len() {
        s
    } else {
        s.subrange(s.len() - n, s.len() as int)
    }
}

/// The mean of records, or zero where there are none.
pub open spec fn mean_of(s: Seq<u64>) -> Ratio {
    if s.len() == 0 {
        Ratio { num: 0, den: 1 }
    } else {
        Ratio { num: total(s) as u64, den: s.len() as u64 }
    }
}

/// Turnovers after one more: the oldest leaves a full history.
pub open spec fn recorded(s: Seq<u64>, capacity: int, turnover: u64) -> Seq<u64> {
    if s.len() < capacity {
        s.push(turnover)
    } else {
        s.subrange(1, s.len() as int).push(turnover)
    }
}

/// Bytes that a tracker takes.
pub open spec fn tracker_memory(history: int, n_assets: int) -> int {
    history * 8 + n_assets * 16
}

proof fn lemma_push_totals(s: Seq<u64>, x: u64)
    ensures
        total(s.push(x)) == total(s) + x,
        total_sq(s.push(x)) == total_sq(s) + x * x,
{
    assert(s.push(x).drop_last() =~= s);
}

proof fn lemma_first_totals(s: Seq<u64>)
    requires
        s.len() > 0,
    ensures
        total(s) == s[0] + total(s.subrange(1, s.len() as int)),
        total_sq(s) == s[0] * s[0] + total_sq(s.subrange(1, s.len() as int)),
    decreases s.len(),
{
    let rest = s.subrange(1, s.len() as int);
    if s.len() == 1 {
        assert(rest =~= Seq::<u64>::empty());
        assert(s.drop_last() =~= Seq::<u64>::empty());
    } else {
        lemma_first_totals(s.drop_last());
        assert(s.drop_last().subrange(1, s.len() - 1) =~= rest.drop_last());
    }
}

/// Turnovers within the limit have sums within theirs.
proof fn lemma_total_bounds(s: Seq<u64>)
    requires
        forall|i: int| 0 <= i < s.len() ==> #[trigger] s[i] <= MAX_TURNOVER,
    ensures
        0 <= total(s) <= s.len() * 0x4_0000_0000_0000,
        0 <= total_sq(s) <= s.len() * 0x10_0000_0000_0000_0000_0000_0000,
    decreases s.len(),
{
    if s.len() > 0 {
        let t = s.drop_last();
        assert forall|i: int| 0 <= i < t.len() implies #[trigger] t[i] <= MAX_TURNOVER by {
            assert(t[i] == s[i]);
        }
        lemma_total_bounds(t);
        let x = s.last() as int;
        assert(s[s.len() - 1] <= MAX_TURNOVER);
        assert(0 <= x * x <= 0x10_0000_0000_0000_0000_0000_0000) by (nonlinear_arith)
            requires
                0 <= x <= 0x4_0000_0000_0000,
        ;
    }
}

/// Records less a value, squared and summed.
spec fn total_dev(s: Seq<u64>, x: int) -> int
    decreases s.len(),
{
    if s.len() == 0 {
        0
    } else {
        total_dev(s.drop_last(), x) + (s.last() - x) * (s.last() - x)
    }
}

proof fn lemma_dev(s: Seq<u64>, x: int)
    ensures
        total_dev(s, x) == total_sq(s) - 2 * x * total(s) + s.len() * (x * x),
        total_dev(s, x) >= 0,
    decreases s.len(),
{
    if s.len() > 0 {
        lemma_dev(s.drop_last(), x);
        let (y, t, n) = (s.last() as int, total(s.drop_last()), s.drop_last().len() as int);
        assert((y - x) * (y - x) >= 0) by (nonlinear_arith);
        assert((y - x) * (y - x) == y * y - 2 * x * y + x * x) by (nonlinear_arith);
        assert(2 * x * (t + y) == 2 * x * t + 2 * x * y) by (nonlinear_arith);
        assert((n + 1) * (x * x) == n * (x * x) + x * x) by (nonlinear_arith);
    } else {
        assert(2 * x * 0 == 0) by (nonlinear_arith);
        assert(0 * (x * x) == 0) by (nonlinear_arith);
    }
}

/// A variance is never negative: the square of a sum is at most the number of
/// terms times the sum of their squares.
pub proof fn law_variance_nonnegative(s: Seq<u64>)
    ensures
        total(s) * total(s) <= s.len() * total_sq(s),
    decreases s.len(),
{
    if s.len() > 0 {
        let t = s.drop_last();
        law_variance_nonnegative(t);
        let x = s.last() as int;
        lemma_dev(t, x);
        let (a, q, n) = (total(t), total_sq(t), t.len() as int);
        assert((a + x) * (a + x) == a * a + 2 * x * a + x * x) by (nonlinear_arith);
        assert((n + 1) * (q + x * x) == n * q + q + n * (x * x) + x * x) by (nonlinear_arith);
    } else {
        assert(total(s) * total(s) == 0) by (nonlinear_arith)
            requires
                total(s) == 0,
        ;
        assert(s.len() * total_sq(s) == 0) by (nonlinear_arith)
            requires
                s.len() == 0,
        ;
    }
}

/// Turnover statistics tracker with bounded history
pub struct TurnoverTracker {
    /// Turnovers, oldest first
    pub turnover_history: Vec<u64>,
    /// Most turnovers kept
    pub capacity: usize,
    /// Running sum for the mean
    pub running_sum: u64,
    /// Running sum of squares for the variance
    pub running_sum_sq: u128,
    /// Number of assets being tracked
    pub n_assets: usize,
}

impl TurnoverTracker {
    pub open spec fn wf(&self) -> bool {
        &&& self.turnover_history.len() <= self.capacity <= MAX_HISTORY_LENGTH
        &&& self.n_assets <= MAX_TRACKED_ASSETS
        &&& forall|i: int|
            0 <= i < self.turnover_history.len() ==> #[trigger] self.turnover_history@[i]
                <= MAX_TURNOVER
        &&& self.running_sum == total(self.turnover_history@)
        &&& self.running_sum_sq == total_sq(self.turnover_history@)
    }

    /// Create a new turnover tracker with memory validation
    pub fn new(n_assets: usize, history_length: usize, budget: &mut MemoryBudget) -> (r: Result<
        Self,
        &'static str,
    >)
        requires
            old(budget).wf(),
        ensures
            final(budget).wf(),
            ({
                let history = math::min_int(history_length as int, MAX_HISTORY_LENGTH as int);
                let memory = tracker_memory(history, n_assets as int) as u64;
                match r {
                    Ok(t) => {
                        &&& n_assets <= MAX_TRACKED_ASSETS
                        &&& old(budget).admits(memory)
                        &&& *final(budget) == (MemoryBudget {
                            used: (old(budget).used + memory) as u64,
                            ..*old(budget)
                        })
                        &&& t.wf()
                        &&& t.turnover_history.len() == 0
                        &&& t.capacity == history
                        &&& t.n_assets == n_assets
                    },
                    Err(e) => {
                        &&& *final(budget) == *old(budget)
                        &&& if n_assets > MAX_TRACKED_ASSETS {
                            e@ == "Asset count exceeds maximum for turnover tracking"@
                        } else {
                            &&& !old(budget).admits(memory)
                            &&& e@ == "Memory budget exceeded for turnover tracking"@
                        }
                    },
                }
            }),
    {
        if n_assets > MAX_TRACKED_ASSETS {
            return Err("Asset count exceeds maximum for turnover tracking");
        }
        let capacity: usize = min_usize(history_length, MAX_HISTORY_LENGTH);
        let memory: u64 = capacity as u64 * 8 + n_assets as u64 * 16;
        if !budget.reserve(memory) {
            return Err("Memory budget exceeded for turnover tracking");
        }
        Ok(
            TurnoverTracker {
                turnover_history: Vec::new(),
                capacity,
                running_sum: 0,
                running_sum_sq: 0,
                n_assets,
            },
        )
    }

    /// Give back what the tracker reserved
    pub fn release(self, budget: &mut MemoryBudget)
        requires
            self.wf(),
            old(budget).wf(),
            old(budget).used >= tracker_memory(self.capacity as int, self.n_assets as int),
        ensures
            final(budget).wf(),
            *final(budget) == (MemoryBudget {
                used: (old(budget).used - tracker_memory(
                    self.capacity as int,
                    self.n_assets as int,
                )) as u64,
                ..*old(budget)
            }),
    {
        budget.release(self.capacity as u64 * 8 + self.n_assets as u64 * 16);
    }

    /// Record a new turnover value
    pub fn record_turnover(&mut self, turnover: u64)
        requires
            old(self).wf(),
            old(self).capacity > 0,
            turnover <= MAX_TURNOVER,
        ensures
            final(self).wf(),
            final(self).turnover_history@ == recorded(
                old(self).turnover_history@,
                old(self).capacity as int,
                turnover,
            ),
            final(self).capacity == old(self).capacity,
            final(self).n_assets == old(self).n_assets,
    {
        let ghost all = self.turnover_history@;
        proof {
            lemma_total_bounds(all);
        }
        if self.turnover_history.len() == self.capacity {
            proof {
                lemma_first_totals(all);
                lemma_total_bounds(all.subrange(1, all.len() as int));
                assert(all[0] <= MAX_TURNOVER);
                assert(0 <= all[0] * all[0] <= 0x10_0000_0000_0000_0000_0000_0000)
                    by (nonlinear_arith)
                    requires
                        0 <= all[0] <= 0x4_0000_0000_0000,
                ;
            }
            let oldest: u64 = self.turnover_history.remove(0);
            assert(self.turnover_history@ =~= all.subrange(1, all.len() as int));
            self.running_sum = self.running_sum - oldest;
            self.running_sum_sq = self.running_sum_sq - oldest as u128 * oldest as u128;
        }
        proof {
            lemma_push_totals(self.turnover_history@, turnover);
            lemma_total_bounds(self.turnover_history@);
            assert(0 <= turnover * turnover <= 0x10_0000_0000_0000_0000_0000_0000)
                by (nonlinear_arith)
                requires
                    0 <= turnover <= 0x4_0000_0000_0000,
            ;
        }
        self.running_sum = self.running_sum + turnover;
        self.running_sum_sq = self.running_sum_sq + turnover as u128 * turnover as u128;
        self.turnover_history.push(turnover);
    }

    /// Get mean turnover over history
    pub fn mean_turnover(&self) -> (r: Ratio)
        requires
            self.wf(),
        ensures
            r == mean_of(self.turnover_history@),
            r.den > 0,
    {
        if self.turnover_history.len() == 0 {
            return Ratio { num: 0, den: 1 };
        }
        Ratio { num: self.running_sum, den: self.turnover_history.len() as u64 }
    }

    /// Get turnover variance, whose square root is the volatility; zero where
    /// there are fewer than two records
    pub fn turnover_variance(&self) -> (r: Variance)
        requires
            self.wf(),
        ensures
            ({
                let s = self.turnover_history@;
                if s.len() < 2 {
                    r == (Variance { num: 0, den: 1 })
                } else {
                    &&& r.num == s.len() * total_sq(s) - total(s) * total(s)
                    &&& r.den == s.len() * s.len()
                }
            }),
    {
        let n: usize = self.turnover_history.len();
        if n < 2 {
            return Variance { num: 0, den: 1 };
        }
        let sum: u128 = self.running_sum as u128;
        proof {
            let s = self.turnover_history@;
            law_variance_nonnegative(s);
            lemma_total_bounds(s);
            self.lemma_wide();
        }
        Variance {
            num: n as u128 * self.running_sum_sq - sum * sum,
            den: n as u64 * n as u64,
        }
    }

    /// The products that statistics are made of fit the wide type.
    proof fn lemma_wide(&self)
        requires
            self.wf(),
        ensures
            ({
                let (n, a, q) = (
                    self.turnover_history.len() as int,
                    self.running_sum as int,
                    self.running_sum_sq as int,
                );
                &&& 0 <= n * n <= 1_000_000
                &&& 0 <= n * q <= 0x10_0000_0000_0000_0000_0000_0000 * 1_000_000
                &&& 0 <= a * a <= 0x10_0000_0000_0000_0000_0000_0000 * 1_000_000
            }),
    {
        lemma_total_bounds(self.turnover_history@);
        law_variance_nonnegative(self.turnover_history@);
        let (n, a, q) = (
            self.turnover_history.len() as int,
            self.running_sum as int,
            self.running_sum_sq as int,
        );
        assert(0 <= n * n <= 1_000_000) by (nonlinear_arith)
            requires
                0 <= n <= 1000,
        ;
        assert(0 <= n * q <= 0x10_0000_0000_0000_0000_0000_0000 * 1_000_000) by (nonlinear_arith)
            requires
                0 <= n <= 1000,
                0 <= q <= n * 0x10_0000_0000_0000_0000_0000_0000,
        ;
        assert(0 <= a * a) by (nonlinear_arith);
    }

    /// Get recent turnover trend (mean of the last N records)
    pub fn recent_trend(&self, n: usize) -> (r: Ratio)
        requires
            self.wf(),
        ensures
            r == mean_of(latest(self.turnover_history@, n as int)),
            r.den > 0,
            r.den <= MAX_HISTORY_LENGTH,
            r.num <= r.den * MAX_TURNOVER,
    {
        let len: usize = self.turnover_history.len();
        let count: usize = min_usize(n, len);
        let ghost s = latest(self.turnover_history@, n as int);
        if count == 0 {
            return Ratio { num: 0, den: 1 };
        }
        let mut sum: u64 = 0;
        let mut i: usize = 0;
        assert(s.subrange(0, 0) =~= Seq::<u64>::empty());
        while i < count
            invariant
                i <= count <= len,
                len <= MAX_HISTORY_LENGTH,
                len == self.turnover_history.len(),
                count == s.len(),
                s == self.turnover_history@.subrange(len - count, len as int),
                forall|k: int| 0 <= k < s.len() ==> #[trigger] s[k] <= MAX_TURNOVER,
                sum == total(s.subrange(0, i as int)),
                sum <= i * MAX_TURNOVER,
            decreases count - i,
        {
            proof {
                lemma_push_totals(s.subrange(0, i as int), s[i as int]);
                assert(s.subrange(0, i as int).push(s[i as int]) =~= s.subrange(0, i + 1));
            }
            sum = sum + self.turnover_history[len - count + i];
            i = i + 1;
        }
        assert(s.subrange(0, i as int) =~= s);
        Ratio { num: sum, den: count as u64 }
    }

    /// Check if current turnover is above historical average by threshold
    pub fn is_elevated(&self, threshold_multiplier: Ratio) -> (r: bool)
        requires
            self.wf(),
            0 < threshold_multiplier.den <= u32::MAX,
            threshold_multiplier.num <= u32::MAX,
        ensures
            ({
                let mean = mean_of(self.turnover_history@);
                let recent = mean_of(latest(self.turnover_history@, 10));
                r == (recent.num * mean.den * threshold_multiplier.den > mean.num
                    * threshold_multiplier.num * recent.den)
            }),
    {
        let mean: Ratio = self.mean_turnover();
        let recent: Ratio = self.recent_trend(10);
        proof {
            lemma_total_bounds(self.turnover_history@);
            lemma_cross(
                recent.num as int,
                mean.den as int,
                threshold_multiplier.den as int,
            );
            lemma_cross(
                mean.num as int,
                recent.den as int,
                threshold_multiplier.num as int,
            );
            let (a, b, c) = (
                mean.num as int,
                threshold_multiplier.num as int,
                recent.den as int,
            );
            assert(a * b * c == a * c * b) by (nonlinear_arith);
            assert(0 <= a * b <= 0x1000_0000_0000_0000 * 0x1_0000_0000) by (nonlinear_arith)
                requires
                    0 <= a <= 0x1000_0000_0000_0000,
                    0 <= b <= 0x1_0000_0000,
            ;
        }
        recent.num as u128 * mean.den as u128 * threshold_multiplier.den as u128 > mean.num as u128
            * threshold_multiplier.num as u128 * recent.den as u128
    }
}

proof fn lemma_cross(a: int, b: int, c: int)
    requires
        0 <= a <= 1000 * 0x4_0000_0000_0000,
        0 <= b <= 1000,
        0 <= c <= 0x1_0000_0000,
    ensures
        0 <= a * b <= 1_000_000 * 0x4_0000_0000_0000,
        0 <= a * b * c <= 1_000_000 * 0x4_0000_0000_0000 * 0x1_0000_0000,
{
    assert(0 <= a * b <= 1_000_000 * 0x4_0000_0000_0000) by (nonlinear_arith)
        requires
            0 <= a <= 1000 * 0x4_0000_0000_0000,
            0 <= b <= 1000,
    ;
    let ab = a * b;
    assert(0 <= ab * c <= 1_000_000 * 0x4_0000_0000_0000 * 0x1_0000_0000) by (nonlinear_arith)
        requires
            0 <= ab <= 1_000_000 * 0x4_0000_0000_0000,
            0 <= c <= 0x1_0000_0000,
    ;
}

/// What changes between two weights.
pub open spec fn change(current: i64, proposed: i64) -> int {
    math::abs_int(proposed - current)
}

/// The turnover of a rebalance: the changes of the weights that both have,
/// summed.
pub open spec fn turnover_of(current: Seq<i64>, proposed: Seq<i64>) -> int
    decreases current.len(), proposed.len(),
{
    if current.len() == 0 || proposed.len() == 0 {
        0
    } else if current.len() > proposed.len() {
        turnover_of(current.drop_last(), proposed)
    } else if current.len() < proposed.len() {
        turnover_of(current, proposed.drop_last())
    } else {
        turnover_of(current.drop_last(), proposed.drop_last()) + change(
            current.last(),
            proposed.last(),
        )
    }
}

/// The turnover of the first `n` weights.
proof fn lemma_turnover_prefix(current: Seq<i64>, proposed: Seq<i64>, n: int)
    requires
        0 <= n <= current.len(),
        n <= proposed.len(),
    ensures
        0 <= turnover_of(current.subrange(0, n), proposed.subrange(0, n)) <= turnover_of(
            current,
            proposed,
        ),
        n == math::min_int(current.len() as int, proposed.len() as int) ==> turnover_of(
            current.subrange(0, n),
            proposed.subrange(0, n),
        ) == turnover_of(current, proposed),
    decreases current.len(), proposed.len(),
{
    if current.len() == 0 || proposed.len() == 0 {
    } else if current.len() > proposed.len() {
        lemma_turnover_prefix(current.drop_last(), proposed, n);
        assert(current.drop_last().subrange(0, n) =~= current.subrange(0, n));
    } else if current.len() < proposed.len() {
        lemma_turnover_prefix(current, proposed.drop_last(), n);
        assert(proposed.drop_last().subrange(0, n) =~= proposed.subrange(0, n));
    } else if n == current.len() {
        assert(current.subrange(0, n) =~= current);
        assert(proposed.subrange(0, n) =~= proposed);
        lemma_turnover_prefix(current.drop_last(), proposed.drop_last(), n - 1);
        assert(current.drop_last().subrange(0, n - 1) =~= current.drop_last());
        assert(proposed.drop_last().subrange(0, n - 1) =~= proposed.drop_last());
    } else {
        lemma_turnover_prefix(current.drop_last(), proposed.drop_last(), n);
        assert(current.drop_last().subrange(0, n) =~= current.subrange(0, n));
        assert(proposed.drop_last().subrange(0, n) =~= proposed.subrange(0, n));
    }
}

/// Sum of absolute weight changes
pub fn measure_turnover(current_weights: &Vec<i64>, proposed_weights: &Vec<i64>) -> (r: u64)
    requires
        turnover_of(current_weights@, proposed_weights@) <= MAX_TURNOVER,
    ensures
        r == turnover_of(current_weights@, proposed_weights@),
{
    let n: usize = min_usize(current_weights.len(), proposed_weights.len());
    let mut sum: u64 = 0;
    let mut i: usize = 0;
    assert(current_weights@.subrange(0, 0) =~= Seq::<i64>::empty());
    while i < n
        invariant
            i <= n,
            n == math::min_int(current_weights.len() as int, proposed_weights.len() as int),
            turnover_of(current_weights@, proposed_weights@) <= MAX_TURNOVER,
            sum == turnover_of(
                current_weights@.subrange(0, i as int),
                proposed_weights@.subrange(0, i as int),
            ),
        decreases n - i,
    {
        proof {
            lemma_turnover_prefix(current_weights@, proposed_weights@, i + 1);
            let c = current_weights@.subrange(0, i + 1);
            let p = proposed_weights@.subrange(0, i + 1);
            assert(c.drop_last() =~= current_weights@.subrange(0, i as int));
            assert(p.drop_last() =~= proposed_weights@.subrange(0, i as int));
        }
        let c: i64 = current_weights[i];
        let p: i64 = proposed_weights[i];
        let d: u64 = if p >= c {
            (p as i128 - c as i128) as u64
        } else {
            (c as i128 - p as i128) as u64
        };
        sum = sum + d;
        i = i + 1;
    }
    proof {
        lemma_turnover_prefix(current_weights@, proposed_weights@, n as int);
    }
    sum
}

/// The penalty on a proposed weight change.
#[derive(Debug, Clone, Copy, PartialEq, Eq, Structural)]
pub enum Penalty {
    /// None at all
    Free,
    /// More than any threshold
    Prohibitive,
    /// Too soon after the last rebalance: the coefficient times interval over
    /// elapsed time
    TooSoon { coefficient: u128, interval_ns: u64, elapsed_ns: u64 },
    /// The coefficient times factor times turnover
    Scaled { coefficient: u128, factor: u64, turnover: u64 },
}

/// The extra weight of a turnover above a tenth.
pub open spec fn turnover_factor(turnover: int) -> int {
    if turnover > 10_000_000 {
        ONE + (turnover - 10_000_000) * 5
    } else {
        ONE as int
    }
}

/// Whether a penalty is above a threshold. Coefficients are in units of one
/// over ten to the sixteenth.
pub open spec fn exceeds(penalty: Penalty, threshold: u64) -> bool {
    match penalty {
        Penalty::Free => false,
        Penalty::Prohibitive => true,
        Penalty::TooSoon { coefficient, interval_ns, elapsed_ns } => coefficient * interval_ns
            > threshold * 100_000_000 * elapsed_ns,
        Penalty::Scaled { coefficient, factor, turnover } => coefficient * (factor * turnover)
            > threshold * 1_000_000_000_000_000_000_000_000,
    }
}

impl Penalty {
    /// Whether the penalty is above a threshold
    pub fn is_above(&self, threshold: u64) -> (r: bool)
        requires
            threshold <= MAX_THRESHOLD,
            match *self {
                Penalty::TooSoon { coefficient, interval_ns, elapsed_ns } => elapsed_ns
                    < interval_ns <= MAX_INTERVAL_SECONDS * 1_000_000_000,
                _ => true,
            },
        ensures
            r == exceeds(*self, threshold),
    {
        match *self {
            Penalty::Free => false,
            Penalty::Prohibitive => true,
            Penalty::TooSoon { coefficient, interval_ns, elapsed_ns } => {
                proof {
                    let (t, e) = (threshold * 100_000_000, elapsed_ns as int);
                    assert(0 <= t * e <= 0x40_0000_0000 * 100_000_000 * (0x1_0000_0000
                        * 1_000_000_000)) by (nonlinear_arith)
                        requires
                            0 <= t <= 0x40_0000_0000 * 100_000_000,
                            0 <= e <= 0x1_0000_0000 * 1_000_000_000,
                    ;
                }
                let bound: u128 = threshold as u128 * 100_000_000 * elapsed_ns as u128;
                match coefficient.checked_mul(interval_ns as u128) {
                    Some(penalty) => penalty > bound,
                    None => true,
                }
            },
            Penalty::Scaled { coefficient, factor, turnover } => {
                proof {
                    let (f, t) = (factor as int, turnover as int);
                    assert(0 <= f * t <= 0xFFFF_FFFF_FFFF_FFFF * 0xFFFF_FFFF_FFFF_FFFF)
                        by (nonlinear_arith)
                        requires
                            0 <= f <= 0xFFFF_FFFF_FFFF_FFFF,
                            0 <= t <= 0xFFFF_FFFF_FFFF_FFFF,
                    ;
                }
                let bound: u128 = threshold as u128 * 1_000_000_000_000_000_000_000_000;
                match coefficient.checked_mul(factor as u128 * turnover as u128) {
                    Some(penalty) => penalty > bound,
                    None => true,
                }
            },
        }
    }
}

/// The cost of a turnover in fees and slippage, in units of one
/// hundred-millionth of a basis point.
pub open spec fn cost_of(turnover: int) -> int {
    turnover * 15
}

/// The multiplier after a rebalance: a tenth more, up to five, while the
/// volatility is above half the mean, and a twentieth less, down to one,
/// otherwise. Rounded down.
pub open spec fn next_multiplier(multiplier: int, history: Seq<u64>) -> int {
    if 4 * (history.len() * total_sq(history)) > 5 * (total(history) * total(history)) {
        math::min_int(multiplier * 11 / 10, 500_000_000)
    } else {
        math::max_int(multiplier * 19 / 20, 100_000_000)
    }
}

/// Turnover penalty calculator with dynamic adjustment
pub struct TurnoverPenaltyEngine {
    /// Base penalty coefficient
    pub base_penalty: u64,
    /// Dynamic multiplier based on market conditions, from one to five
    pub dynamic_multiplier: u64,
    pub tracker: TurnoverTracker,
    /// Last rebalance timestamp
    pub last_rebalance_ns: u64,
    /// Minimum time between rebalances
    pub min_rebalance_interval_ns: u64,
    /// Cumulative transaction costs (fees + slippage)
    pub cumulative_costs_bps: u64,
    /// Daily cost limit in basis points
    pub daily_cost_limit_bps: u64,
    /// Whether penalties apply
    pub penalty_enabled: bool,
}

/// Statistics snapshot for monitoring
#[derive(Debug, Clone, Copy, PartialEq, Eq, Structural)]
pub struct TurnoverStatistics {
    pub mean_turnover: Ratio,
    pub variance: Variance,
    pub recent_trend_10: Ratio,
    pub recent_trend_50: Ratio,
    pub dynamic_multiplier: u64,
    pub cumulative_costs_bps: u64,
    pub time_since_last_rebalance_ns: u64,
}

impl TurnoverPenaltyEngine {
    pub open spec fn wf(&self) -> bool {
        &&& self.tracker.wf()
        &&& self.tracker.capacity == 500
        &&& ONE <= self.dynamic_multiplier <= 5 * ONE
        &&& self.min_rebalance_interval_ns <= MAX_INTERVAL_SECONDS * 1_000_000_000
    }

    /// Time since the last rebalance.
    pub open spec fn elapsed(&self, now_ns: u64) -> u64 {
        if now_ns >= self.last_rebalance_ns {
            (now_ns - self.last_rebalance_ns) as u64
        } else {
            0
        }
    }

    /// The penalty on a proposed weight change.
    pub open spec fn penalty_of(&self, current: Seq<i64>, proposed: Seq<i64>, now_ns: u64) -> Penalty {
        let turnover = turnover_of(current, proposed);
        let coefficient = (self.base_penalty * self.dynamic_multiplier) as u128;
        if !self.penalty_enabled {
            Penalty::Free
        } else if current.len() != proposed.len() {
            Penalty::Prohibitive
        } else if self.cumulative_costs_bps + cost_of(turnover) > self.daily_cost_limit_bps {
            Penalty::Prohibitive
        } else if self.elapsed(now_ns) < self.min_rebalance_interval_ns {
            Penalty::TooSoon {
                coefficient,
                interval_ns: self.min_rebalance_interval_ns,
                elapsed_ns: self.elapsed(now_ns),
            }
        } else {
            Penalty::Scaled {
                coefficient,
                factor: turnover_factor(turnover) as u64,
                turnover: turnover as u64,
            }
        }
    }

    /// Create a new penalty engine
    pub fn new(
        base_penalty: u64,
        n_assets: usize,
        min_rebalance_seconds: u64,
        daily_cost_limit_bps: u64,
        budget: &mut MemoryBudget,
        now_ns: u64,
    ) -> (r: Result<Self, &'static str>)
        requires
            old(budget).wf(),
            min_rebalance_seconds <= MAX_INTERVAL_SECONDS,
        ensures
            final(budget).wf(),
            ({
                let memory = tracker_memory(500, n_assets as int) as u64;
                match r {
                    Ok(e) => {
                        &&& n_assets <= MAX_TRACKED_ASSETS
                        &&& old(budget).admits(memory)
                        &&& *final(budget) == (MemoryBudget {
                            used: (old(budget).used + memory) as u64,
                            ..*old(budget)
                        })
                        &&& e.wf()
                        &&& e.base_penalty == base_penalty
                        &&& e.dynamic_multiplier == ONE
                        &&& e.tracker.turnover_history.len() == 0
                        &&& e.tracker.n_assets == n_assets
                        &&& e.last_rebalance_ns == now_ns
                        &&& e.min_rebalance_interval_ns == min_rebalance_seconds * 1_000_000_000
                        &&& e.cumulative_costs_bps == 0
                        &&& e.daily_cost_limit_bps == daily_cost_limit_bps
                        &&& e.penalty_enabled
                    },
                    Err(e) => {
                        &&& *final(budget) == *old(budget)
                        &&& if n_assets > MAX_TRACKED_ASSETS {
                            e@ == "Asset count exceeds maximum for turnover tracking"@
                        } else {
                            &&& !old(budget).admits(memory)
                            &&& e@ == "Memory budget exceeded for turnover tracking"@
                        }
                    },
                }
            }),
    {
        match TurnoverTracker::new(n_assets, 500, budget) {
            Ok(tracker) => Ok(
                TurnoverPenaltyEngine {
                    base_penalty,
                    dynamic_multiplier: ONE,
                    tracker,
                    last_rebalance_ns: now_ns,
                    min_rebalance_interval_ns: min_rebalance_seconds * 1_000_000_000,
                    cumulative_costs_bps: 0,
                    daily_cost_limit_bps,
                    penalty_enabled: true,
                },
            ),
            Err(e) => Err(e),
        }
    }

    /// Calculate penalty for proposed weight change
    pub fn calculate_penalty(
        &self,
        current_weights: &Vec<i64>,
        proposed_weights: &Vec<i64>,
        now_ns: u64,
    ) -> (r: Penalty)
        requires
            self.wf(),
            turnover_of(current_weights@, proposed_weights@) <= MAX_TURNOVER,
        ensures
            r == self.penalty_of(current_weights@, proposed_weights@, now_ns),
    {
        if !self.penalty_enabled {
            return Penalty::Free;
        }
        if current_weights.len() != proposed_weights.len() {
            return Penalty::Prohibitive;
        }
        proof {
            lemma_turnover_prefix(current_weights@, proposed_weights@, 0);
            let (b, m) = (self.base_penalty as int, self.dynamic_multiplier as int);
            assert(0 <= b * m <= 0xFFFF_FFFF_FFFF_FFFF * 500_000_000) by (nonlinear_arith)
                requires
                    0 <= b <= 0xFFFF_FFFF_FFFF_FFFF,
                    0 <= m <= 500_000_000,
            ;
        }
        let turnover: u64 = measure_turnover(current_weights, proposed_weights);
        let cost: u128 = turnover as u128 * 15;
        if self.cumulative_costs_bps as u128 + cost > self.daily_cost_limit_bps as u128 {
            return Penalty::Prohibitive;
        }
        let coefficient: u128 = self.base_penalty as u128 * self.dynamic_multiplier as u128;
        let elapsed_ns: u64 = if now_ns >= self.last_rebalance_ns {
            now_ns - self.last_rebalance_ns
        } else {
            0
        };
        if elapsed_ns < self.min_rebalance_interval_ns {
            return Penalty::TooSoon {
                coefficient,
                interval_ns: self.min_rebalance_interval_ns,
                elapsed_ns,
            };
        }
        let factor: u64 = if turnover > 10_000_000 {
            ONE + (turnover - 10_000_000) * 5
        } else {
            ONE
        };
        Penalty::Scaled { coefficient, factor, turnover }
    }

    /// Apply proposed weights if penalty is acceptable
    ///
    /// Costs accumulate only up to what the type holds.
    pub fn try_rebalance(
        &mut self,
        current_weights: &Vec<i64>,
        proposed_weights: &Vec<i64>,
        max_penalty_threshold: u64,
        now_ns: u64,
    ) -> (r: Result<Vec<i64>, &'static str>)
        requires
            old(self).wf(),
            turnover_of(current_weights@, proposed_weights@) <= MAX_TURNOVER,
            max_penalty_threshold <= MAX_THRESHOLD,
        ensures
            final(self).wf(),
            ({
                let turnover = turnover_of(current_weights@, proposed_weights@);
                let penalty = old(self).penalty_of(current_weights@, proposed_weights@, now_ns);
                match r {
                    Err(e) => {
                        &&& exceeds(penalty, max_penalty_threshold)
                        &&& e@ == "Turnover penalty exceeds threshold"@
                        &&& *final(self) == *old(self)
                    },
                    Ok(w) => {
                        &&& !exceeds(penalty, max_penalty_threshold)
                        &&& w@ == proposed_weights@
                        &&& final(self).cumulative_costs_bps == math::min_int(
                            old(self).cumulative_costs_bps + cost_of(turnover),
                            u64::MAX as int,
                        )
                        &&& final(self).tracker.turnover_history@ == recorded(
                            old(self).tracker.turnover_history@,
                            500,
                            turnover as u64,
                        )
                        &&& final(self).last_rebalance_ns == now_ns
                        &&& final(self).dynamic_multiplier == next_multiplier(
                            old(self).dynamic_multiplier as int,
                            final(self).tracker.turnover_history@,
                        )
                        &&& *final(self) == (TurnoverPenaltyEngine {
                            cumulative_costs_bps: final(self).cumulative_costs_bps,
                            tracker: final(self).tracker,
                            last_rebalance_ns: final(self).last_rebalance_ns,
                            dynamic_multiplier: final(self).dynamic_multiplier,
                            ..*old(self)
                        })
                        &&& final(self).tracker.n_assets == old(self).tracker.n_assets
                    },
                }
            }),
    {
        let penalty: Penalty = self.calculate_penalty(current_weights, proposed_weights, now_ns);
        if penalty.is_above(max_penalty_threshold) {
            return Err("Turnover penalty exceeds threshold");
        }
        proof {
            lemma_turnover_prefix(current_weights@, proposed_weights@, 0);
        }
        let turnover: u64 = measure_turnover(current_weights, proposed_weights);
        self.cumulative_costs_bps = self.cumulative_costs_bps.saturating_add(turnover * 15);
        self.tracker.record_turnover(turnover);
        self.last_rebalance_ns = now_ns;
        self.update_dynamic_multiplier();
        Ok(proposed_weights.clone())
    }

    /// Update dynamic multiplier based on turnover patterns
    fn update_dynamic_multiplier(&mut self)
        requires
            old(self).wf(),
        ensures
            final(self).wf(),
            *final(self) == (TurnoverPenaltyEngine {
                dynamic_multiplier: next_multiplier(
                    old(self).dynamic_multiplier as int,
                    old(self).tracker.turnover_history@,
                ) as u64,
                ..*old(self)
            }),
            final(self).dynamic_multiplier == next_multiplier(
                old(self).dynamic_multiplier as int,
                old(self).tracker.turnover_history@,
            ),
    {
        let n: u128 = self.tracker.turnover_history.len() as u128;
        let sum: u128 = self.tracker.running_sum as u128;
        proof {
            self.tracker.lemma_wide();
        }
        if 4 * (n * self.tracker.running_sum_sq) > 5 * (sum * sum) {
            let grown: u64 = self.dynamic_multiplier * 11 / 10;
            self.dynamic_multiplier = if grown <= 5 * ONE {
                grown
            } else {
                5 * ONE
            };
        } else {
            let decayed: u64 = self.dynamic_multiplier * 19 / 20;
            self.dynamic_multiplier = if decayed >= ONE {
                decayed
            } else {
                ONE
            };
        }
    }

    /// Reset daily cost counter (call at start of each trading day)
    pub fn reset_daily_counter(&mut self)
        ensures
            *final(self) == (TurnoverPenaltyEngine { cumulative_costs_bps: 0, ..*old(self) }),
    {
        self.cumulative_costs_bps = 0;
    }

    /// Enable or disable penalty calculation
    pub fn set_penalty_enabled(&mut self, enabled: bool)
        ensures
            *final(self) == (TurnoverPenaltyEngine { penalty_enabled: enabled, ..*old(self) }),
    {
        self.penalty_enabled = enabled;
    }

    /// Get current turnover statistics
    pub fn get_statistics(&self, now_ns: u64) -> (r: TurnoverStatistics)
        requires
            self.wf(),
        ensures
            ({
                let s = self.tracker.turnover_history@;
                &&& r.mean_turnover == mean_of(s)
                &&& if s.len() < 2 {
                    r.variance == (Variance { num: 0, den: 1 })
                } else {
                    &&& r.variance.num == s.len() * total_sq(s) - total(s) * total(s)
                    &&& r.variance.den == s.len() * s.len()
                }
                &&& r.recent_trend_10 == mean_of(latest(s, 10))
                &&& r.recent_trend_50 == mean_of(latest(s, 50))
                &&& r.dynamic_multiplier == self.dynamic_multiplier
                &&& r.cumulative_costs_bps == self.cumulative_costs_bps
                &&& r.time_since_last_rebalance_ns == self.elapsed(now_ns)
            }),
    {
        TurnoverStatistics {
            mean_turnover: self.tracker.mean_turnover(),
            variance: self.tracker.turnover_variance(),
            recent_trend_10: self.tracker.recent_trend(10),
            recent_trend_50: self.tracker.recent_trend(50),
            dynamic_multiplier: self.dynamic_multiplier,
            cumulative_costs_bps: self.cumulative_costs_bps,
            time_since_last_rebalance_ns: if now_ns >= self.last_rebalance_ns {
                now_ns - self.last_rebalance_ns
            } else {
                0
            },
        }
    }
}

/// A larger turnover is never penalized less: whatever threshold stops the
/// smaller one stops the larger one too.
pub proof fn law_penalty_grows(
    coefficient: u128,
    small: u64,
    large: u64,
    threshold: u64,
)
    requires
        small <= large <= MAX_TURNOVER,
        exceeds(
            Penalty::Scaled {
                coefficient,
                factor: turnover_factor(small as int) as u64,
                turnover: small,
            },
            threshold,
        ),
    ensures
        exceeds(
            Penalty::Scaled {
                coefficient,
                factor: turnover_factor(large as int) as u64,
                turnover: large,
            },
            threshold,
        ),
{
    let (f, g) = (turnover_factor(small as int), turnover_factor(large as int));
    assert(f * small <= g * large) by (nonlinear_arith)
        requires
            0 <= f <= g,
            0 <= small <= large,
    ;
    let (x, y, c) = (f * small, g * large, coefficient as int);
    assert(c * x <= c * y) by (nonlinear_arith)
        requires
            x <= y,
            c >= 0,
    ;
}

/// The costs of a day stay within its limit: a rebalance that is let through
/// while penalties apply leaves the costs at most at the limit.
pub proof fn law_daily_limit(
    engine: TurnoverPenaltyEngine,
    current: Seq<i64>,
    proposed: Seq<i64>,
    threshold: u64,
    now_ns: u64,
)
    requires
        engine.penalty_enabled,
        !exceeds(engine.penalty_of(current, proposed, now_ns), threshold),
    ensures
        engine.cumulative_costs_bps + cost_of(turnover_of(current, proposed))
            <= engine.daily_cost_limit_bps,
{
}

/// Weights, each kept as the bits of a floating-point number
pub struct AtomicWeightUpdater {
    pub weights: Vec<u64>,
}

impl AtomicWeightUpdater {
    pub fn new(initial_weights: &Vec<u64>) -> (r: Result<Self, &'static str>)
        ensures
            match r {
                Ok(u) => initial_weights.len() <= MAX_TRACKED_ASSETS && u.weights@
                    == initial_weights@,
                Err(e) => initial_weights.len() > MAX_TRACKED_ASSETS && e@
                    == "Asset count exceeds maximum for atomic updater"@,
            },
    {
        if initial_weights.len() > MAX_TRACKED_ASSETS {
            return Err("Asset count exceeds maximum for atomic updater");
        }
        Ok(AtomicWeightUpdater { weights: initial_weights.clone() })
    }

    /// Update all weights
    pub fn update_all(&mut self, new_weights: &Vec<u64>) -> (r: Result<(), &'static str>)
        ensures
            match r {
                Ok(_) => new_weights.len() == old(self).weights.len() && final(self).weights@
                    == new_weights@,
                Err(e) => new_weights.len() != old(self).weights.len() && *final(self) == *old(self)
                    && e@ == "Weight dimension mismatch"@,
            },
    {
        if new_weights.len() != self.weights.len() {
            return Err("Weight dimension mismatch");
        }
        self.weights = new_weights.clone();
        Ok(())
    }

    /// Get snapshot of current weights
    pub fn get_snapshot(&self) -> (r: Vec<u64>)
        ensures
            r@ == self.weights@,
    {
        self.weights.clone()
    }

    /// Update single weight
    pub fn update_single(&mut self, asset_idx: usize, new_weight: u64) -> (r: Result<
        (),
        &'static str,
    >)
        ensures
            match r {
                Ok(_) => asset_idx < old(self).weights.len() && final(self).weights@
                    == old(self).weights@.update(asset_idx as int, new_weight),
                Err(e) => asset_idx >= old(self).weights.len() && *final(self) == *old(self) && e@
                    == "Invalid asset index"@,
            },
    {
        if asset_idx >= self.weights.len() {
            return Err("Invalid asset index");
        }
        self.weights.set(asset_idx, new_weight);
        Ok(())
    }
}

/// Sums of two histories in a row are the sums of both, of the values and of
/// their squares.
pub proof fn law_history_sums(s: Seq<u64>, t: Seq<u64>, x: u64)
    ensures
        total(s + t) == total(s) + total(t),
        total_sq(s + t) == total_sq(s) + total_sq(t),
        total(seq![x]) == x,
        total_sq(seq![x]) == x * x,
    decreases t.len(),
{
    assert(seq![x].drop_last() =~= Seq::<u64>::empty());
    reveal_with_fuel(total, 2);
    reveal_with_fuel(total_sq, 2);
    if t.len() == 0 {
        assert(s + t =~= s);
    } else {
        law_history_sums(s, t.drop_last(), x);
        assert((s + t).drop_last() =~= s + t.drop_last());
    }
}

/// The latest records are the end of the history.
pub proof fn law_latest_is_the_end(s: Seq<u64>, n: int)
    requires
        n >= 0,
    ensures
        latest(s, n).len() == math::min_int(n, s.len() as int),
        latest(s, n) == s.subrange(s.len() - latest(s, n).len(), s.len() as int),
{
    assert(s =~= s.subrange(0, s.len() as int));
}

/// The mean times the number of records is their sum, and nothing for none.
pub proof fn law_mean_times_count(s: Seq<u64>)
    requires
        0 <= total(s) <= u64::MAX,
        s.len() <= u64::MAX,
    ensures
        mean_of(s).den > 0,
        mean_of(s).num * s.len() == total(s) * mean_of(s).den,
{
    if s.len() == 0 {
        assert(total(s) == 0);
    } else {
        let (a, n) = (total(s), s.len() as int);
        assert(mean_of(s).num == a && mean_of(s).den == n);
    }
}

/// A record joins the end of the history, which gives up its oldest one where
/// it is full.
pub proof fn law_history_records_newest(s: Seq<u64>, capacity: int, turnover: u64)
    requires
        s.len() <= capacity,
        capacity > 0,
    ensures
        recorded(s, capacity, turnover).last() == turnover,
        recorded(s, capacity, turnover).len() == math::min_int(s.len() as int + 1, capacity),
        recorded(s, capacity, turnover).drop_last() == latest(s, capacity - 1),
{
    assert(recorded(s, capacity, turnover).drop_last() =~= latest(s, capacity - 1));
}

/// The turnover of weights adds up how far each moves, either way: one more
/// pair adds its own distance, weights that stay make none, and there and back
/// are alike.
pub proof fn law_turnover_is_distance(s: Seq<i64>, t: Seq<i64>, a: i64, b: i64)
    requires
        s.len() == t.len(),
    ensures
        turnover_of(s.push(a), t.push(b)) == turnover_of(s, t) + math::max_int(a - b, b - a),
        turnover_of(s, s) == 0,
        turnover_of(s, t) == turnover_of(t, s),
        turnover_of(s, t) >= 0,
        turnover_of(s, t) == 0 ==> s == t,
    decreases s.len(),
{
    assert(s.push(a).drop_last() =~= s);
    assert(t.push(b).drop_last() =~= t);
    if s.len() > 0 {
        law_turnover_is_distance(s.drop_last(), t.drop_last(), a, b);
        if turnover_of(s, t) == 0 {
            assert(s =~= s.drop_last().push(s.last()));
            assert(t =~= t.drop_last().push(t.last()));
        }
    } else {
        assert(s =~= t);
    }
}

/// The first tenth of turnover counts once; what goes beyond raises the factor
/// five times as fast.
pub proof fn law_factor_grows_beyond_a_tenth(turnover: int)
    ensures
        turnover <= 10_000_000 ==> turnover_factor(turnover) == 100_000_000,
        turnover > 10_000_000 ==> turnover_factor(turnover) - 100_000_000 == 5 * (turnover
            - 10_000_000),
{
}

/// Turnover costs ten basis points of fees and five of slippage.
pub proof fn law_cost_is_fees_and_slippage(turnover: int)
    ensures
        cost_of(turnover) == 10 * turnover + 5 * turnover,
{
}

/// Nothing exceeds no penalty, a prohibitive one exceeds all; one for haste
/// shrinks as time passes, and one for turnover is coefficient times factor
/// times turnover, each in units of its own.
pub proof fn law_what_exceeds(
    coefficient: u128,
    interval_ns: u64,
    elapsed_ns: u64,
    later_ns: u64,
    factor: u64,
    turnover: u64,
    threshold: u64,
)
    ensures
        !exceeds(Penalty::Free, threshold),
        exceeds(Penalty::Prohibitive, threshold),
        exceeds(Penalty::TooSoon { coefficient, interval_ns, elapsed_ns }, threshold)
            <==> coefficient * interval_ns > (threshold * elapsed_ns) * 100_000_000,
        later_ns >= elapsed_ns && exceeds(
            Penalty::TooSoon { coefficient, interval_ns, elapsed_ns: later_ns },
            threshold,
        ) ==> exceeds(Penalty::TooSoon { coefficient, interval_ns, elapsed_ns }, threshold),
        exceeds(Penalty::Scaled { coefficient, factor, turnover }, threshold) <==> coefficient * (
        factor * turnover) > threshold * (1_000_000_000_000 * 1_000_000_000_000),
{
    let (t, e, l) = (threshold as int, elapsed_ns as int, later_ns as int);
    assert(t * 100_000_000 * e == (t * e) * 100_000_000) by (nonlinear_arith);
    if l >= e {
        assert(t * 100_000_000 * e <= t * 100_000_000 * l) by (nonlinear_arith)
            requires
                0 <= t,
                0 <= e <= l,
        ;
    }
}

/// The multiplier rises by a tenth, to five at most, where the variance of the
/// turnovers is more than a quarter of the square of their mean, and falls by a
/// twentieth, to one at least, where it is not.
pub proof fn law_multiplier_follows_variance(multiplier: int, history: Seq<u64>)
    ensures
        ({
            let n = history.len() as int;
            let (sum, squares) = (total(history), total_sq(history));
            let varied = 4 * (n * squares - sum * sum) > sum * sum;
            let next = next_multiplier(multiplier, history);
            &&& varied && multiplier * 11 / 10 <= 500_000_000 ==> next == multiplier * 11 / 10
            &&& varied && multiplier * 11 / 10 > 500_000_000 ==> next == 500_000_000
            &&& !varied && multiplier * 19 / 20 >= 100_000_000 ==> next == multiplier * 19 / 20
            &&& !varied && multiplier * 19 / 20 < 100_000_000 ==> next == 100_000_000
        }),
{
}

/// Penalties apply only where they are switched on; weights that do not match
/// and costs beyond the daily limit are prohibited, a rebalance before its time
/// is penalized for haste, and any other for its turnover.
pub proof fn law_penalty_by_cause(
    e: TurnoverPenaltyEngine,
    current: Seq<i64>,
    proposed: Seq<i64>,
    now_ns: u64,
)
    requires
        e.wf(),
        current.len() == proposed.len(),
        0 <= turnover_of(current, proposed) <= MAX_TURNOVER,
    ensures
        ({
            let p = e.penalty_of(current, proposed, now_ns);
            let t = turnover_of(current, proposed);
            let dear = e.cumulative_costs_bps + 15 * t > e.daily_cost_limit_bps;
            let hasty = now_ns < e.last_rebalance_ns + e.min_rebalance_interval_ns;
            &&& !e.penalty_enabled ==> p is Free
            &&& e.penalty_enabled && dear ==> p is Prohibitive
            &&& e.penalty_enabled && !dear && hasty && e.min_rebalance_interval_ns > 0 ==> (
            p matches Penalty::TooSoon { coefficient, interval_ns, elapsed_ns } && {
                &&& coefficient == e.base_penalty * e.dynamic_multiplier
                &&& interval_ns == e.min_rebalance_interval_ns
                &&& now_ns >= e.last_rebalance_ns ==> e.last_rebalance_ns + elapsed_ns == now_ns
                &&& now_ns < e.last_rebalance_ns ==> elapsed_ns == 0
            })
            &&& e.penalty_enabled && !dear && !hasty ==> (p matches Penalty::Scaled {
                coefficient,
                factor,
                turnover,
            } && {
                &&& coefficient == e.base_penalty * e.dynamic_multiplier
                &&& turnover == t
                &&& factor == turnover_factor(t)
            })
        }),
{
    let (a, b) = (e.base_penalty as int, e.dynamic_multiplier as int);
    assert(0 <= a * b <= 0xFFFF_FFFF_FFFF_FFFF * 500_000_000) by (nonlinear_arith)
        requires
            0 <= a <= 0xFFFF_FFFF_FFFF_FFFF,
            0 <= b <= 500_000_000,
    ;
}

/// Weights of different numbers cannot be compared, so a penalty prohibits them.
pub proof fn law_mismatched_weights_prohibited(
    e: TurnoverPenaltyEngine,
    current: Seq<i64>,
    proposed: Seq<i64>,
    now_ns: u64,
)
    requires
        current.len() != proposed.len(),
    ensures
        e.penalty_of(current, proposed, now_ns) is Prohibitive <==> e.penalty_enabled,
{
}

/// A tracker takes eight bytes for each turnover it keeps and sixteen for each
/// asset.
pub proof fn law_tracker_memory(history: int, n_assets: int)
    ensures
        tracker_memory(history, n_assets) == 8 * history + 16 * n_assets,
{
}

} // verus!
