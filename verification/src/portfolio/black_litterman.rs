//! Black-Litterman equilibrium returns and the views that adjust them.
use crate::math;
use crate::math::magnitude;
use crate::portfolio::budget::MemoryBudget;
use crate::portfolio::risk_budgeting;
use vstd::prelude::*;

verus! {

/// Memory budget for Black-Litterman models (1.5GB)
pub const BL_MEMORY_BUDGET: u64 = 1_610_612_736;

/// Maximum assets supported
pub const MAX_ASSETS_BL: usize = 400;

/// Units of one
pub const ONE: i64 = 100_000_000;

/// Largest weight for which products are exact
pub const MAX_WEIGHT: i64 = 0x4_0000_0000;

/// Largest covariance for which products are exact
pub const MAX_COVARIANCE: i64 = 0x100_0000_0000;

/// Largest risk aversion for which products are exact
pub const MAX_AVERSION: i64 = 0x100_0000_0000;

/// Most assets in a view for which its variance is exact
pub const MAX_VIEW_ASSETS: usize = 512;

/// Bytes that a model of so many assets takes.
pub open spec fn model_memory(n: int) -> int {
    n * n * 16 + n * 16
}

/// A row of the covariance matrix times the weights, over the first `k`
/// assets.
pub open spec fn row_product(covariance: Seq<i64>, weights: Seq<i64>, n: int, i: int, k: int) -> int
    decreases k,
{
    if k <= 0 {
        0
    } else {
        row_product(covariance, weights, n, i, k - 1) + covariance[i * n + k - 1] * weights[k - 1]
    }
}

/// Equilibrium returns: risk aversion times covariance times market weights,
/// in units of one over ten to the twenty-fourth.
pub open spec fn equilibrium(
    covariance: Seq<i64>,
    weights: Seq<i64>,
    aversion: i64,
    n: int,
) -> Seq<i128> {
    Seq::new(n as nat, |i: int| (aversion * row_product(covariance, weights, n, i, n)) as i128)
}

/// View specification for Black-Litterman
#[derive(Debug)]
pub struct InvestorView {
    /// Asset indices involved in the view
    pub assets: Vec<usize>,
    /// View weights (should sum to 1 or -1 for relative views)
    pub weights: Vec<i64>,
    /// Expected return from the view, in units of one over ten to the sixteenth
    pub expected_return: i128,
    /// Confidence in the view (0 to 1)
    pub confidence: i64,
}

/// Black-Litterman model parameters
pub struct BlackLittermanModel {
    /// Market capitalization weights
    pub market_weights: Vec<i64>,
    /// Covariance matrix (row-major)
    pub covariance: Vec<i64>,
    /// Risk aversion coefficient
    pub risk_aversion: i64,
    /// Number of assets
    pub n_assets: usize,
    /// Cached equilibrium returns
    pub equilibrium_returns: Vec<i128>,
}

/// Numbers of at most some magnitude.
pub open spec fn within(s: Seq<i64>, limit: i64) -> bool {
    forall|i: int| 0 <= i < s.len() ==> -limit <= (#[trigger] s[i]) <= limit
}

/// Whether weights sum to one, give or take a hundredth.
pub open spec fn sums_to_one(weights: Seq<i64>) -> bool {
    math::abs_int(risk_budgeting::sum_all(weights) - ONE) <= 1_000_000
}

/// What is wrong with the dimensions or weights of a model.
pub open spec fn model_flaw(weights: Seq<i64>, covariance: Seq<i64>) -> Option<Seq<char>> {
    let n = weights.len();
    if n > MAX_ASSETS_BL {
        Some("Asset count exceeds Black-Litterman limit for 8GB RAM constraint"@)
    } else if covariance.len() != n * n {
        Some("Covariance matrix dimension mismatch"@)
    } else if !sums_to_one(weights) {
        Some("Market weights must sum to approximately 1.0"@)
    } else {
        None
    }
}

/// What is wrong with a view.
pub open spec fn view_flaw(view: InvestorView, n: int) -> Option<Seq<char>> {
    if view.assets.len() != view.weights.len() {
        Some("View assets and weights dimension mismatch"@)
    } else if view.confidence < 0 || view.confidence > ONE {
        Some("View confidence must be between 0 and 1"@)
    } else if exists|i: int| 0 <= i < view.assets.len() && (#[trigger] view.assets@[i]) >= n {
        Some("View references invalid asset index"@)
    } else {
        None
    }
}

/// What is wrong with the first view that has something wrong.
pub open spec fn views_flaw(views: Seq<InvestorView>, n: int, from: int) -> Option<Seq<char>>
    decreases views.len() - from,
{
    if from >= views.len() {
        None
    } else if view_flaw(views[from], n) is Some {
        view_flaw(views[from], n)
    } else {
        views_flaw(views, n, from + 1)
    }
}

/// A view as a row over all assets: each has the weight that the view gives
/// it last, and none where the view does not name it.
pub open spec fn row_of(assets: Seq<usize>, weights: Seq<i64>, n: int) -> Seq<i64>
    decreases assets.len(),
{
    if assets.len() == 0 {
        Seq::new(n as nat, |i: int| 0i64)
    } else {
        row_of(assets.drop_last(), weights.drop_last(), n).update(
            assets.last() as int,
            weights.last(),
        )
    }
}

/// One asset of a view against the first `k` of them.
pub open spec fn cross_sum(
    covariance: Seq<i64>,
    n: int,
    assets: Seq<usize>,
    weights: Seq<i64>,
    i: int,
    k: int,
) -> int
    decreases k,
{
    if k <= 0 {
        0
    } else {
        cross_sum(covariance, n, assets, weights, i, k - 1) + weights[i] * covariance[assets[i] * n
            + assets[k - 1]] * weights[k - 1]
    }
}

/// The variance of a view: its weights times the covariances times its
/// weights, over the first `k` of its assets.
pub open spec fn view_variance(
    covariance: Seq<i64>,
    n: int,
    assets: Seq<usize>,
    weights: Seq<i64>,
    k: int,
) -> int
    decreases k,
{
    if k <= 0 {
        0
    } else {
        view_variance(covariance, n, assets, weights, k - 1) + cross_sum(
            covariance,
            n,
            assets,
            weights,
            k - 1,
            assets.len() as int,
        )
    }
}

/// One view, ready to be weighed against the equilibrium.
#[derive(Debug)]
pub struct ViewRow {
    /// The weight of every asset in the view
    pub row: Vec<i64>,
    pub expected_return: i128,
    pub confidence: i64,
    /// The variance of the view, in units of one over ten to the twenty-fourth
    pub variance: i128,
}

impl BlackLittermanModel {
    pub open spec fn wf(&self) -> bool {
        &&& model_flaw(self.market_weights@, self.covariance@) is None
        &&& self.n_assets == self.market_weights.len()
        &&& within(self.covariance@, MAX_COVARIANCE)
        &&& self.equilibrium_returns@ == equilibrium(
            self.covariance@,
            self.market_weights@,
            self.risk_aversion,
            self.n_assets as int,
        )
    }

    /// Create a new Black-Litterman model with memory validation
    pub fn new(
        market_weights: &Vec<i64>,
        covariance: &Vec<i64>,
        risk_aversion: i64,
        budget: &mut MemoryBudget,
    ) -> (r: Result<Self, &'static str>)
        requires
            old(budget).wf(),
            within(market_weights@, MAX_WEIGHT),
            within(covariance@, MAX_COVARIANCE),
            -MAX_AVERSION <= risk_aversion <= MAX_AVERSION,
        ensures
            final(budget).wf(),
            ({
                let flaw = model_flaw(market_weights@, covariance@);
                let memory = model_memory(market_weights.len() as int) as u64;
                match r {
                    Ok(m) => {
                        &&& flaw is None
                        &&& old(budget).admits(memory)
                        &&& *final(budget) == (MemoryBudget {
                            used: (old(budget).used + memory) as u64,
                            ..*old(budget)
                        })
                        &&& m.wf()
                        &&& m.market_weights@ == market_weights@
                        &&& m.covariance@ == covariance@
                        &&& m.risk_aversion == risk_aversion
                    },
                    Err(e) => {
                        &&& *final(budget) == *old(budget)
                        &&& match flaw {
                            Some(text) => e@ == text,
                            None => {
                                &&& !old(budget).admits(memory)
                                &&& e@ == "Memory budget exceeded for Black-Litterman construction"@
                            },
                        }
                    },
                }
            }),
    {
        let n: usize = market_weights.len();
        if n > MAX_ASSETS_BL {
            return Err("Asset count exceeds Black-Litterman limit for 8GB RAM constraint");
        }
        proof {
            lemma_size(n as int);
        }
        if covariance.len() != n * n {
            return Err("Covariance matrix dimension mismatch");
        }
        let mut sum: i64 = 0;
        let mut i: usize = 0;
        assert(market_weights@.subrange(0, 0) =~= Seq::<i64>::empty());
        while i < n
            invariant
                i <= n <= MAX_ASSETS_BL,
                n == market_weights.len(),
                within(market_weights@, MAX_WEIGHT),
                sum == risk_budgeting::sum_all(market_weights@.subrange(0, i as int)),
                -(i * 0x4_0000_0000) <= sum <= i * 0x4_0000_0000,
            decreases n - i,
        {
            proof {
                let next = market_weights@.subrange(0, i + 1);
                assert(next.drop_last() =~= market_weights@.subrange(0, i as int));
                assert(next.last() == market_weights@[i as int]);
            }
            sum = sum + market_weights[i];
            i = i + 1;
        }
        assert(market_weights@.subrange(0, i as int) =~= market_weights@);
        if magnitude(sum - ONE) > 1_000_000 {
            return Err("Market weights must sum to approximately 1.0");
        }
        let memory: u64 = (n * n * 16) as u64 + (n * 16) as u64;
        if !budget.reserve(memory) {
            return Err("Memory budget exceeded for Black-Litterman construction");
        }
        let equilibrium_returns: Vec<i128> = Self::compute_equilibrium_returns(
            covariance,
            market_weights,
            risk_aversion,
            n,
        );
        Ok(
            BlackLittermanModel {
                market_weights: market_weights.clone(),
                covariance: covariance.clone(),
                risk_aversion,
                n_assets: n,
                equilibrium_returns,
            },
        )
    }

    /// Give back what the model reserved
    pub fn release(self, budget: &mut MemoryBudget)
        requires
            self.wf(),
            old(budget).wf(),
            old(budget).used >= model_memory(self.n_assets as int),
        ensures
            final(budget).wf(),
            *final(budget) == (MemoryBudget {
                used: (old(budget).used - model_memory(self.n_assets as int)) as u64,
                ..*old(budget)
            }),
    {
        let n: usize = self.n_assets;
        proof {
            lemma_size(n as int);
        }
        budget.release((n * n * 16) as u64 + (n * 16) as u64);
    }

    /// Compute equilibrium returns by matrix-vector multiplication
    pub fn compute_equilibrium_returns(
        cov: &Vec<i64>,
        weights: &Vec<i64>,
        delta: i64,
        n: usize,
    ) -> (r: Vec<i128>)
        requires
            n <= MAX_ASSETS_BL,
            weights.len() == n,
            cov.len() == n * n,
            within(weights@, MAX_WEIGHT),
            within(cov@, MAX_COVARIANCE),
            -MAX_AVERSION <= delta <= MAX_AVERSION,
        ensures
            r@ == equilibrium(cov@, weights@, delta, n as int),
    {
        let mut expected: Vec<i128> = Vec::new();
        let mut i: usize = 0;
        proof {
            lemma_size(n as int);
        }
        while i < n
            invariant
                i <= n <= MAX_ASSETS_BL,
                n * n <= 160_000,
                weights.len() == n,
                cov.len() == n * n,
                within(weights@, MAX_WEIGHT),
                within(cov@, MAX_COVARIANCE),
                -MAX_AVERSION <= delta <= MAX_AVERSION,
                expected.len() == i,
                forall|k: int|
                    0 <= k < i ==> #[trigger] expected@[k] == equilibrium(
                        cov@,
                        weights@,
                        delta,
                        n as int,
                    )[k],
            decreases n - i,
        {
            proof {
                lemma_index(i as int, n as int);
            }
            let mut sum: i128 = 0;
            let mut j: usize = 0;
            while j < n
                invariant
                    i < n <= MAX_ASSETS_BL,
                    j <= n,
                    n * n <= 160_000,
                    0 <= i * n <= n * n - n,
                    weights.len() == n,
                    cov.len() == n * n,
                    within(weights@, MAX_WEIGHT),
                    within(cov@, MAX_COVARIANCE),
                    sum == row_product(cov@, weights@, n as int, i as int, j as int),
                    -(j * 0x400_0000_0000_0000_0000) <= sum <= j * 0x400_0000_0000_0000_0000,
                decreases n - j,
            {
                let c: i64 = cov[i * n + j];
                let w: i64 = weights[j];
                proof {
                    lemma_term(c as int, w as int);
                }
                sum = sum + c as i128 * w as i128;
                j = j + 1;
            }
            proof {
                let (s, d) = (sum as int, delta as int);
                assert(-(0x100_0000_0000 * (400 * 0x400_0000_0000_0000_0000)) <= d * s
                    <= 0x100_0000_0000 * (400 * 0x400_0000_0000_0000_0000)) by (nonlinear_arith)
                    requires
                        -0x100_0000_0000 <= d <= 0x100_0000_0000,
                        -(400 * 0x400_0000_0000_0000_0000) <= s <= 400 * 0x400_0000_0000_0000_0000,
                ;
            }
            expected.push(delta as i128 * sum);
            i = i + 1;
        }
        assert(expected@ =~= equilibrium(cov@, weights@, delta, n as int));
        expected
    }

    /// Compute the variance of a single view
    pub fn compute_p_sigma_p(&self, assets: &Vec<usize>, weights: &Vec<i64>) -> (r: i128)
        requires
            self.wf(),
            assets.len() == weights.len(),
            assets.len() <= MAX_VIEW_ASSETS,
            within(weights@, MAX_WEIGHT),
            forall|i: int| 0 <= i < assets.len() ==> (#[trigger] assets@[i]) < self.n_assets,
        ensures
            r == view_variance(
                self.covariance@,
                self.n_assets as int,
                assets@,
                weights@,
                assets.len() as int,
            ),
    {
        let n: usize = self.n_assets;
        let mut result: i128 = 0;
        let mut i: usize = 0;
        proof {
            lemma_size(n as int);
        }
        while i < assets.len()
            invariant
                self.wf(),
                n == self.n_assets,
                n <= MAX_ASSETS_BL,
                n * n <= 160_000,
                i <= assets.len() <= MAX_VIEW_ASSETS,
                assets.len() == weights.len(),
                within(weights@, MAX_WEIGHT),
                forall|k: int| 0 <= k < assets.len() ==> (#[trigger] assets@[k]) < n,
                result == view_variance(self.covariance@, n as int, assets@, weights@, i as int),
                -(i * 0x20_0000_0000_0000_0000_0000_0000_0000) <= result <= i * 0x20_0000_0000_0000_0000_0000_0000_0000,
            decreases assets.len() - i,
        {
            let ghost first = result as int;
            let ai: usize = assets[i];
            let wi: i64 = weights[i];
            proof {
                lemma_index(ai as int, n as int);
            }
            let mut j: usize = 0;
            while j < assets.len()
                invariant
                    self.wf(),
                    n == self.n_assets,
                    n <= MAX_ASSETS_BL,
                    n * n <= 160_000,
                    i < assets.len() <= MAX_VIEW_ASSETS,
                    j <= assets.len(),
                    assets.len() == weights.len(),
                    within(weights@, MAX_WEIGHT),
                    forall|k: int| 0 <= k < assets.len() ==> (#[trigger] assets@[k]) < n,
                    ai == assets@[i as int],
                    wi == weights@[i as int],
                    0 <= ai * n <= n * n - n,
                    first == view_variance(
                        self.covariance@,
                        n as int,
                        assets@,
                        weights@,
                        i as int,
                    ),
                    -(i * 0x20_0000_0000_0000_0000_0000_0000_0000) <= first <= i * 0x20_0000_0000_0000_0000_0000_0000_0000,
                    result == first + cross_sum(
                        self.covariance@,
                        n as int,
                        assets@,
                        weights@,
                        i as int,
                        j as int,
                    ),
                    -(j * 0x1000_0000_0000_0000_0000_0000_0000) <= result - first <= j
                        * 0x1000_0000_0000_0000_0000_0000_0000,
                decreases assets.len() - j,
            {
                let aj: usize = assets[j];
                let wj: i64 = weights[j];
                let c: i64 = self.covariance[ai * n + aj];
                proof {
                    lemma_term(c as int, wi as int);
                    let (x, w) = (wi * c, wj as int);
                    assert(wi * c == c * wi) by (nonlinear_arith);
                    assert(-0x1000_0000_0000_0000_0000_0000_0000 <= x * w
                        <= 0x1000_0000_0000_0000_0000_0000_0000) by (nonlinear_arith)
                        requires
                            -0x400_0000_0000_0000_0000 <= x <= 0x400_0000_0000_0000_0000,
                            -0x4_0000_0000 <= w <= 0x4_0000_0000,
                    ;
                }
                result = result + wi as i128 * c as i128 * wj as i128;
                j = j + 1;
            }
            i = i + 1;
        }
        result
    }

    /// Views that leave room for their variances.
    pub open spec fn accepts(&self, views: Seq<InvestorView>) -> bool {
        forall|i: int|
            0 <= i < views.len() ==> (#[trigger] views[i]).assets.len() <= MAX_VIEW_ASSETS
                && within(views[i].weights@, MAX_WEIGHT)
    }

    fn check_view(&self, view: &InvestorView) -> (r: Result<(), &'static str>)
        ensures
            match (r, view_flaw(*view, self.n_assets as int)) {
                (Ok(_), None) => true,
                (Err(e), Some(text)) => e@ == text,
                _ => false,
            },
    {
        if view.assets.len() != view.weights.len() {
            return Err("View assets and weights dimension mismatch");
        }
        if view.confidence < 0 || view.confidence > ONE {
            return Err("View confidence must be between 0 and 1");
        }
        let mut i: usize = 0;
        while i < view.assets.len()
            invariant
                i <= view.assets.len(),
                view.assets.len() == view.weights.len(),
                0 <= view.confidence <= ONE,
                forall|k: int| 0 <= k < i ==> (#[trigger] view.assets@[k]) < self.n_assets,
            decreases view.assets.len() - i,
        {
            if view.assets[i] >= self.n_assets {
                return Err("View references invalid asset index");
            }
            i = i + 1;
        }
        Ok(())
    }

    fn view_row(&self, view: &InvestorView) -> (r: Vec<i64>)
        requires
            view_flaw(*view, self.n_assets as int) is None,
        ensures
            r@ == row_of(view.assets@, view.weights@, self.n_assets as int),
            r.len() == self.n_assets,
    {
        let n: usize = self.n_assets;
        let mut row: Vec<i64> = Vec::new();
        let mut i: usize = 0;
        while i < n
            invariant
                i <= n,
                row@ == Seq::new(i as nat, |k: int| 0i64),
            decreases n - i,
        {
            row.push(0);
            i = i + 1;
            assert(row@ =~= Seq::new(i as nat, |k: int| 0i64));
        }
        let mut k: usize = 0;
        assert(view.assets@.subrange(0, 0) =~= Seq::<usize>::empty());
        while k < view.assets.len()
            invariant
                k <= view.assets.len(),
                view.assets.len() == view.weights.len(),
                n == self.n_assets,
                row.len() == n,
                view_flaw(*view, n as int) is None,
                row@ == row_of(
                    view.assets@.subrange(0, k as int),
                    view.weights@.subrange(0, k as int),
                    n as int,
                ),
            decreases view.assets.len() - k,
        {
            proof {
                let a = view.assets@.subrange(0, k + 1);
                let w = view.weights@.subrange(0, k + 1);
                assert(a.drop_last() =~= view.assets@.subrange(0, k as int));
                assert(w.drop_last() =~= view.weights@.subrange(0, k as int));
                assert(a.last() == view.assets@[k as int]);
                assert(w.last() == view.weights@[k as int]);
                assert(view.assets@[k as int] < n);
            }
            row.set(view.assets[k], view.weights[k]);
            k = k + 1;
        }
        assert(view.assets@.subrange(0, k as int) =~= view.assets@);
        assert(view.weights@.subrange(0, k as int) =~= view.weights@);
        row
    }

    /// Check views and lay each out as a row over all assets, with its
    /// variance
    pub fn prepare_views(&self, views: &Vec<InvestorView>) -> (r: Result<Vec<ViewRow>, &'static str>)
        requires
            self.wf(),
            self.accepts(views@),
        ensures
            match (r, views_flaw(views@, self.n_assets as int, 0)) {
                (Ok(rows), None) => {
                    &&& rows.len() == views.len()
                    &&& forall|i: int|
                        0 <= i < rows.len() ==> self.lays_out(#[trigger] rows@[i], views@[i])
                },
                (Err(e), Some(text)) => e@ == text,
                _ => false,
            },
    {
        let mut rows: Vec<ViewRow> = Vec::new();
        let mut i: usize = 0;
        while i < views.len()
            invariant
                i <= views.len(),
                self.wf(),
                self.accepts(views@),
                rows.len() == i,
                views_flaw(views@, self.n_assets as int, 0) == views_flaw(
                    views@,
                    self.n_assets as int,
                    i as int,
                ),
                forall|k: int| 0 <= k < i ==> self.lays_out(#[trigger] rows@[k], views@[k]),
            decreases views.len() - i,
        {
            let view: &InvestorView = &views[i];
            match self.check_view(view) {
                Err(e) => {
                    return Err(e);
                },
                Ok(_) => {},
            }
            let row: Vec<i64> = self.view_row(view);
            let variance: i128 = self.compute_p_sigma_p(&view.assets, &view.weights);
            rows.push(
                ViewRow {
                    row,
                    expected_return: view.expected_return,
                    confidence: view.confidence,
                    variance,
                },
            );
            i = i + 1;
        }
        Ok(rows)
    }

    /// Whether a row lays a view out.
    pub open spec fn lays_out(&self, row: ViewRow, view: InvestorView) -> bool {
        &&& row.row@ == row_of(view.assets@, view.weights@, self.n_assets as int)
        &&& row.expected_return == view.expected_return
        &&& row.confidence == view.confidence
        &&& row.variance == view_variance(
            self.covariance@,
            self.n_assets as int,
            view.assets@,
            view.weights@,
            view.assets.len() as int,
        )
    }

    /// Get equilibrium returns
    pub fn get_equilibrium_returns(&self) -> (r: &Vec<i128>)
        ensures
            *r == self.equilibrium_returns,
    {
        &self.equilibrium_returns
    }

    /// Get market weights
    pub fn get_market_weights(&self) -> (r: &Vec<i64>)
        ensures
            *r == self.market_weights,
    {
        &self.market_weights
    }
}

/// The view that an alpha signal gives of its asset: its return is the signal
/// times the scale, and its confidence is the most that a view may have.
pub open spec fn is_alpha_view(view: InvestorView, asset: int, alpha: i64, scale: i64) -> bool {
    &&& view.assets@ == seq![asset as usize]
    &&& view.weights@ == seq![ONE]
    &&& view.expected_return == alpha * scale
    &&& view.confidence == 95_000_000
}

/// Assets whose signal is above a threshold either way, in their order.
pub open spec fn strong_assets(alphas: Seq<i64>, threshold: u64) -> Seq<usize>
    decreases alphas.len(),
{
    if alphas.len() == 0 {
        Seq::empty()
    } else {
        let rest = strong_assets(alphas.drop_last(), threshold);
        if math::abs_int(alphas.last() as int) > threshold {
            rest.push((alphas.len() - 1) as usize)
        } else {
            rest
        }
    }
}

/// Combine alpha signals with the Black-Litterman framework
pub struct RLEnhancedBlackLitterman {
    pub base_model: BlackLittermanModel,
    /// Alpha scaling factor
    pub alpha_scale: i64,
}

impl RLEnhancedBlackLitterman {
    pub fn new(
        market_weights: &Vec<i64>,
        covariance: &Vec<i64>,
        risk_aversion: i64,
        alpha_scale: i64,
        budget: &mut MemoryBudget,
    ) -> (r: Result<Self, &'static str>)
        requires
            old(budget).wf(),
            within(market_weights@, MAX_WEIGHT),
            within(covariance@, MAX_COVARIANCE),
            -MAX_AVERSION <= risk_aversion <= MAX_AVERSION,
        ensures
            final(budget).wf(),
            ({
                let flaw = model_flaw(market_weights@, covariance@);
                let memory = model_memory(market_weights.len() as int) as u64;
                match r {
                    Ok(m) => {
                        &&& flaw is None
                        &&& old(budget).admits(memory)
                        &&& *final(budget) == (MemoryBudget {
                            used: (old(budget).used + memory) as u64,
                            ..*old(budget)
                        })
                        &&& m.base_model.wf()
                        &&& m.base_model.market_weights@ == market_weights@
                        &&& m.base_model.covariance@ == covariance@
                        &&& m.base_model.risk_aversion == risk_aversion
                        &&& m.alpha_scale == alpha_scale
                    },
                    Err(e) => {
                        &&& *final(budget) == *old(budget)
                        &&& match flaw {
                            Some(text) => e@ == text,
                            None => {
                                &&& !old(budget).admits(memory)
                                &&& e@ == "Memory budget exceeded for Black-Litterman construction"@
                            },
                        }
                    },
                }
            }),
    {
        match BlackLittermanModel::new(market_weights, covariance, risk_aversion, budget) {
            Ok(base_model) => Ok(RLEnhancedBlackLitterman { base_model, alpha_scale }),
            Err(e) => Err(e),
        }
    }

    /// Generate views from alpha signals
    ///
    /// A signal above the threshold is more than once the threshold, so every
    /// view has the highest confidence.
    pub fn generate_views_from_alpha(&self, alpha_signals: &Vec<i64>, threshold: u64) -> (r: Vec<
        InvestorView,
    >)
        ensures
            ({
                let strong = strong_assets(alpha_signals@, threshold);
                &&& r.len() == strong.len()
                &&& forall|i: int|
                    0 <= i < r.len() ==> is_alpha_view(
                        #[trigger] r@[i],
                        strong[i] as int,
                        alpha_signals@[strong[i] as int],
                        self.alpha_scale,
                    )
            }),
    {
        let mut views: Vec<InvestorView> = Vec::new();
        let mut k: usize = 0;
        assert(alpha_signals@.subrange(0, 0) =~= Seq::<i64>::empty());
        while k < alpha_signals.len()
            invariant
                k <= alpha_signals.len(),
                ({
                    let strong = strong_assets(alpha_signals@.subrange(0, k as int), threshold);
                    &&& views.len() == strong.len()
                    &&& forall|i: int|
                        0 <= i < views.len() ==> is_alpha_view(
                            #[trigger] views@[i],
                            strong[i] as int,
                            alpha_signals@[strong[i] as int],
                            self.alpha_scale,
                        )
                }),
            decreases alpha_signals.len() - k,
        {
            let ghost before = views@;
            let alpha: i64 = alpha_signals[k];
            proof {
                let next = alpha_signals@.subrange(0, k + 1);
                assert(next.drop_last() =~= alpha_signals@.subrange(0, k as int));
                assert(next.last() == alpha);
                let (a, s) = (alpha as int, self.alpha_scale as int);
                assert(-(0x8000_0000_0000_0000 * 0x8000_0000_0000_0000) <= a * s
                    <= 0x8000_0000_0000_0000 * 0x8000_0000_0000_0000) by (nonlinear_arith)
                    requires
                        -0x8000_0000_0000_0000 <= a <= 0x8000_0000_0000_0000,
                        -0x8000_0000_0000_0000 <= s <= 0x8000_0000_0000_0000,
                ;
            }
            if magnitude(alpha) > threshold {
                let mut assets: Vec<usize> = Vec::new();
                assets.push(k);
                let mut weights: Vec<i64> = Vec::new();
                weights.push(ONE);
                views.push(
                    InvestorView {
                        assets,
                        weights,
                        expected_return: alpha as i128 * self.alpha_scale as i128,
                        confidence: 95_000_000,
                    },
                );
                proof {
                    let strong = strong_assets(alpha_signals@.subrange(0, k + 1), threshold);
                    assert forall|i: int| 0 <= i < views.len() implies is_alpha_view(
                        #[trigger] views@[i],
                        strong[i] as int,
                        alpha_signals@[strong[i] as int],
                        self.alpha_scale,
                    ) by {
                        if i < before.len() {
                            assert(views@[i] == before[i]);
                        } else {
                            assert(views@[i].assets@ =~= seq![k]);
                            assert(views@[i].weights@ =~= seq![ONE]);
                        }
                    }
                }
            }
            k = k + 1;
        }
        assert(alpha_signals@.subrange(0, k as int) =~= alpha_signals@);
        views
    }
}

/// Views from alpha signals are sound: every view names an asset that the
/// model knows, with a confidence that a model accepts.
pub proof fn law_alpha_views_valid(view: InvestorView, asset: int, alpha: i64, scale: i64, n: int)
    requires
        0 <= asset < n <= MAX_ASSETS_BL,
        is_alpha_view(view, asset, alpha, scale),
    ensures
        view_flaw(view, n) is None,
{
}

/// Equilibrium returns scale with the risk aversion.
pub proof fn law_equilibrium_scales(
    covariance: Seq<i64>,
    weights: Seq<i64>,
    n: int,
    i: int,
    aversion: i64,
    factor: i64,
)
    requires
        0 <= i < n,
        i128::MIN <= aversion * factor * row_product(covariance, weights, n, i, n) <= i128::MAX,
        i128::MIN <= factor * row_product(covariance, weights, n, i, n) <= i128::MAX,
        i64::MIN <= aversion * factor <= i64::MAX,
    ensures
        equilibrium(covariance, weights, (aversion * factor) as i64, n)[i] == aversion
            * equilibrium(covariance, weights, factor, n)[i],
{
    let p = row_product(covariance, weights, n, i, n);
    assert(aversion * factor * p == aversion * (factor * p)) by (nonlinear_arith);
}

proof fn lemma_size(n: int)
    requires
        0 <= n <= 400,
    ensures
        0 <= n * n <= 160_000,
{
    assert(0 <= n * n <= 160_000) by (nonlinear_arith)
        requires
            0 <= n <= 400,
    ;
}

proof fn lemma_index(i: int, n: int)
    requires
        0 <= i < n,
    ensures
        0 <= i * n <= n * n - n,
{
    assert(0 <= i * n <= n * n - n) by (nonlinear_arith)
        requires
            0 <= i < n,
    ;
}

proof fn lemma_term(c: int, w: int)
    requires
        -0x100_0000_0000 <= c <= 0x100_0000_0000,
        -0x4_0000_0000 <= w <= 0x4_0000_0000,
    ensures
        -0x400_0000_0000_0000_0000 <= c * w <= 0x400_0000_0000_0000_0000,
{
    assert(-0x400_0000_0000_0000_0000 <= c * w <= 0x400_0000_0000_0000_0000) by (nonlinear_arith)
        requires
            -0x100_0000_0000 <= c <= 0x100_0000_0000,
            -0x4_0000_0000 <= w <= 0x4_0000_0000,
    ;
}

proof fn lemma_row_bound(covariance: Seq<i64>, weights: Seq<i64>, n: int, i: int, k: int)
    requires
        0 <= i < n <= MAX_ASSETS_BL,
        0 <= k <= n,
        covariance.len() == n * n,
        weights.len() == n,
        within(covariance, MAX_COVARIANCE),
        within(weights, MAX_WEIGHT),
    ensures
        -(k * 0x400_0000_0000_0000_0000) <= row_product(covariance, weights, n, i, k) <= k
            * 0x400_0000_0000_0000_0000,
    decreases k,
{
    if k > 0 {
        lemma_row_bound(covariance, weights, n, i, k - 1);
        lemma_index(i, n);
        lemma_term(covariance[i * n + k - 1] as int, weights[k - 1] as int);
    }
}

proof fn lemma_return_exact(
    covariance: Seq<i64>,
    weights: Seq<i64>,
    aversion: i64,
    n: int,
    i: int,
)
    requires
        0 <= i < n <= MAX_ASSETS_BL,
        covariance.len() == n * n,
        weights.len() == n,
        within(covariance, MAX_COVARIANCE),
        within(weights, MAX_WEIGHT),
        -MAX_AVERSION <= aversion <= MAX_AVERSION,
    ensures
        equilibrium(covariance, weights, aversion, n)[i] == aversion * row_product(
            covariance,
            weights,
            n,
            i,
            n,
        ),
{
    lemma_row_bound(covariance, weights, n, i, n);
    let (s, d) = (row_product(covariance, weights, n, i, n), aversion as int);
    assert(-(0x100_0000_0000 * (400 * 0x400_0000_0000_0000_0000)) <= d * s <= 0x100_0000_0000 * (400
        * 0x400_0000_0000_0000_0000)) by (nonlinear_arith)
        requires
            -0x100_0000_0000 <= d <= 0x100_0000_0000,
            -(400 * 0x400_0000_0000_0000_0000) <= s <= 400 * 0x400_0000_0000_0000_0000,
    ;
}

proof fn lemma_row_of_one(
    covariance: Seq<i64>,
    weights: Seq<i64>,
    n: int,
    i: int,
    k: int,
    upto: int,
)
    requires
        0 <= upto <= n,
        0 <= k < n,
        weights.len() == n,
        forall|j: int| 0 <= j < n && j != k ==> #[trigger] weights[j] == 0,
    ensures
        row_product(covariance, weights, n, i, upto) == (if k < upto {
            covariance[i * n + k] * weights[k]
        } else {
            0
        }),
    decreases upto,
{
    if upto > 0 {
        lemma_row_of_one(covariance, weights, n, i, k, upto - 1);
        let c = covariance[i * n + upto - 1] as int;
        assert(c * 0 == 0) by (nonlinear_arith);
        assert(i * n + upto - 1 == i * n + (upto - 1));
    }
}

/// With all the weight on one asset, the return of every asset is its own
/// covariance with that asset times the weight and the risk aversion.
pub proof fn law_return_is_covariance_with_market(
    covariance: Seq<i64>,
    weights: Seq<i64>,
    aversion: i64,
    n: int,
    i: int,
    k: int,
)
    requires
        0 <= i < n <= MAX_ASSETS_BL,
        0 <= k < n,
        covariance.len() == n * n,
        weights.len() == n,
        within(covariance, MAX_COVARIANCE),
        within(weights, MAX_WEIGHT),
        -MAX_AVERSION <= aversion <= MAX_AVERSION,
        forall|j: int| 0 <= j < n && j != k ==> #[trigger] weights[j] == 0,
    ensures
        equilibrium(covariance, weights, aversion, n).len() == n,
        equilibrium(covariance, weights, aversion, n)[i] == aversion * (covariance[i * n + k]
            * weights[k]),
{
    lemma_return_exact(covariance, weights, aversion, n, i);
    lemma_row_of_one(covariance, weights, n, i, k, n);
}

proof fn lemma_row_adds(
    covariance: Seq<i64>,
    a: Seq<i64>,
    b: Seq<i64>,
    sum: Seq<i64>,
    n: int,
    i: int,
    k: int,
)
    requires
        0 <= k <= n,
        a.len() == n,
        b.len() == n,
        sum.len() == n,
        forall|j: int| 0 <= j < n ==> #[trigger] sum[j] == a[j] + b[j],
    ensures
        row_product(covariance, sum, n, i, k) == row_product(covariance, a, n, i, k) + row_product(
            covariance,
            b,
            n,
            i,
            k,
        ),
    decreases k,
{
    if k > 0 {
        lemma_row_adds(covariance, a, b, sum, n, i, k - 1);
        let (c, x, y) = (covariance[i * n + k - 1] as int, a[k - 1] as int, b[k - 1] as int);
        assert(sum[k - 1] == x + y);
        assert(c * (x + y) == c * x + c * y) by (nonlinear_arith);
    }
}

/// The returns of a market made of two are the sums of the returns of both.
pub proof fn law_returns_add(
    covariance: Seq<i64>,
    a: Seq<i64>,
    b: Seq<i64>,
    sum: Seq<i64>,
    aversion: i64,
    n: int,
    i: int,
)
    requires
        0 <= i < n <= MAX_ASSETS_BL,
        covariance.len() == n * n,
        a.len() == n,
        b.len() == n,
        sum.len() == n,
        within(covariance, MAX_COVARIANCE),
        within(a, MAX_WEIGHT),
        within(b, MAX_WEIGHT),
        within(sum, MAX_WEIGHT),
        -MAX_AVERSION <= aversion <= MAX_AVERSION,
        forall|j: int| 0 <= j < n ==> #[trigger] sum[j] == a[j] + b[j],
    ensures
        equilibrium(covariance, sum, aversion, n)[i] == equilibrium(covariance, a, aversion, n)[i]
            + equilibrium(covariance, b, aversion, n)[i],
{
    lemma_return_exact(covariance, a, aversion, n, i);
    lemma_return_exact(covariance, b, aversion, n, i);
    lemma_return_exact(covariance, sum, aversion, n, i);
    lemma_row_adds(covariance, a, b, sum, n, i, n);
    let (d, x, y) = (
        aversion as int,
        row_product(covariance, a, n, i, n),
        row_product(covariance, b, n, i, n),
    );
    assert(d * (x + y) == d * x + d * y) by (nonlinear_arith);
}

proof fn lemma_cross_one_changed(
    c1: Seq<i64>,
    c2: Seq<i64>,
    n: int,
    assets: Seq<usize>,
    weights: Seq<i64>,
    a: int,
    i: int,
    j: int,
    k: int,
)
    requires
        0 <= k <= assets.len(),
        0 <= a < assets.len(),
        assets.len() == weights.len(),
        forall|b: int|
            0 <= b < assets.len() && (a, b) != (i, j) ==> c1[assets[a] * n + #[trigger] assets[b]]
                == c2[assets[a] * n + assets[b]],
    ensures
        cross_sum(c2, n, assets, weights, a, k) - cross_sum(c1, n, assets, weights, a, k) == (if a
            == i && 0 <= j < k {
            weights[i] * (c2[assets[i] * n + assets[j]] - c1[assets[i] * n + assets[j]])
                * weights[j]
        } else {
            0
        }),
    decreases k,
{
    if k > 0 {
        lemma_cross_one_changed(c1, c2, n, assets, weights, a, i, j, k - 1);
        if a == i && j == k - 1 {
            let at = assets[i] * n + assets[j];
            let (x, y, p, q) = (weights[i] as int, weights[j] as int, c1[at] as int, c2[at] as int);
            assert(x * q * y - x * p * y == x * (q - p) * y) by (nonlinear_arith);
        } else {
            assert(assets[k - 1] == assets[k - 1]);
        }
    }
}

/// The variance of a view follows each covariance between its assets by the
/// product of their two weights.
pub proof fn law_view_variance_follows_each_covariance(
    c1: Seq<i64>,
    c2: Seq<i64>,
    n: int,
    assets: Seq<usize>,
    weights: Seq<i64>,
    i: int,
    j: int,
)
    requires
        0 <= i < assets.len(),
        0 <= j < assets.len(),
        assets.len() == weights.len(),
        forall|a: int, b: int|
            0 <= a < assets.len() && 0 <= b < assets.len() && (a, b) != (i, j)
                ==> c1[#[trigger] assets[a] * n + #[trigger] assets[b]] == c2[assets[a] * n
                + assets[b]],
    ensures
        view_variance(c2, n, assets, weights, assets.len() as int) - view_variance(
            c1,
            n,
            assets,
            weights,
            assets.len() as int,
        ) == weights[i] * (c2[assets[i] * n + assets[j]] - c1[assets[i] * n + assets[j]])
            * weights[j],
{
    lemma_variance_one_changed(c1, c2, n, assets, weights, i, j, assets.len() as int);
}

proof fn lemma_variance_one_changed(
    c1: Seq<i64>,
    c2: Seq<i64>,
    n: int,
    assets: Seq<usize>,
    weights: Seq<i64>,
    i: int,
    j: int,
    k: int,
)
    requires
        0 <= k <= assets.len(),
        0 <= i < assets.len(),
        0 <= j < assets.len(),
        assets.len() == weights.len(),
        forall|a: int, b: int|
            0 <= a < assets.len() && 0 <= b < assets.len() && (a, b) != (i, j)
                ==> c1[#[trigger] assets[a] * n + #[trigger] assets[b]] == c2[assets[a] * n
                + assets[b]],
    ensures
        view_variance(c2, n, assets, weights, k) - view_variance(c1, n, assets, weights, k) == (if i
            < k {
            weights[i] * (c2[assets[i] * n + assets[j]] - c1[assets[i] * n + assets[j]])
                * weights[j]
        } else {
            0
        }),
    decreases k,
{
    if k > 0 {
        lemma_variance_one_changed(c1, c2, n, assets, weights, i, j, k - 1);
        lemma_cross_one_changed(
            c1,
            c2,
            n,
            assets,
            weights,
            k - 1,
            i,
            j,
            assets.len() as int,
        );
    }
}

/// A view on assets without any covariance has no variance.
pub proof fn law_view_without_covariance(
    covariance: Seq<i64>,
    n: int,
    assets: Seq<usize>,
    weights: Seq<i64>,
    k: int,
)
    requires
        0 <= k <= assets.len(),
        assets.len() == weights.len(),
        forall|a: int, b: int|
            0 <= a < assets.len() && 0 <= b < assets.len() ==> covariance[#[trigger] assets[a] * n
                + #[trigger] assets[b]] == 0,
    ensures
        view_variance(covariance, n, assets, weights, k) == 0,
    decreases k,
{
    if k > 0 {
        law_view_without_covariance(covariance, n, assets, weights, k - 1);
        lemma_cross_of_nothing(
            covariance,
            n,
            assets,
            weights,
            k - 1,
            assets.len() as int,
        );
    }
}

proof fn lemma_cross_of_nothing(
    covariance: Seq<i64>,
    n: int,
    assets: Seq<usize>,
    weights: Seq<i64>,
    a: int,
    k: int,
)
    requires
        0 <= k <= assets.len(),
        0 <= a < assets.len(),
        assets.len() == weights.len(),
        forall|b: int|
            0 <= b < assets.len() ==> covariance[assets[a] * n + #[trigger] assets[b]] == 0,
    ensures
        cross_sum(covariance, n, assets, weights, a, k) == 0,
    decreases k,
{
    if k > 0 {
        lemma_cross_of_nothing(covariance, n, assets, weights, a, k - 1);
        let (x, y) = (weights[a] as int, weights[k - 1] as int);
        assert(covariance[assets[a] * n + assets[k - 1]] == 0);
        assert(x * 0 * y == 0) by (nonlinear_arith);
    }
}

/// The row of a view has a place for every asset: the weight that the view
/// names last for it, and nothing for an asset that the view does not name.
pub proof fn law_row_has_last_weight(assets: Seq<usize>, weights: Seq<i64>, n: int, x: int)
    requires
        0 <= x < n,
        assets.len() == weights.len(),
        forall|k: int| 0 <= k < assets.len() ==> (#[trigger] assets[k]) < n,
    ensures
        row_of(assets, weights, n).len() == n,
        (forall|k: int| 0 <= k < assets.len() ==> #[trigger] assets[k] != x) ==> row_of(
            assets,
            weights,
            n,
        )[x] == 0,
        forall|k: int|
            0 <= k < assets.len() && #[trigger] assets[k] == x && (forall|j: int|
                k < j < assets.len() ==> #[trigger] assets[j] != x) ==> row_of(assets, weights, n)[x]
                == weights[k],
    decreases assets.len(),
{
    if assets.len() > 0 {
        let (a, w) = (assets.drop_last(), weights.drop_last());
        law_row_has_last_weight(a, w, n, x);
        assert(assets.last() == assets[assets.len() - 1]);
        assert forall|k: int|
            0 <= k < assets.len() && #[trigger] assets[k] == x && (forall|j: int|
                k < j < assets.len() ==> #[trigger] assets[j] != x) implies row_of(
            assets,
            weights,
            n,
        )[x] == weights[k] by {
            if k < a.len() {
                assert(a[k] == x);
                assert forall|j: int| k < j < a.len() implies #[trigger] a[j] != x by {
                    assert(assets[j] != x);
                }
                assert(assets[assets.len() - 1] != x);
            }
        }
        if forall|k: int| 0 <= k < assets.len() ==> #[trigger] assets[k] != x {
            assert forall|k: int| 0 <= k < a.len() implies #[trigger] a[k] != x by {
                assert(assets[k] != x);
            }
            assert(assets[assets.len() - 1] != x);
        }
    }
}

/// A signal gives a view exactly where it is larger than the threshold, up or
/// down, and the views follow the order of the assets.
pub proof fn law_strong_signals_give_views(alphas: Seq<i64>, threshold: u64, x: usize)
    requires
        alphas.len() <= usize::MAX,
    ensures
        strong_assets(alphas, threshold).contains(x) <==> x < alphas.len() && (alphas[x as int]
            > threshold || -alphas[x as int] > threshold),
        forall|i: int, j: int|
            0 <= i < j < strong_assets(alphas, threshold).len() ==> #[trigger] strong_assets(
                alphas,
                threshold,
            )[i] < #[trigger] strong_assets(alphas, threshold)[j],
        forall|i: int|
            0 <= i < strong_assets(alphas, threshold).len() ==> #[trigger] strong_assets(
                alphas,
                threshold,
            )[i] < alphas.len(),
    decreases alphas.len(),
{
    if alphas.len() > 0 {
        let t = alphas.drop_last();
        let rest = strong_assets(t, threshold);
        let all = strong_assets(alphas, threshold);
        law_strong_signals_give_views(t, threshold, x);
        let last = (alphas.len() - 1) as usize;
        if all != rest {
            assert(all == rest.push(last));
            assert(all[all.len() - 1] == last);
            if rest.contains(x) {
                let i = choose|i: int| 0 <= i < rest.len() && rest[i] == x;
                assert(all[i] == x);
            }
            if all.contains(x) {
                let i = choose|i: int| 0 <= i < all.len() && all[i] == x;
                if i < rest.len() {
                    assert(rest[i] == x);
                }
            }
        }
    }
}

/// A view from a signal expects the signal times the scale of its asset alone,
/// with a confidence of ninety-five hundredths; twice the signal expects twice
/// as much.
pub proof fn law_alpha_view_expects_scaled_signal(
    view: InvestorView,
    other: InvestorView,
    asset: int,
    alpha: i64,
    scale: i64,
    factor: i64,
)
    requires
        is_alpha_view(view, asset, alpha, scale),
        i64::MIN <= factor * alpha <= i64::MAX,
        is_alpha_view(other, asset, (factor * alpha) as i64, scale),
    ensures
        view.expected_return == alpha * scale,
        other.expected_return == factor * view.expected_return,
        view.assets@.len() == 1 && view.weights@.len() == 1,
        view.assets@[0] == asset as usize && view.weights@[0] == 100_000_000,
        view.confidence * 100 == 95 * 100_000_000,
{
    assert((factor * alpha) * scale == factor * (alpha * scale)) by (nonlinear_arith);
}

/// A model is sound exactly where it has at most four hundred assets, a
/// covariance for each pair of them, and weights that sum to one give or take
/// one hundredth.
pub proof fn law_sound_models(weights: Seq<i64>, covariance: Seq<i64>)
    ensures
        model_flaw(weights, covariance) is None <==> {
            &&& weights.len() <= 400
            &&& covariance.len() == weights.len() * weights.len()
            &&& 99_000_000 <= risk_budgeting::sum_all(weights) <= 101_000_000
        },
{
}

/// A view is sound exactly where it has a weight for each asset that it names,
/// all of them assets of the model, and a confidence between zero and one.
pub proof fn law_sound_views(view: InvestorView, n: int)
    ensures
        view_flaw(view, n) is None <==> {
            &&& view.assets.len() == view.weights.len()
            &&& 0 <= view.confidence <= 100_000_000
            &&& forall|i: int| 0 <= i < view.assets.len() ==> (#[trigger] view.assets@[i]) < n
        },
{
}

/// Views are refused for the first of them that is not sound.
pub proof fn law_first_flaw_counts(views: Seq<InvestorView>, n: int, from: int)
    requires
        0 <= from <= views.len(),
    ensures
        views_flaw(views, n, from) is None <==> forall|i: int|
            from <= i < views.len() ==> view_flaw(#[trigger] views[i], n) is None,
        forall|k: int|
            from <= k < views.len() && view_flaw(#[trigger] views[k], n) is Some && (forall|i: int|
                from <= i < k ==> view_flaw(#[trigger] views[i], n) is None) ==> views_flaw(
                views,
                n,
                from,
            ) == view_flaw(views[k], n),
    decreases views.len() - from,
{
    if from < views.len() {
        law_first_flaw_counts(views, n, from + 1);
    }
}

/// A model takes sixteen bytes for every covariance and for every asset.
pub proof fn law_model_memory(n: int)
    ensures
        model_memory(n) == 16 * (n * (n + 1)),
{
    assert(n * n * 16 + n * 16 == 16 * (n * (n + 1))) by (nonlinear_arith);
}

/// A view is laid out with the return and the confidence that it states, and
/// with its own variance.
pub proof fn law_layout_keeps_the_view(m: BlackLittermanModel, row: ViewRow, view: InvestorView)
    requires
        m.lays_out(row, view),
    ensures
        row.expected_return == view.expected_return,
        row.confidence == view.confidence,
        row.row@ == row_of(view.assets@, view.weights@, m.n_assets as int),
        row.variance == view_variance(
            m.covariance@,
            m.n_assets as int,
            view.assets@,
            view.weights@,
            view.assets@.len() as int,
        ),
{
}

/// A model holds the equilibrium returns of its own market, one for each asset,
/// and is sound.
pub proof fn law_model_holds_its_returns(m: BlackLittermanModel)
    requires
        m.wf(),
    ensures
        m.equilibrium_returns@ == equilibrium(
            m.covariance@,
            m.market_weights@,
            m.risk_aversion,
            m.market_weights@.len() as int,
        ),
        m.equilibrium_returns@.len() == m.market_weights@.len(),
        model_flaw(m.market_weights@, m.covariance@) is None,
{
}

} // verus!
