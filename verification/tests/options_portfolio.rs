use nautilus_core::math::Ratio;
use nautilus_core::options::gamma_scalping::{
    FeeStructure, GammaScalpingEngine, HedgeAction, HedgePosition, OptionPosition, OptionType,
};
use nautilus_core::options::surface_builder::{Bracket, VolPoint, VolatilitySurfaceBuilder};
use nautilus_core::options::vol_arb::{ArbType, VolArbDetector};
use nautilus_core::portfolio::black_litterman::{
    BlackLittermanModel, InvestorView, RLEnhancedBlackLitterman, BL_MEMORY_BUDGET,
};
use nautilus_core::portfolio::budget::MemoryBudget;
use nautilus_core::portfolio::risk_budgeting::{
    HierarchicalRiskParity, RiskBudgetingAllocator, Step, MEMORY_BUDGET_BYTES,
};
use nautilus_core::portfolio::turnover_penalty::{
    AtomicWeightUpdater, Penalty, TurnoverPenaltyEngine, TurnoverTracker, TURNOVER_MEMORY_BUDGET,
};

const ONE: i64 = 100_000_000;

fn fixed(x: f64) -> i64 {
    (x * 1e8).round() as i64
}

fn call(strike: f64, quantity: f64) -> OptionPosition {
    OptionPosition {
        symbol: "BTC".to_string(),
        strike: fixed(strike) as u64,
        expiry_days: 30,
        quantity: fixed(quantity),
        option_type: OptionType::Call,
        entry_vol: fixed(0.65) as u64,
    }
}

#[test]
fn test_delta_neutral_hedge() {
    let mut engine = GammaScalpingEngine::new(FeeStructure::default());
    engine.add_option_position(call(100.0, 10.0));

    let delta = engine.get_portfolio_delta(&vec![fixed(0.55)]);
    assert!(delta > 0);
    assert_eq!(delta, 55_000_000 * 1_000_000_000);

    let signal = engine.generate_hedge_signal((delta / 100_000_000) as i64, fixed(100.0) as u64, 0);
    assert!(signal.is_some());
    let signal = signal.unwrap();
    assert_eq!(signal.action, HedgeAction::SellFuture);
    assert_eq!(signal.quantity, -fixed(5.5));

    engine.update_hedge_position(&signal.symbol, signal.quantity, fixed(100.0) as u64);
    assert_eq!(engine.get_portfolio_delta(&vec![fixed(0.55)]), 0);
}

#[test]
fn small_deltas_need_no_hedge() {
    let engine = GammaScalpingEngine::new(FeeStructure::default());
    assert!(engine.generate_hedge_signal(4_999_999, fixed(100.0) as u64, 0).is_none());
    let signal = engine.generate_hedge_signal(-5_000_000, fixed(100.0) as u64, 7).unwrap();
    assert_eq!(signal.action, HedgeAction::BuyFuture);
    assert_eq!(signal.quantity, 5_000_000);
    assert_eq!(signal.timestamp_ns, 7);
    assert_eq!(signal.estimated_cost, 5_000_000u128 * 10_000_000_000 * 40_000);
}

#[test]
fn test_funding_cost_calculation() {
    let engine = GammaScalpingEngine::new(FeeStructure::default());

    let hedges = vec![
        HedgePosition {
            symbol: "BTCUSDT".to_string(),
            quantity: fixed(1.0),
            entry_price: fixed(50000.0) as u64,
            unrealized_pnl: 0,
        },
        HedgePosition {
            symbol: "ETHUSDT".to_string(),
            quantity: fixed(-10.0),
            entry_price: fixed(3000.0) as u64,
            unrealized_pnl: 0,
        },
    ];

    let cost = engine.calculate_funding_cost(&hedges, fixed(0.0001)) as f64 / 1e24;
    assert!((cost - 2.0).abs() < 0.01);
}

#[test]
fn positions_are_removed_by_symbol_strike_and_type() {
    let mut engine = GammaScalpingEngine::new(FeeStructure::default());
    engine.add_option_position(call(100.0, 1.0));
    engine.add_option_position(call(110.0, 2.0));
    engine.add_option_position(call(100.0, 3.0));
    engine.remove_option_position("BTC", fixed(100.0) as u64, OptionType::Put);
    assert_eq!(engine.positions.len(), 3);
    engine.remove_option_position("BTC", fixed(100.0) as u64, OptionType::Call);
    assert_eq!(engine.positions.len(), 1);
    assert_eq!(engine.positions[0].quantity, fixed(2.0));
    assert!(!engine.is_running());
    engine.start();
    assert!(engine.is_running());
    engine.stop();
    assert!(!engine.is_running());
    assert_eq!(engine.get_portfolio_gamma(&vec![3]), 3 * 200_000_000);
}

#[test]
fn hedges_average_their_entry_price() {
    let mut engine = GammaScalpingEngine::new(FeeStructure::default());
    engine.update_hedge_position("X", fixed(1.0), fixed(100.0) as u64);
    engine.update_hedge_position("X", fixed(1.0), fixed(200.0) as u64);
    assert_eq!(engine.hedge_positions.len(), 1);
    assert_eq!(engine.hedge_positions[0].quantity, fixed(2.0));
    assert_eq!(engine.hedge_positions[0].entry_price, fixed(150.0) as u64);
    engine.update_hedge_position("X", fixed(-2.0), fixed(170.0) as u64);
    assert_eq!(engine.hedge_positions[0].quantity, 0);
    assert_eq!(engine.hedge_positions[0].entry_price, fixed(150.0) as u64);
}

#[test]
fn scalping_pays_when_realized_beats_implied() {
    let engine = GammaScalpingEngine::new(FeeStructure::default());
    assert!(engine.check_scalp_profitability(
        fixed(0.8) as u64,
        fixed(0.6) as u64,
        fixed(1.0),
        fixed(-0.13)
    ));
    assert!(!engine.check_scalp_profitability(
        fixed(0.8) as u64,
        fixed(0.6) as u64,
        fixed(1.0),
        fixed(-0.15)
    ));
    assert!(!engine.check_scalp_profitability(fixed(0.8) as u64, fixed(0.6) as u64, 0, 0));
}

fn vol_point(strike: u64, expiry_days: u32) -> VolPoint {
    VolPoint { strike, expiry_days, implied_vol: 65, bid_vol: 64, ask_vol: 66 }
}

#[test]
fn surfaces_are_grouped_by_expiry_and_bracketed() {
    let mut builder = VolatilitySurfaceBuilder::new();
    let buckets = builder.build_surface(vec![
        vol_point(100, 60),
        vol_point(90, 30),
        vol_point(110, 60),
        vol_point(95, 30),
    ]);
    assert_eq!(builder.expiries, vec![30, 60]);
    assert_eq!(buckets.len(), 2);
    assert_eq!(buckets[0].expiry_days, 30);
    assert_eq!(buckets[0].points.len(), 2);
    assert_eq!(builder.bracket(30), Some(Bracket::At(0)));
    assert_eq!(builder.bracket(10), Some(Bracket::At(0)));
    assert_eq!(builder.bracket(90), Some(Bracket::At(1)));
    assert_eq!(
        builder.bracket(40),
        Some(Bracket::Between { low: 0, weight: Ratio { num: 10, den: 30 } })
    );
    assert_eq!(VolatilitySurfaceBuilder::new().get_volatility(30, &vec![]), None);
    let vol = builder.get_volatility(40, &vec![60, 90]).unwrap();
    assert_eq!((vol.num, vol.den), (60 * 20 + 90 * 10, 30));
    assert_eq!(builder.get_volatility(10, &vec![60, 90]).unwrap().num, 60);
    assert!(builder.validate_no_arbitrage(&vec![100, 190]));
    assert!(!builder.validate_no_arbitrage(&vec![100, 189]));
    let points = vec![vol_point(1, 30), vol_point(2, 31)];
    assert_eq!(VolatilitySurfaceBuilder::calibration_points(&points, 31).len(), 1);
}

#[test]
fn test_butterfly_arb_detection() {
    let mut detector = VolArbDetector::new();
    let symbol = "BTC".to_string();
    let convex =
        vec![Some(fixed(9.0)), Some(fixed(7.5)), Some(fixed(6.2)), Some(fixed(5.1)), Some(fixed(4.2))];
    assert!(detector
        .scan_butterfly_arb(&symbol, fixed(100.0) as u64, 30, &convex, 5)
        .is_empty());
    assert!(!detector.has_pending_signal());
    let dented =
        vec![Some(fixed(9.0)), Some(fixed(8.9)), Some(fixed(3.0)), Some(fixed(2.9)), Some(fixed(1.0))];
    let signals = detector.scan_butterfly_arb(&symbol, fixed(100.0) as u64, 30, &dented, 6);
    assert!(!signals.is_empty());
    assert_eq!(signals[0].finding.arb_type, ArbType::ButterflySpread);
    assert!(detector.has_pending_signal());
    assert_eq!(detector.last_signal_timestamp(), 6);
    detector.clear_signal();
    assert!(!detector.has_pending_signal());
}

#[test]
fn calendar_and_risk_reversal_signals() {
    let mut detector = VolArbDetector::new();
    let symbol = "BTC".to_string();
    let flat: Vec<Option<u64>> = vec![Some(60_000_000); 5];
    let low: Vec<Option<u64>> = vec![Some(20_000_000); 5];
    let none = detector.scan_calendar_arb(
        &symbol,
        fixed(100.0) as u64,
        &vec![30, 60],
        &vec![flat.clone(), flat.clone()],
        1,
    );
    assert!(none.is_empty());
    let some = detector.scan_calendar_arb(
        &symbol,
        fixed(100.0) as u64,
        &vec![30, 60],
        &vec![flat, low],
        2,
    );
    assert!(!some.is_empty());
    assert_eq!(some[0].finding.arb_type, ArbType::CalendarSpread);
    let skew = detector.scan_risk_reversal_arb(
        &symbol,
        fixed(100.0) as u64,
        30,
        Some(90_000_000),
        Some(60_000_000),
        3,
    );
    assert!(!skew.is_empty());
    assert_eq!(skew[0].finding.arb_type, ArbType::RiskReversal);
    assert!(detector
        .scan_risk_reversal_arb(&symbol, fixed(100.0) as u64, 30, None, Some(60_000_000), 4)
        .is_empty());
}

fn market() -> (Vec<i64>, Vec<i64>) {
    let weights = vec![fixed(0.4), fixed(0.3), fixed(0.3)];
    let covariance = vec![
        fixed(0.04),
        fixed(0.01),
        fixed(0.005),
        fixed(0.01),
        fixed(0.03),
        fixed(0.008),
        fixed(0.005),
        fixed(0.008),
        fixed(0.025),
    ];
    (weights, covariance)
}

#[test]
fn test_black_litterman_construction() {
    let (weights, covariance) = market();
    let mut budget = MemoryBudget::new(BL_MEMORY_BUDGET);
    let bl = BlackLittermanModel::new(&weights, &covariance, fixed(2.5), &mut budget).unwrap();
    assert_eq!(bl.get_equilibrium_returns().len(), 3);
    let first = bl.get_equilibrium_returns()[0] as f64 / 1e24;
    assert!((first - 2.5 * (0.04 * 0.4 + 0.01 * 0.3 + 0.005 * 0.3)).abs() < 1e-12);
    assert_eq!(bl.get_market_weights(), &weights);
    assert_eq!(budget.used, 9 * 16 + 3 * 16);
    bl.release(&mut budget);
    assert_eq!(budget.used, 0);
}

#[test]
fn black_litterman_models_are_validated() {
    let (weights, covariance) = market();
    let mut budget = MemoryBudget::new(BL_MEMORY_BUDGET);
    let many = vec![0i64; 401];
    assert_eq!(
        BlackLittermanModel::new(&many, &covariance, ONE, &mut budget).err(),
        Some("Asset count exceeds Black-Litterman limit for 8GB RAM constraint")
    );
    assert_eq!(
        BlackLittermanModel::new(&weights, &vec![0; 8], ONE, &mut budget).err(),
        Some("Covariance matrix dimension mismatch")
    );
    let light = vec![fixed(0.4), fixed(0.3), fixed(0.2)];
    assert_eq!(
        BlackLittermanModel::new(&light, &covariance, ONE, &mut budget).err(),
        Some("Market weights must sum to approximately 1.0")
    );
    let mut small = MemoryBudget::new(100);
    assert_eq!(
        BlackLittermanModel::new(&weights, &covariance, ONE, &mut small).err(),
        Some("Memory budget exceeded for Black-Litterman construction")
    );
}

fn one_view(assets: Vec<usize>, confidence: i64) -> InvestorView {
    InvestorView { assets, weights: vec![ONE], expected_return: 15, confidence }
}

#[test]
fn test_view_incorporation() {
    let (weights, covariance) = market();
    let mut budget = MemoryBudget::new(BL_MEMORY_BUDGET);
    let bl = BlackLittermanModel::new(&weights, &covariance, fixed(2.5), &mut budget).unwrap();
    let views = vec![one_view(vec![0], fixed(0.7))];
    let rows = bl.prepare_views(&views).unwrap();
    assert_eq!(rows.len(), 1);
    assert_eq!(rows[0].row, vec![ONE, 0, 0]);
    assert_eq!(rows[0].variance as f64 / 1e24, 0.04);
    assert_eq!(rows[0].expected_return, 15);
    assert_eq!(
        bl.prepare_views(&vec![one_view(vec![0, 1], ONE)]).err(),
        Some("View assets and weights dimension mismatch")
    );
    assert_eq!(
        bl.prepare_views(&vec![one_view(vec![0], ONE + 1)]).err(),
        Some("View confidence must be between 0 and 1")
    );
    assert_eq!(
        bl.prepare_views(&vec![one_view(vec![0], 0), one_view(vec![3], ONE)]).err(),
        Some("View references invalid asset index")
    );
    assert!(bl.prepare_views(&vec![]).unwrap().is_empty());
}

#[test]
fn test_rl_enhanced_bl() {
    let (weights, covariance) = market();
    let mut budget = MemoryBudget::new(BL_MEMORY_BUDGET);
    let rl_bl =
        RLEnhancedBlackLitterman::new(&weights, &covariance, fixed(2.5), fixed(0.5), &mut budget)
            .unwrap();
    let alpha_signals = vec![fixed(0.1), fixed(-0.05), fixed(0.02)];
    let views = rl_bl.generate_views_from_alpha(&alpha_signals, fixed(0.03) as u64);
    assert_eq!(views.len(), 2);
    assert_eq!(views[0].assets, vec![0]);
    assert_eq!(views[1].assets, vec![1]);
    assert_eq!(views[1].expected_return as f64 / 1e16, -0.025);
    assert_eq!(views[0].confidence, fixed(0.95));
    assert_eq!(rl_bl.base_model.prepare_views(&views).unwrap().len(), 2);
}

fn correlations() -> Vec<i64> {
    [1.0, 0.5, 0.3, 0.5, 1.0, 0.4, 0.3, 0.4, 1.0].iter().map(|c| fixed(*c)).collect()
}

fn weights_of(plan: &[Step], n: usize) -> Vec<f64> {
    let mut weights = vec![1.0; n];
    for step in plan {
        match *step {
            Step::Assign { asset } => weights[asset] = 1.0,
            Step::Scale { start, mid, end, left } => {
                let share = left.num as f64 / left.den as f64;
                for w in &mut weights[start..mid] {
                    *w *= share;
                }
                for w in &mut weights[mid..end] {
                    *w *= 1.0 - share;
                }
            }
        }
    }
    let sum: f64 = weights.iter().sum();
    for w in &mut weights {
        *w /= sum;
    }
    weights
}

#[test]
fn test_hrp_construction() {
    let mut budget = MemoryBudget::new(MEMORY_BUDGET_BYTES);
    let mut hrp = HierarchicalRiskParity::new(&correlations(), &vec![0, 1, 2], &mut budget).unwrap();
    assert!(hrp.build_dendrogram().is_ok());

    let weights = weights_of(&hrp.weight_plan().unwrap(), 3);
    assert_eq!(weights.len(), 3);

    let sum: f64 = weights.iter().sum();
    assert!((sum - 1.0).abs() < 1e-6);
}

#[test]
fn dendrograms_hold_every_asset_once() {
    let mut budget = MemoryBudget::new(MEMORY_BUDGET_BYTES);
    let mut hrp = HierarchicalRiskParity::new(&correlations(), &vec![0, 1, 2], &mut budget).unwrap();
    let merges = hrp.compute_linkage();
    assert_eq!(merges.len(), 2);
    assert_eq!((merges[0].kept, merges[0].joined, merges[0].distance), (0, 2, fixed(0.3)));
    assert_eq!((merges[1].kept, merges[1].joined, merges[1].distance), (0, 1, fixed(0.5)));
    assert_eq!(
        hrp.weight_plan().err(),
        Some("Dendrogram not built. Call build_dendrogram first.")
    );
    hrp.build_dendrogram().unwrap();
    let mut assets = Vec::new();
    {
        let root = hrp.dendrogram_root.as_ref().unwrap();
        assert_eq!(root.size, 3);
        assert_eq!(root.id, 4);
        hrp.collect_assets(root, &mut assets);
        let variance = hrp.cluster_variance(root);
        assert_eq!(variance.num, 3 * 100_000_000 - 120_000_000);
        assert_eq!(variance.den, 3);
    }
    assert_eq!(assets, vec![0, 2, 1]);
    assert_eq!(hrp.get_correlation(0, 9), ONE);
    hrp.release(&mut budget);
    assert_eq!(budget.used, 0);
}

#[test]
fn hrp_inputs_are_validated() {
    let mut budget = MemoryBudget::new(MEMORY_BUDGET_BYTES);
    assert_eq!(
        HierarchicalRiskParity::new(&vec![], &vec![0; 501], &mut budget).err(),
        Some("Asset count exceeds maximum limit for 8GB RAM constraint")
    );
    assert_eq!(
        HierarchicalRiskParity::new(&vec![1], &vec![0, 1], &mut budget).err(),
        Some("Correlation matrix dimension mismatch")
    );
    let mut small = MemoryBudget::new(10);
    assert_eq!(
        HierarchicalRiskParity::new(&correlations(), &vec![0, 1, 2], &mut small).err(),
        Some("Memory budget exceeded for HRP construction")
    );
}

#[test]
fn test_risk_budgeting_allocator() {
    let target_risk = vec![fixed(0.4), fixed(0.3), fixed(0.3)];
    let mut allocator = RiskBudgetingAllocator::new(target_risk, fixed(0.1) as u64).unwrap();

    let new_weights = vec![fixed(0.5), fixed(0.3), fixed(0.2)];
    let updated = allocator.update_weights(&new_weights).unwrap();

    assert_eq!(updated.len(), 3);
    let sum: f64 = updated.iter().map(|w| *w as f64 / 1e8).sum();
    assert!((sum - 1.0).abs() < 1e-6);
    assert_eq!(allocator.get_weights_snapshot(), updated);
    assert_eq!(allocator.update_weights(&vec![1]).err(), Some("Weight dimension mismatch"));
    assert_eq!(
        RiskBudgetingAllocator::new(vec![0, 0], 1).err(),
        Some("Target risk must sum to positive value")
    );
}

#[test]
fn a_penalty_keeps_weights_near_the_current_ones() {
    let mut free = RiskBudgetingAllocator::new(vec![1, 1], 0).unwrap();
    assert_eq!(free.update_weights(&vec![ONE, 0]).unwrap(), vec![ONE, 0]);
    let mut held = RiskBudgetingAllocator::new(vec![1, 1], ONE as u64).unwrap();
    assert_eq!(held.update_weights(&vec![ONE, 0]).unwrap(), vec![75_000_000, 25_000_000]);
}

#[test]
fn test_turnover_tracker() {
    let mut budget = MemoryBudget::new(TURNOVER_MEMORY_BUDGET);
    let mut tracker = TurnoverTracker::new(10, 100, &mut budget).unwrap();

    for i in 0..50 {
        tracker.record_turnover(fixed(0.05 + (i as f64 * 0.001)) as u64);
    }

    let mean = tracker.mean_turnover();
    assert!(mean.num as f64 / mean.den as f64 / 1e8 > 0.05);
    let variance = tracker.turnover_variance();
    assert!((variance.num as f64 / variance.den as f64).sqrt() >= 0.0);
    assert_eq!(mean.den, 50);
    tracker.release(&mut budget);
    assert_eq!(budget.used, 0);
}

#[test]
fn old_turnovers_leave_a_full_history() {
    let mut budget = MemoryBudget::new(TURNOVER_MEMORY_BUDGET);
    let mut tracker = TurnoverTracker::new(1, 3, &mut budget).unwrap();
    for t in [10, 1, 2, 3] {
        tracker.record_turnover(t);
    }
    assert_eq!(tracker.turnover_history, vec![1, 2, 3]);
    assert_eq!(tracker.mean_turnover(), Ratio { num: 6, den: 3 });
    assert_eq!(tracker.recent_trend(2), Ratio { num: 5, den: 2 });
    assert_eq!(tracker.turnover_variance().num, 6);
    assert_eq!(tracker.turnover_variance().den, 9);
    assert!(!tracker.is_elevated(Ratio { num: 1, den: 1 }));
    assert!(tracker.is_elevated(Ratio { num: 1, den: 2 }));
    assert_eq!(
        TurnoverTracker::new(301, 3, &mut budget).err(),
        Some("Asset count exceeds maximum for turnover tracking")
    );
    let mut small = MemoryBudget::new(1);
    assert_eq!(
        TurnoverTracker::new(1, 3, &mut small).err(),
        Some("Memory budget exceeded for turnover tracking")
    );
}

fn penalty_value(p: Penalty) -> f64 {
    match p {
        Penalty::Free => 0.0,
        Penalty::Prohibitive => f64::MAX,
        Penalty::TooSoon { coefficient, interval_ns, elapsed_ns } => {
            coefficient as f64 / 1e16 * interval_ns as f64 / elapsed_ns as f64
        }
        Penalty::Scaled { coefficient, factor, turnover } => {
            coefficient as f64 / 1e16 * factor as f64 / 1e8 * turnover as f64 / 1e8
        }
    }
}

#[test]
fn test_penalty_engine() {
    let current = vec![fixed(0.4), fixed(0.3), fixed(0.3)];
    let proposed = vec![fixed(0.5), fixed(0.25), fixed(0.25)];

    let mut budget = MemoryBudget::new(TURNOVER_MEMORY_BUDGET);
    let engine =
        TurnoverPenaltyEngine::new(fixed(0.1) as u64, 3, 1, fixed(100.0) as u64, &mut budget, 0)
            .unwrap();

    let penalty = penalty_value(engine.calculate_penalty(&current, &proposed, 100));
    assert!(penalty > 0.0);

    let small_change = vec![fixed(0.41), fixed(0.30), fixed(0.29)];
    let small_penalty = penalty_value(engine.calculate_penalty(&current, &small_change, 200));
    assert!(small_penalty < penalty);

    let later = 2_000_000_000;
    let penalty = penalty_value(engine.calculate_penalty(&current, &proposed, later));
    let small_penalty = penalty_value(engine.calculate_penalty(&current, &small_change, later));
    assert!(small_penalty < penalty);
    assert!((penalty - 0.1 * 1.5 * 0.2).abs() < 1e-12);
}

#[test]
fn rebalances_are_bounded_by_threshold_and_daily_cost() {
    let mut budget = MemoryBudget::new(TURNOVER_MEMORY_BUDGET);
    let mut engine =
        TurnoverPenaltyEngine::new(fixed(0.1) as u64, 2, 0, fixed(10.0) as u64, &mut budget, 0)
            .unwrap();
    let current = vec![fixed(0.5), fixed(0.5)];
    let proposed = vec![fixed(0.7), fixed(0.3)];
    assert_eq!(
        engine.try_rebalance(&current, &proposed, 0, 5).err(),
        Some("Turnover penalty exceeds threshold")
    );
    assert_eq!(engine.try_rebalance(&current, &proposed, ONE as u64, 5).unwrap(), proposed);
    assert_eq!(engine.cumulative_costs_bps, fixed(6.0) as u64);
    assert_eq!(engine.calculate_penalty(&proposed, &current, 6), Penalty::Prohibitive);
    assert_eq!(engine.calculate_penalty(&proposed, &vec![1], 6), Penalty::Prohibitive);
    engine.reset_daily_counter();
    assert_eq!(engine.cumulative_costs_bps, 0);
    engine.set_penalty_enabled(false);
    assert_eq!(engine.calculate_penalty(&proposed, &current, 6), Penalty::Free);
    let stats = engine.get_statistics(25);
    assert_eq!(stats.mean_turnover, Ratio { num: 40_000_000, den: 1 });
    assert_eq!(stats.time_since_last_rebalance_ns, 20);
    assert_eq!(stats.dynamic_multiplier, ONE as u64);
}

#[test]
fn test_atomic_updater() {
    let initial: Vec<u64> = [0.4f64, 0.3, 0.3].iter().map(|w| w.to_bits()).collect();
    let mut updater = AtomicWeightUpdater::new(&initial).unwrap();

    let snapshot = updater.get_snapshot();
    assert_eq!(snapshot, initial);

    let new_weights: Vec<u64> = [0.5f64, 0.3, 0.2].iter().map(|w| w.to_bits()).collect();
    updater.update_all(&new_weights).unwrap();

    let new_snapshot = updater.get_snapshot();
    assert_eq!(new_snapshot, new_weights);

    assert_eq!(updater.update_all(&vec![1]).err(), Some("Weight dimension mismatch"));
    assert_eq!(updater.update_single(3, 1).err(), Some("Invalid asset index"));
    updater.update_single(1, 7).unwrap();
    assert_eq!(updater.get_snapshot()[1], 7);
    assert_eq!(
        AtomicWeightUpdater::new(&vec![0; 301]).err(),
        Some("Asset count exceeds maximum for atomic updater")
    );
}
