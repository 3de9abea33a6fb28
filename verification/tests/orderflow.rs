use nautilus_core::math::Ratio;
use nautilus_core::orderflow::absorption::{
    classify_absorption, AbsorptionDetector, AbsorptionType, Confidence,
    MultiTimeframeCvdAnalyzer,
};
use nautilus_core::orderflow::footprint::{
    FootprintAnalyzer, FootprintStreamProcessor, PriceLevel,
};
use nautilus_core::orderflow::iceberg_detector::{
    match_sizes, IcebergDetector, OrderSide, TradeTick, MIN_REPEAT_FILLS,
};
use nautilus_core::orderflow::imbalance_shocks::EventWindow;
use nautilus_core::orderflow::micro_patterns::{
    FsmState, PatternConfig, PatternFsm, PatternManager, PatternType,
};
use nautilus_core::orderflow::spoofing::{
    detect_patterns, OrderEvent, OrderEventType, SpoofingDetector,
};
use nautilus_core::orderflow::toxicity::{
    vpin_batch, VpinDetector, VPIN_BUCKET_SIZE, VPIN_WINDOW_SIZE,
};
use nautilus_core::orderflow::toxicity_vpin::VpinCalculator;
use nautilus_core::orderflow::volume_profile::{SessionVolumeProfile, VolumeProfileCalculator};

fn value(r: Ratio) -> f64 {
    r.num as f64 / r.den as f64
}

#[test]
fn test_cvd_basic() {
    let mut detector = AbsorptionDetector::new(100, 10);

    detector.process_trade(5000000000, 500, false, 1000000);
    detector.process_trade(5000000000, 300, true, 1000001);

    let cvd = detector.get_current_cvd();
    assert_eq!(cvd, 200);
}

#[test]
fn absorption_test_absorption_detection() {
    let mut detector = AbsorptionDetector::new(100, 5);

    for i in 0..10 {
        detector.process_trade(5000000000 + i * 10000, 50, false, 1000000 + i as u64);
    }

    detector.process_trade(5000900000, 1000, true, 2000000);

    let events = detector.poll_events();
    assert_eq!(detector.get_events_count(), events.len() as u64);
    assert!(detector.poll_events().is_empty());
}

#[test]
fn test_divergence_score() {
    let mut detector = AbsorptionDetector::new(50, 5);

    detector.process_trade(5000000000, 100, true, 1000000);
    detector.process_trade(4999900000, 100, true, 1000001);
    detector.process_trade(4999800000, 500, false, 1000002);

    let score = detector.calculate_divergence_score();
    assert!((score as f64).is_finite());
}

#[test]
fn heavy_selling_into_a_steady_price_is_absorbed() {
    let price = 5000000000;
    let event = classify_absorption(price, 0, -9000, price, 1000, true, 9, 100).unwrap();
    assert_eq!(event.timestamp_ns, 9);
    assert_eq!(event.price, price);
    assert_eq!(event.cvd_value, -9000);
    assert_eq!(event.price_change, 0);
    assert_eq!(event.volume_anomaly, Ratio { num: 1000, den: 100 });
    assert!(event.event_type != AbsorptionType::InstitutionalBuyWall);
    assert!(classify_absorption(0, 0, -9000, price, 1000, true, 9, 100).is_none());
}

#[test]
fn confidence_is_at_most_one() {
    let price = 5000000000;
    let event = classify_absorption(price, 0, -9000, price, 1000, true, 9, 100).unwrap();
    assert_eq!(event.event_type, AbsorptionType::SellingExhaustion);
    assert_eq!(event.confidence, Confidence { num: 9000, den: 15000 });
    let event = classify_absorption(price, 0, 14000, price, 1000, true, 9, 100).unwrap();
    assert_eq!(event.event_type, AbsorptionType::InstitutionalSellWall);
    assert_eq!(event.confidence, Confidence { num: 14000, den: 15000 });
    let event = classify_absorption(price, 0, 15000, price, 1000, true, 9, 100).unwrap();
    assert_eq!(event.confidence, Confidence { num: 15000, den: 15000 });
    let event = classify_absorption(price, 0, 15001, price, 1000, true, 9, 100).unwrap();
    assert_eq!(event.confidence, Confidence { num: 1, den: 1 });
    let event = classify_absorption(price, 0, -7, price, 0, false, 9, 100).unwrap();
    assert_eq!(event.event_type, AbsorptionType::InstitutionalBuyWall);
    assert_eq!(event.confidence, Confidence { num: 1, den: 1 });
    let volume = i64::MAX as u64 / 5;
    let event = classify_absorption(price, 0, i64::MAX, price, volume, false, 9, 100).unwrap();
    assert_eq!(event.event_type, AbsorptionType::BuyingExhaustion);
    assert_eq!(
        event.confidence,
        Confidence { num: i64::MAX as u64, den: volume as u128 * 15 }
    );
}

#[test]
fn queued_events_come_out_of_both_timeframes() {
    let mut analyzer = MultiTimeframeCvdAnalyzer::new(10);
    for i in 0..40 {
        analyzer.process_trade(5000000000, 100 + i, true, 1_000_000 + i);
    }
    let events = analyzer.poll_all_events();
    for pair in events.windows(2) {
        assert!(pair[0].timestamp_ns <= pair[1].timestamp_ns);
    }
    assert!(analyzer.poll_all_events().is_empty());
    let _ = analyzer.get_combined_signal();
}

#[test]
fn test_footprint_basic() {
    let mut analyzer = FootprintAnalyzer::new(100, 1000);

    analyzer.process_trade(5000000000, 100, false, 1000000);
    analyzer.process_trade(5000000000, 50, true, 1000001);
    analyzer.process_trade(5000100000, 200, false, 1000002);

    assert_eq!(analyzer.get_trades_count(), 3);

    let imbalance = analyzer.get_delta_imbalance(5000000000);
    assert!(imbalance.is_some());
    assert!(imbalance.unwrap().num > 0);
    assert!(analyzer.get_delta_imbalance(1).is_none());
}

#[test]
fn test_cluster_finalization() {
    let mut analyzer = FootprintAnalyzer::new(100, 1000);

    analyzer.process_trade(5000000000, 100, false, 1000000);
    analyzer.process_trade(5000000000, 50, true, 1000001);

    let cluster = analyzer.finalize_cluster();
    assert!(cluster.is_some());

    let c = cluster.unwrap();
    assert_eq!(c.total_bid_volume, 50);
    assert_eq!(c.total_ask_volume, 100);
    assert_eq!(c.cumulative_delta, 50);
    assert_eq!(c.levels.len(), 1);
    assert_eq!(c.levels[0].price, 5000000000);
    assert!(analyzer.finalize_cluster().is_none());
}

#[test]
fn finished_clusters_are_queued_once() {
    let mut stream = FootprintStreamProcessor::new(100, 10);
    stream.process_agg_trade(5000000000, 100, false, 1);
    stream.process_agg_trade(5000000100, 100, true, 2);
    stream.process_agg_trade(5000000200, 100, true, 50);
    assert_eq!(stream.get_analyzer().get_trades_count(), 3);
    let clusters = stream.analyzer.poll_clusters();
    assert!(!clusters.is_empty());
    assert!(stream.analyzer.poll_clusters().is_empty());
    for c in &clusters {
        for pair in c.levels.windows(2) {
            assert!(pair[0].price > pair[1].price || pair[0].price < pair[1].price);
        }
    }
}

#[test]
fn price_levels_count_both_sides() {
    let mut level = PriceLevel::new(7);
    level.add_trade(10, true, 1);
    level.add_trade(30, false, 2);
    assert_eq!(level.bid_volume, 10);
    assert_eq!(level.ask_volume, 30);
    assert_eq!(level.delta, 20);
    assert_eq!(level.total_volume, 40);
    assert_eq!(level.trade_count, 2);
    let ratio = level.imbalance_ratio();
    assert_eq!(ratio.num as f64 / ratio.den as f64, 0.5);
}

#[test]
fn test_iceberg_detection() {
    let mut detector = IcebergDetector::new();

    for i in 0..MIN_REPEAT_FILLS + 2 {
        let tick = TradeTick {
            price: 50000,
            quantity: 100,
            is_buy: false,
            timestamp_ns: 1000000 + i as u128 * 1_000_000_000,
        };
        detector.process_tick(tick);
    }

    let icebergs = detector.get_icebergs();
    assert!(icebergs.iter().any(|i| i.price == 50000 && i.is_confirmed()));
    assert_eq!(icebergs[0].side, OrderSide::Bid);
    assert_eq!(icebergs[0].confidence.num, icebergs[0].confidence.den);
    assert_eq!(detector.get_stats().bid_icebergs, 1);
    assert_eq!(detector.get_stats().ask_icebergs, 0);
}

#[test]
fn test_non_iceberg_not_flagged() {
    let mut detector = IcebergDetector::new();

    for i in 0..10 {
        let tick = TradeTick {
            price: 50000 + i as i64,
            quantity: 100 + i as u64 * 50,
            is_buy: i % 2 == 0,
            timestamp_ns: 1000000 + i as u128 * 1_000_000_000,
        };
        detector.process_tick(tick);
    }

    let icebergs = detector.get_icebergs();
    assert!(!icebergs.iter().any(|i| i.is_confirmed()));
}

#[test]
fn stale_candidates_are_dropped() {
    let mut detector = IcebergDetector::new();
    detector.process_tick(TradeTick { price: 1, quantity: 10, is_buy: true, timestamp_ns: 5 });
    detector.cleanup_stale(5 + 60_000_000_001);
    for i in 0..4 {
        detector.process_tick(TradeTick {
            price: 1,
            quantity: 10,
            is_buy: true,
            timestamp_ns: 70_000_000_000 + i,
        });
    }
    assert!(detector.get_icebergs().is_empty());
    assert_eq!(match_sizes(&[10, 11, 20, 9], 10, 1), 3);
}

#[test]
fn windows_forget_old_events() {
    let mut window = EventWindow::new();
    assert_eq!(window.add_event(1_000_000_000, 0), 0);
    assert_eq!(window.add_event(1_010_000_000, 1), 10_000_000);
    assert_eq!(window.get_event_count(), 2);
    window.add_event(1_010_000_000 + 5_000_000_000, 0);
    assert!(window.get_event_count() <= 2);
    window.reset();
    assert_eq!(window.get_event_count(), 0);
}

#[test]
fn test_stop_run_detection() {
    let mut fsm = PatternFsm::new();
    let config = PatternConfig {
        stop_run_ticks: 5,
        absorption_volume: 10000,
        time_window_ns: 100_000_000,
        confirmation_count: 3,
    };

    let base_price = 5000000;
    let ts = 1000000000u64;

    for i in 0..10 {
        let price = base_price + i * 200;
        let _ = fsm.process_tick(price, 5000, ts + i * 1_000_000, &config);
    }

    assert!(fsm.get_state() == FsmState::Building || fsm.get_state() == FsmState::Triggered);
}

#[test]
fn micro_patterns_test_absorption_detection() {
    let mut fsm = PatternFsm::new();
    let config = PatternConfig::default();

    let price = 5000000;
    let ts = 1000000000u64;

    for i in 0..5 {
        let _ = fsm.process_tick(price, 3000, ts + i * 10_000_000, &config);
    }

    let state = fsm.get_state();
    assert!(state == FsmState::Building || state == FsmState::Triggered);
}

#[test]
fn patterns_are_confirmed_by_confirming_ticks() {
    let config = PatternConfig::default();
    let mut fsm = PatternFsm::new();
    fsm.process_tick(5000000, 5000, 1, &config);
    fsm.process_tick(5000600, 100, 2, &config);
    assert_eq!(fsm.get_state(), FsmState::Triggered);
    assert_eq!(fsm.process_tick(5000800, 100, 3, &config), None);
    assert_eq!(fsm.process_tick(5000500, 100, 4, &config), None);
    assert_eq!(fsm.process_tick(5000500, 100, 5, &config), None);
    assert_eq!(fsm.process_tick(5000400, 100, 6, &config), Some((PatternType::StopRun, 80)));
    assert_eq!(fsm.get_state(), FsmState::Confirmed);
    fsm.process_tick(5000100, 100, 7, &config);
    assert_eq!(fsm.get_state(), FsmState::Exhausted);
    fsm.process_tick(5000100, 100, 200_000_000, &config);
    assert_eq!(fsm.get_state(), FsmState::Idle);
}

#[test]
fn absorption_is_confirmed_by_any_tick() {
    let config = PatternConfig::default();
    let mut fsm = PatternFsm::new();
    for i in 0..4 {
        fsm.process_tick(5000000, 3000, 1 + i, &config);
    }
    assert_eq!(fsm.get_state(), FsmState::Triggered);
    assert_eq!(fsm.process_tick(5900000, 100, 6, &config), None);
    assert_eq!(fsm.process_tick(4100000, 100, 7, &config), None);
    assert_eq!(fsm.process_tick(5000000, 100, 8, &config), Some((PatternType::Absorption, 80)));
    assert_eq!(fsm.get_state(), FsmState::Confirmed);
}

#[test]
fn pattern_numbers_out_of_range_mean_nothing() {
    assert_eq!(PatternType::from_u8(200), PatternType::NoPattern);
    assert_eq!(FsmState::from_u8(200), FsmState::Idle);
    let mut manager = PatternManager::new();
    let signals = manager.process_tick(5000000, 10, 1, &PatternConfig::default());
    assert!(signals.is_empty());
    let mut fsm = PatternFsm::new();
    fsm.process_tick(5000000, 10, 1, &PatternConfig::default());
    fsm.reset();
    assert_eq!(fsm.get_state(), FsmState::Idle);
    assert_eq!(fsm.get_signal_strength(), 0);
}

fn order(order_id: u64, timestamp_ns: u128, event_type: OrderEventType) -> OrderEvent {
    OrderEvent { order_id, price: 50000, quantity: 100, is_bid: true, timestamp_ns, event_type }
}

#[test]
fn test_rapid_cancellation_detection() {
    let mut detector = SpoofingDetector::new();

    let new_event = OrderEvent {
        order_id: 1,
        price: 50000,
        quantity: 100,
        is_bid: true,
        timestamp_ns: 1000000,
        event_type: OrderEventType::New,
    };
    detector.process_event(new_event);

    let cancel_event = OrderEvent {
        order_id: 1,
        price: 50000,
        quantity: 100,
        is_bid: true,
        timestamp_ns: 1000000 + 5_000_000,
        event_type: OrderEventType::Cancel,
    };

    let suspicious = detector.process_event(cancel_event);
    assert!(suspicious);
    assert!(detector.is_spoofing_detected());
}

#[test]
fn test_normal_trading_not_flagged() {
    let mut detector = SpoofingDetector::new();

    for i in 0..100u64 {
        let new_event = OrderEvent {
            order_id: i,
            price: 50000,
            quantity: 100,
            is_bid: true,
            timestamp_ns: 1000000 + i as u128 * 1000,
            event_type: OrderEventType::New,
        };
        detector.process_event(new_event);

        let trade_event = OrderEvent {
            order_id: i,
            price: 50000,
            quantity: 100,
            is_bid: true,
            timestamp_ns: 1000000 + i as u128 * 1000 + 50_000_000,
            event_type: OrderEventType::Trade,
        };
        detector.process_event(trade_event);
    }

    assert!(!detector.is_spoofing_detected());
    assert_eq!(value(detector.get_cancellation_ratio()), 0.0);
}

#[test]
fn slow_cancels_are_not_suspicious() {
    let mut detector = SpoofingDetector::new();
    assert!(!detector.process_event(order(1, 0, OrderEventType::New)));
    assert!(!detector.process_event(order(1, 10_000_000, OrderEventType::Modify)));
    detector.process_event(order(1, 20_000_000, OrderEventType::Cancel));
    assert_eq!(detector.get_stats().spoofing_alerts, 0);
    detector.reset();
    assert_eq!(detector.get_stats().active_order_count, 0);
    let events = [
        order(1, 0, OrderEventType::New),
        order(1, 1_000_000, OrderEventType::Cancel),
        order(2, 2_000_000, OrderEventType::New),
    ];
    assert!(detect_patterns(&events) <= 3);
}

#[test]
fn toxicity_test_vpin_calculation() {
    let mut detector = VpinDetector::new();

    for _ in 0..VPIN_BUCKET_SIZE / 2 {
        detector.process_trade(1, true);
        detector.process_trade(1, false);
    }

    assert!(value(detector.vpin()) < 0.5);
    assert!(!detector.is_toxic());
}

fn spread(detector: &VpinDetector) -> f64 {
    let (num, den) = detector.get_spread_adjustment();
    num as f64 / den as f64
}

#[test]
fn test_toxic_flow_detection() {
    let mut detector = VpinDetector::new();

    for _ in 0..VPIN_BUCKET_SIZE * VPIN_WINDOW_SIZE as u64 {
        detector.process_trade(1, false);
    }

    assert!(value(detector.vpin()) > 0.7);
    assert!(detector.is_toxic());
    assert!(spread(&detector) > 1.0);
}

#[test]
fn test_spread_adjustment() {
    let mut detector = VpinDetector::new();

    assert_eq!(spread(&detector), 1.0);

    for _ in 0..VPIN_BUCKET_SIZE * VPIN_WINDOW_SIZE as u64 {
        detector.process_trade(1, false);
    }

    let adjustment = spread(&detector);
    assert!(adjustment > 2.5);
    detector.reset();
    assert_eq!(spread(&detector), 1.0);
    assert_eq!(value(vpin_batch(&[30, 10], &[10, 30])), 0.5);
}

#[test]
fn toxicity_vpin_test_vpin_calculation() {
    let mut calc = VpinCalculator::new(10, 1000);

    for i in 0..20 {
        let _ = calc.add_tick(50000, 100, i * 1000, 50000);
    }

    let vpin = calc.get_vpin();
    println!("VPIN: {}", vpin);
    assert!(vpin <= 10000);
}

#[test]
fn test_adaptive_bucket_sizing() {
    let mut calc = VpinCalculator::new(10, 1000);

    for i in 0..5 {
        let _ = calc.add_tick(50000, 50, i * 2_000_000_000, 50000);
    }

    assert!(calc.get_target_bucket_volume() <= 1000);
}

#[test]
fn one_sided_flow_is_toxic() {
    let mut calc = VpinCalculator::new(4, 1000);
    let mut price = 50000;
    for i in 0..20 {
        price += 1;
        calc.add_tick(price, 1000, i * 1_000_000_000, price - 1);
    }
    assert_eq!(calc.get_vpin(), 10000);
    assert!(calc.is_toxic(9999));
    assert!(!calc.is_toxic(10001));
}

#[test]
fn test_volume_profile_basic() {
    let mut calc = VolumeProfileCalculator::new(100);

    calc.process_tick(5000000000, 100, false);
    calc.process_tick(5000000000, 50, true);
    calc.process_tick(5000100000, 200, false);
    calc.process_tick(4999900000, 150, true);

    let stats = calc.calculate_stats();
    assert!(stats.is_some());

    let s = stats.unwrap();
    assert_eq!(s.total_volume, 500);
    assert!(s.poc_price != 0);
}

#[test]
fn test_poc_calculation() {
    let mut calc = VolumeProfileCalculator::new(100);

    calc.process_tick(5000000000, 500, false);
    calc.process_tick(5000100000, 100, false);
    calc.process_tick(4999900000, 100, false);

    let poc = calc.calculate_poc();
    assert!(poc.is_some());
    assert_eq!(poc.unwrap().0, 5000000000);
}

#[test]
fn test_session_profile() {
    let mut session = SessionVolumeProfile::new(100, 24);

    session.process_tick(5000000000, 100, false, 1000000);
    session.process_tick(5000100000, 200, true, 1000001);

    let stats = session.get_current_stats();
    assert!(stats.is_some());
}

#[test]
fn profiles_are_empty_until_traded() {
    let mut calc = VolumeProfileCalculator::new(100);
    assert!(calc.calculate_poc().is_none());
    assert!(calc.calculate_stats().is_none());
    assert!(calc.calculate_value_area(70).is_none());
    calc.process_tick(1000, 5, true);
    assert_eq!(calc.get_active_bins(), 1);
    assert_eq!(calc.calculate_value_area(70), Some((1000, 1000)));
    assert_eq!(calc.get_visible_range(0, 2000).len(), 1);
    calc.reset();
    assert_eq!(calc.get_active_bins(), 0);
}

#[test]
fn slow_buckets_reduce_the_target() {
    let mut calc = VpinCalculator::new(5, 100);
    for i in 0..5 {
        calc.add_tick(10, 50, i * 10_000_000_000 + 1, 10);
        calc.add_tick(10, 50, i * 10_000_000_000 + 3_000_000_001, 10);
    }
    assert_eq!(calc.get_target_bucket_volume(), 90);
    assert_eq!(calc.get_vpin(), 10000);
    let mut large = VpinCalculator::new(5, 1050);
    for i in 0..5 {
        large.add_tick(10, 1, i * 10_000_000_000 + 1, 10);
        large.add_tick(10, 1050, i * 10_000_000_000 + 3_000_000_001, 10);
    }
    assert_eq!(large.get_target_bucket_volume(), 1000);
    let mut tiny = VpinCalculator::new(5, 1);
    for i in 0..5 {
        tiny.add_tick(10, 0, i * 10_000_000_000 + 1, 10);
        tiny.add_tick(10, 1, i * 10_000_000_000 + 3_000_000_001, 10);
    }
    assert_eq!(tiny.get_target_bucket_volume(), 1);
}

#[test]
fn finished_clusters_carry_their_sums_and_bounds() {
    let mut stream = FootprintStreamProcessor::new(100, 10);
    stream.process_agg_trade(500, 1, false, 20);
    assert_eq!(stream.analyzer.poll_clusters().len(), 1);
    stream.process_agg_trade(700, 3, false, 21);
    stream.process_agg_trade(300, 4, true, 22);
    stream.process_agg_trade(500, 5, false, 40);
    let clusters = stream.analyzer.poll_clusters();
    assert_eq!(clusters.len(), 1);
    let c = &clusters[0];
    assert_eq!((c.open_price, c.close_price, c.low_price, c.high_price), (700, 500, 300, 700));
    assert_eq!((c.start_time_ns, c.end_time_ns), (21_000_000, 40_000_000));
    assert_eq!((c.total_bid_volume, c.total_ask_volume, c.cumulative_delta), (4, 8, 4));
    assert_eq!((c.max_imbalance.unwrap().num, c.max_imbalance.unwrap().den), (5, 5));
    assert_eq!(c.min_imbalance.unwrap().num, -4);
}

#[test]
fn confirmed_icebergs_leave_with_their_last_fill() {
    let mut detector = IcebergDetector::new();
    for i in 0..5 {
        detector.process_tick(TradeTick {
            price: 7,
            quantity: 10,
            is_buy: true,
            timestamp_ns: 1_000_000_000 * (i + 1),
        });
    }
    assert_eq!(detector.get_icebergs().len(), 1);
    detector.cleanup_stale(64_000_000_000);
    assert_eq!(detector.get_icebergs().len(), 1);
    detector.cleanup_stale(65_000_000_000);
    assert!(detector.get_icebergs().is_empty());
}

#[test]
fn the_first_of_equal_prices_is_the_point_of_control() {
    let mut profile = VolumeProfileCalculator::new(100);
    for (price, volume) in [(300, 0), (200, 5), (100, 3), (100, 4), (200, 2), (400, 6)] {
        profile.process_tick(price, volume, true);
    }
    assert_eq!(profile.calculate_poc(), Some((200, 7)));
    let seen: Vec<(i64, u64)> =
        profile.get_visible_range(400, 100).iter().map(|b| (b.price, b.volume)).collect();
    assert_eq!(seen, vec![(100, 7), (200, 7), (400, 6)]);
    assert_eq!(profile.get_visible_range(100, 400), profile.get_visible_range(400, 100));
}
