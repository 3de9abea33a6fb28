use nautilus_core::math::Ratio;
use nautilus_core::network::connection_pool::{
    ConnectionPool, ConnectionPoolBuilder, PooledConnection,
};
use nautilus_core::network::dma_buffer::DmaBufferPool;
use nautilus_core::network::failover::{ConnectionMode, FailoverReason, FailoverRouter};
use nautilus_core::network::heartbeat::{ConnectionHealth, HeartbeatTracker};
use nautilus_core::network::iocp_ring::{
    IocpConnection, IocpManager, IocpRingBuffer, OverlappedWrapper,
};
use nautilus_core::network::packet_mmap::{
    exchange_ts_to_tsc, PacketParser, ParseResult, TICK_MAGIC,
};
use nautilus_core::network::riocp::RioExtension;
use nautilus_core::network::tcp_tuning::Platform;
use nautilus_core::network::ws_multiplexer::JsonParser;
use nautilus_core::nic::interrupt_coalesce::{apply_settings, InterruptCoalescer};
use nautilus_core::observability::allocator_stats::MemoryTracker;
use nautilus_core::orderflow::absorption::{AbsorptionDetector, CvdState};
use nautilus_core::orderflow::footprint::FootprintAnalyzer;
use nautilus_core::orderflow::iceberg_detector::{IcebergDetector, TradeTick};
use nautilus_core::orderflow::imbalance_shocks::EventWindow;
use nautilus_core::orderflow::micro_patterns::PatternManager;
use nautilus_core::orderflow::spoofing::{OrderEvent, OrderEventType, SpoofingDetector};
use nautilus_core::orderflow::toxicity::VpinDetector;
use nautilus_core::orderflow::volume_profile::{SessionVolumeProfile, VolumeProfileCalculator};
use nautilus_core::os::dpc_routine::DpcRoutineManager;
use nautilus_core::os::interrupt_affinity::{InterruptAffinityManager, NetworkAdapter};
use nautilus_core::os::large_pages::{LargePageConfig, LargePageManager};
use nautilus_core::os::memory_evictor::{MemoryEvictor, RAM_LIMIT_BYTES};
use nautilus_core::os::numa_aware::NumaAllocator;
use nautilus_core::os::process_guard::{ProbedProcess, ProcessGuard, ProcessProbe};
use nautilus_core::os::thermal_shedder::{EnginePriority, SheddableEngine, ThermalShedder};
use nautilus_core::os::windows_fibers::FiberScheduler;
use nautilus_core::os::working_set::{WorkingSetConfig, WorkingSetManager, WorkingSetStatus};
use nautilus_core::portfolio::budget::MemoryBudget;

#[test]
fn constant_round_trips_do_not_degrade() {
    let mut tracker = HeartbeatTracker::new();
    tracker.start();
    for i in 0..30 {
        let sent = 1_000 + i * 10_000_000;
        tracker.record_ping_sent(sent);
        tracker.record_pong_received(i, sent + 700_000);
    }
    assert!(tracker.predict_degradation().is_none());
    assert_eq!(tracker.get_current_rtt_us(), 700);
    assert_eq!(tracker.get_health(), ConnectionHealth::Healthy);
}

#[test]
fn growing_round_trips_degrade() {
    let mut tracker = HeartbeatTracker::new();
    tracker.start();
    for i in 0..30 {
        let sent = 1_000 + i * 100_000_000;
        tracker.record_ping_sent(sent);
        tracker.record_pong_received(i, sent + 700_000 + i * 10_000);
    }
    assert!(tracker.predict_degradation().is_some());
}

#[test]
fn failover_always_moves_to_another_mode() {
    let mut router = FailoverRouter::new();
    router.set_initial_mode(ConnectionMode::PrimaryWebSocket, 0);
    let mut seen = vec![router.get_mode()];
    for _ in 0..4 {
        router.trigger_failover(FailoverReason::Manual, 1, 2).unwrap();
        assert!(router.get_mode() != *seen.last().unwrap());
        assert!(router.get_mode() != ConnectionMode::Disconnected);
        seen.push(router.get_mode());
    }
    assert!(seen.contains(&ConnectionMode::RestPolling));
    assert_eq!(router.get_stats(2).total_failovers, 4);
    assert_eq!(router.get_stats(2).failover_count_last_hour, 4);
    assert_eq!(router.get_stats(3_600_000_000_001).failover_count_last_hour, 0);
}

#[test]
fn values_end_at_a_comma_or_a_brace() {
    let mut parser = JsonParser::new();
    let data = b"{\"a\":1,\"b\":{\"c\":2}}";
    assert_eq!(parser.parse_field(data, "a").unwrap(), b"1");
    assert_eq!(parser.parse_field(data, "c").unwrap(), b"2");
    assert_eq!(parser.parse_field(data, "b").unwrap(), b"{\"c\":2");
}

#[test]
fn completions_settle_what_was_posted() {
    let mut manager = IocpManager::new(1).unwrap();
    manager.associate_socket(0, 5).unwrap();
    manager.post_receive(0).unwrap();
    assert_eq!(manager.connections[0].pending_ops, 1);
    manager.poll_completions(1);
    assert_eq!(manager.connections[0].pending_ops, 0);
}

#[test]
fn released_buffers_free_their_room() {
    let mut pool = DmaBufferPool::new(10_000);
    for _ in 0..5 {
        pool.allocate(9_000).unwrap();
        pool.release(9_000);
    }
    assert_eq!(pool.usage(), 0);
}

#[test]
fn acquiring_finds_the_usable_connection() {
    let mut pool: ConnectionPool<u8> = ConnectionPool::new(4, 100);
    pool.insert(2, PooledConnection::new(9, "a".to_string(), 1_000)).unwrap();
    for _ in 0..5 {
        assert_eq!(pool.acquire(1_050), Some(2));
    }
    pool.mark_dead(2).unwrap();
    assert_eq!(pool.acquire(1_050), None);
}

#[test]
fn slower_ticks_never_speed_the_profile_up() {
    let mut last = 0;
    for rate in [20_000u64, 10_000, 9_999, 500, 101, 100, 1] {
        let mut coalescer = InterruptCoalescer::new().unwrap();
        coalescer.update_tick_rate(Ratio { num: rate, den: 1 }, 0).unwrap();
        let usecs = coalescer.get_profile().usecs();
        assert!(usecs >= last);
        last = usecs;
    }
}

#[test]
fn freeing_undoes_allocating() {
    let mut tracker = MemoryTracker::new();
    tracker.register_arena(3, 1000);
    tracker.record_alloc(100, Some(3));
    let before = tracker.get_stats().live_bytes;
    tracker.record_alloc(250, Some(3));
    tracker.record_dealloc(250, Some(3));
    assert_eq!(tracker.get_stats().live_bytes, before);
    let arena = tracker.get_arena_stats().into_iter().find(|a| a.arena_id == 3).unwrap();
    assert_eq!(arena.used, 100);
    assert_eq!(arena.free, 900);
}

#[test]
fn the_delta_does_not_depend_on_the_order_of_trades() {
    let mut a = CvdState::new();
    a.add_trade(10, 5, true);
    a.add_trade(12, 9, false);
    let mut b = CvdState::new();
    b.add_trade(12, 9, false);
    b.add_trade(10, 5, true);
    assert_eq!(a.cumulative_delta, 4);
    assert_eq!(a.cumulative_delta, b.cumulative_delta);
    assert_eq!((a.low_price, a.high_price), (10, 12));
}

#[test]
fn absorption_events_are_queued_in_order() {
    let mut detector = AbsorptionDetector::new(10, 50);
    for i in 0..60 {
        detector.process_trade(5_000_000, 100, true, i);
    }
    let events = detector.poll_events();
    assert!(!events.is_empty());
    assert_eq!(detector.get_events_count(), events.len() as u64);
    for pair in events.windows(2) {
        assert!(pair[0].timestamp_ns < pair[1].timestamp_ns);
    }
    assert!(events[0].description.contains("Selling exhaustion"));
}

#[test]
fn a_large_trade_beyond_the_range_is_a_sweep() {
    let mut detector = AbsorptionDetector::new(10, 50);
    detector.process_trade(100, 5, false, 1);
    detector.process_trade(110, 5, false, 2);
    assert!(detector.detect_sweep_reversal(120, 19, 3).is_none());
    let event = detector.detect_sweep_reversal(120, 20, 3).unwrap();
    assert_eq!(event.price_change, 10);
    assert_eq!(event.description, "Potential stop run above 110, watch for reversal");
    assert!(detector.detect_sweep_reversal(105, 20, 3).is_none());
}

#[test]
fn footprint_levels_hold_what_was_traded_at_them() {
    let mut analyzer = FootprintAnalyzer::new(100, 1000);
    for price in [300, 150, 199, 420, 300] {
        analyzer.process_trade(price, 10, price == 300, 5);
    }
    let cluster = analyzer.finalize_cluster().unwrap();
    let mut prices: Vec<i64> = cluster.levels.iter().map(|l| l.price).collect();
    prices.sort();
    assert_eq!(prices, vec![100, 300, 400]);
    let total: u64 = cluster.levels.iter().map(|l| l.total_volume).sum();
    assert_eq!(total, 50);
    assert_eq!((cluster.low_price, cluster.high_price), (100, 400));
    assert_eq!((cluster.open_price, cluster.close_price), (300, 300));
    assert_eq!(cluster.total_bid_volume, 20);
    assert_eq!(cluster.total_ask_volume, 30);
}

fn fill(quantity: u64, timestamp_ns: u128) -> TradeTick {
    TradeTick { price: 500, quantity, is_buy: false, timestamp_ns }
}

#[test]
fn the_fifth_equal_fill_confirms_and_a_break_starts_anew() {
    let mut detector = IcebergDetector::new();
    for i in 0..4 {
        assert!(detector.process_tick(fill(100, i)).is_none());
    }
    assert!(detector.process_tick(fill(100, 4)).is_some());
    let mut broken = IcebergDetector::new();
    for i in 0..4 {
        assert!(broken.process_tick(fill(100, i)).is_none());
    }
    assert!(broken.process_tick(fill(500, 4)).is_none());
    assert!(broken.process_tick(fill(500, 5)).is_none());
    assert!(broken.get_icebergs().is_empty());
}

#[test]
fn windows_hold_exactly_the_recent_events() {
    let mut window = EventWindow::new();
    for i in 0..10 {
        window.add_event(1_000_000_000 * (i + 1), 0);
    }
    assert_eq!(window.get_event_count(), 6);
    window.prune_old_events(1_000_000_000 * 20);
    assert_eq!(window.get_event_count(), 0);
}

#[test]
fn modifying_keeps_an_order_and_a_rapid_cancel_removes_it() {
    let order = |timestamp_ns: u128, event_type: OrderEventType| OrderEvent {
        order_id: 7,
        price: 50,
        quantity: 1,
        is_bid: true,
        timestamp_ns,
        event_type,
    };
    let mut detector = SpoofingDetector::new();
    detector.process_event(order(0, OrderEventType::New));
    detector.process_event(order(1, OrderEventType::Modify));
    assert_eq!(detector.get_stats().active_order_count, 1);
    assert!(detector.process_event(order(2, OrderEventType::Cancel)));
    assert_eq!(detector.get_stats().active_order_count, 0);
}

#[test]
fn toxic_flow_widens_the_spread_threefold_at_most_by_its_share() {
    let mut detector = VpinDetector::new();
    for _ in 0..50 {
        detector.process_trade(1000, true);
    }
    assert!(detector.is_toxic());
    let (num, den) = detector.get_spread_adjustment();
    assert!(num >= 3 * den);
    assert_eq!(num as f64 / den as f64, 3.5);
}

#[test]
fn the_value_area_holds_the_busiest_price() {
    let mut profile = VolumeProfileCalculator::new(10);
    for (price, volume) in [(1000, 5), (1010, 50), (1020, 30), (1030, 10), (1040, 5)] {
        profile.process_tick(price, volume, true);
    }
    let (poc, volume) = profile.calculate_poc().unwrap();
    assert_eq!((poc, volume), (1010, 50));
    let (high, low) = profile.calculate_value_area(70).unwrap();
    assert!(low <= poc && poc <= high);
    assert_eq!((high, low), (1020, 1000));
}

#[test]
fn there_is_one_primary_adapter() {
    let adapter = |name: &str| NetworkAdapter {
        instance_id: name.to_string(),
        mac_address: [0; 6],
        affinity_mask: 1,
        adapter_name: name.to_string(),
    };
    let adapters = vec![adapter("Loopback"), adapter("Ethernet"), adapter("Ethernet 2")];
    let first = InterruptAffinityManager::find_primary(&adapters);
    assert_eq!(first, InterruptAffinityManager::find_primary(&adapters));
    if let Some(i) = first {
        assert!(i < adapters.len());
    }
}

#[test]
fn authorized_processes_pass_whatever_their_name() {
    let mut guard = ProcessGuard::new(1);
    guard.authorize(40);
    let named = ProcessProbe::Named("anything".to_string());
    assert!(guard.scan_pid_tree(&vec![ProbedProcess { pid: 40, probe: named }]).is_ok());
    let failed = vec![ProbedProcess { pid: 40, probe: ProcessProbe::OpenFailed(6) }];
    assert!(guard.scan_pid_tree(&failed).is_err());
    let restricted = vec![ProbedProcess { pid: 41, probe: ProcessProbe::Restricted }];
    assert!(guard.scan_pid_tree(&restricted).is_ok());
}

#[test]
fn a_warning_calls_for_a_trim() {
    let mut manager = WorkingSetManager::new();
    for part in 0..=20 {
        manager.update_memory_estimate(manager.max_working_set() / 20 * part);
        assert_eq!(manager.should_trim(), manager.status() != WorkingSetStatus::Normal);
    }
}

#[test]
fn budgets_refuse_what_does_not_fit() {
    let mut budget = MemoryBudget::new(100);
    assert!(budget.reserve(60));
    assert!(!budget.reserve(41));
    assert!(budget.reserve(40));
    budget.release(100);
    assert_eq!(budget, MemoryBudget::new(100));
}

#[test]
fn parsing_a_batch_is_parsing_each_packet() {
    let mut tick = vec![0u8; 82];
    tick[12] = 0x08;
    tick[23] = 17;
    tick[42..46].copy_from_slice(&TICK_MAGIC.to_le_bytes());
    let packets = vec![vec![0u8; 4], tick, vec![0u8; 82]];
    let mut results = vec![ParseResult::ChecksumError; 4];
    let mut parser = PacketParser::new();
    parser.parse_batch(&packets, &mut results);
    assert!(matches!(results[0], ParseResult::TooSmall));
    assert!(matches!(results[1], ParseResult::Tick(_)));
    assert!(matches!(results[2], ParseResult::Malformed));
    assert!(matches!(results[3], ParseResult::ChecksumError));
    let stats = parser.get_stats();
    assert_eq!((stats.packets_parsed, stats.ticks_extracted, stats.parse_errors), (3, 1, 2));
    assert_eq!(exchange_ts_to_tsc(99), 99);
}

#[test]
fn packets_are_ticks_and_errors_also_past_the_wrap() {
    let mut tick = vec![0u8; 82];
    tick[12] = 0x08;
    tick[23] = 17;
    tick[42..46].copy_from_slice(&TICK_MAGIC.to_le_bytes());
    let packets = vec![tick.clone(), vec![0u8; 4], tick];
    let mut results = vec![ParseResult::ChecksumError; 3];
    let mut parser = PacketParser::default();
    parser.packets_parsed = u64::MAX;
    parser.ticks_extracted = u64::MAX - 1;
    parser.parse_errors = 1;
    parser.parse_batch(&packets, &mut results);
    assert_eq!((parser.packets_parsed, parser.ticks_extracted, parser.parse_errors), (2, 0, 2));
    parser.reset_stats();
    for packet in &packets {
        parser.parse(packet);
        let stats = parser.get_stats();
        assert_eq!(stats.packets_parsed, stats.ticks_extracted + stats.parse_errors);
    }
    assert_eq!((parser.packets_parsed, parser.ticks_extracted, parser.parse_errors), (3, 2, 1));
}

#[test]
fn footprint_levels_hold_the_sums_of_a_run() {
    let mut analyzer = FootprintAnalyzer::new(100, 1000);
    let half: u64 = 0x8000_0000;
    let trades = [(10050, half, true), (20000, 7, false), (10000, half - 1, true), (10099, 5, false)];
    for (price, quantity, is_buyer_maker) in trades {
        analyzer.process_trade(price, quantity, is_buyer_maker, 1);
    }
    analyzer.process_trade(20050, 0xFFFF_FFF8, false, 2);
    let cluster = analyzer.finalize_cluster().unwrap();
    let listed: Vec<(i64, u64, u64)> =
        cluster.levels.iter().map(|l| (l.price, l.bid_volume, l.ask_volume)).collect();
    assert_eq!(listed, vec![(10000, 0xFFFF_FFFF, 5), (20000, 0, 0xFFFF_FFFF)]);
}

#[test]
fn composite_profiles_weigh_recent_sessions_more() {
    let hour = 3_600_000_000_000u64;
    let mut sessions = SessionVolumeProfile::new(10, 1);
    assert!(sessions.get_composite_profile(3).is_none());
    for (session, price) in [100i64, 200, 300].iter().enumerate() {
        sessions.process_tick(*price, 50, false, 1 + session as u64 * hour);
    }
    assert_eq!(sessions.get_historical_profiles().len(), 2);
    let composite = sessions.get_composite_profile(5).unwrap();
    assert_eq!(composite.poc_price, (200 * 2 + 100) / 3);
    assert_eq!(composite.vah_price, 150);
    assert_eq!(composite.total_volume, 100);
    assert_eq!(sessions.get_composite_profile(1).unwrap().poc_price, 200);
    assert!(sessions.get_composite_profile(0).is_none());
}

#[test]
fn bins_are_counted_from_the_lowest_price() {
    let mut profile = VolumeProfileCalculator::new(10);
    assert_eq!(profile.get_bin_index(i64::MAX), None);
    profile.process_tick(1000, 5, true);
    profile.process_tick(1095, 5, true);
    assert_eq!(profile.get_bin_index(1000), Some(0));
    assert_eq!(profile.get_bin_index(1029), Some(2));
    assert_eq!(profile.get_bin_index(900), None);
    profile.process_tick(1_000_000, 5, true);
    assert_eq!(profile.get_bin_index(1000), None);
}

#[test]
fn machines_are_handed_out_in_turn() {
    let mut manager = PatternManager::new();
    for turn in 0..9 {
        assert_eq!(manager.active_index, turn);
        let machine = manager.get_available_fsm();
        assert_eq!(machine.get_signal_strength(), 0);
    }
}

#[test]
fn settings_can_be_changed_while_running() {
    let mut tracker = HeartbeatTracker::with_interval(250);
    assert_eq!(tracker.get_interval_ms(), 250);
    tracker.set_interval_ms(40);
    assert_eq!(tracker.get_interval_ms(), 40);

    let mut coalescer = InterruptCoalescer::new().unwrap();
    coalescer.force_low_latency(0).unwrap();
    assert!(!coalescer.adaptive_enabled);
    coalescer.restore_adaptive();
    assert!(coalescer.adaptive_enabled);
    assert!(apply_settings(10, 32).is_ok());

    let mut manager = WorkingSetManager::new();
    let small = WorkingSetConfig { max_size: 1000, ..WorkingSetConfig::default() };
    manager.update_config(small);
    assert_eq!(manager.max_working_set(), 1000);

    let builder = ConnectionPoolBuilder::new().capacity(3).target_address("here".to_string());
    assert_eq!(builder.target_addr, Some("here".to_string()));
    assert_eq!(builder.build::<u8>().get_stats().capacity, 3);
}

#[test]
fn buffers_and_modes_can_be_read_back() {
    let mut connection = IocpConnection::new(4).unwrap();
    connection.recv_buffer_mut()[7] = 9;
    assert_eq!(connection.recv_buffer()[7], 9);

    let mut router = FailoverRouter::new();
    router.set_initial_mode(ConnectionMode::RestPolling, 0);
    assert_eq!(router.get_mode_fast(), ConnectionMode::RestPolling);
    assert!(RioExtension::new(1, 1).unwrap().notify().is_ok());

    let mut tracker = MemoryTracker::new();
    tracker.record_alloc(100, None);
    let classes = tracker.get_size_class_stats();
    let class = tracker.get_size_class_index(100);
    assert_eq!(classes[class].allocs, 1);
    assert_eq!(classes[class].bytes_allocated, 100);

    let mut detector = AbsorptionDetector::new(10, 50);
    detector.process_trade(5, 8, true, 1);
    assert_eq!(detector.get_cvd_state().cumulative_delta, detector.get_current_cvd());
    assert_eq!(SpoofingDetector::new().is_layering_detected(), false);
}

#[test]
fn resources_report_their_state() {
    let mut manager = DpcRoutineManager::new();
    assert_eq!(manager.isolate_hotpath_thread(), Err("DPC manager not initialized"));
    manager.initialize().unwrap();
    assert!(manager.isolate_hotpath_thread().is_ok());

    let mut evictor = MemoryEvictor::new();
    assert!(!evictor.is_emergency_mode());
    assert!(!evictor.force_gc());
    evictor.current_usage_bytes = RAM_LIMIT_BYTES;
    assert!(evictor.force_gc());

    assert!(!LargePageManager::new(LargePageConfig::default()).is_large_page_active());
    let allocator = NumaAllocator::new(Platform::Linux, 4);
    assert_eq!(allocator.is_numa_available(), allocator.topology().numa_available);

    let mut fibers = FiberScheduler::new(1);
    assert!(fibers.has_capacity());
    let id = fibers.create_fiber(4096, 0, 77).unwrap();
    assert!(!fibers.has_capacity());
    assert_eq!(fibers.create_fiber(4096, 0, 78), None);
    fibers.switch_to(id, 5);
    assert_eq!(fibers.fibers[0].get_switch_count(), 1);
}

#[test]
fn updated_engines_are_shed_by_their_latest_ratio() {
    let engine = |symbol_idx: u8, sharpe_ratio_fp: i64| SheddableEngine {
        symbol_idx,
        priority: EnginePriority::Low,
        sharpe_ratio_fp,
        current_pnl_micro: 0,
        last_update_ms: 0,
        is_shed: false,
    };
    let mut shedder = ThermalShedder::new();
    shedder.register_engine(engine(1, 100));
    shedder.register_engine(engine(2, 200));
    shedder.update_engine_sharpe(1, 300, 7, 9);
    let updated = shedder.engines[1].unwrap();
    assert_eq!((updated.sharpe_ratio_fp, updated.current_pnl_micro, updated.last_update_ms), (300, 7, 9));
    shedder.update_temperature(8600, 10);
    assert!(shedder.is_engine_shed(2));
    assert_eq!(shedder.get_total_shed_events(), shedder.get_shed_count() as u64);
}

#[test]
fn the_shed_count_is_the_number_of_shed_engines() {
    let mut shedder = ThermalShedder::new();
    let priorities = [
        EnginePriority::Low,
        EnginePriority::Critical,
        EnginePriority::Medium,
        EnginePriority::High,
        EnginePriority::Low,
    ];
    for (i, priority) in priorities.into_iter().enumerate() {
        shedder.register_engine(SheddableEngine {
            symbol_idx: i as u8,
            priority,
            sharpe_ratio_fp: i as i64,
            current_pnl_micro: 0,
            last_update_ms: 0,
            is_shed: false,
        });
    }
    for temp in [0, 8500, 8600, 9000, 9600, 9900, 20, 9900] {
        shedder.update_temperature(temp, 1);
        let shed = (0u8..8).filter(|i| shedder.is_engine_shed(*i)).count();
        assert_eq!(shedder.get_shed_count() as usize, shed);
    }
    shedder.emergency_shed_all(2);
    assert_eq!(shedder.get_shed_count(), 4);
}

#[test]
fn a_ring_holds_what_came_in_and_has_not_gone_out() {
    let mut ring = IocpRingBuffer::new(4).unwrap();
    for i in 0..6 {
        let taken = ring.push(OverlappedWrapper::new(1, i)).is_ok();
        assert_eq!(taken, i < 4);
    }
    for _ in 0..3 {
        ring.pop();
    }
    let stats = ring.get_stats();
    assert_eq!((stats.total_enqueued, stats.total_dequeued), (4, 3));
    assert_eq!(stats.current_size as u64, stats.total_enqueued - stats.total_dequeued);
}

#[test]
fn a_profile_reports_all_that_was_bought_and_sold() {
    let mut profile = VolumeProfileCalculator::new(10);
    for (price, volume, is_buyer_maker) in [(100, 5, true), (110, 7, false), (100, 9, false)] {
        profile.process_tick(price, volume, is_buyer_maker);
        let stats = profile.calculate_stats().unwrap();
        assert_eq!(stats.total_volume, stats.total_buy_volume + stats.total_sell_volume);
    }
    let stats = profile.calculate_stats().unwrap();
    assert_eq!((stats.total_buy_volume, stats.total_sell_volume), (16, 5));
}
