use nautilus_core::math::Ratio;
use nautilus_core::nic::interrupt_coalesce::{
    query_current_settings, CoalesceProfile, InterruptCoalescer, DEFAULT_FRAMES, DEFAULT_USECS,
};
use nautilus_core::nic::tcp_offload::{
    optimize_checksum_for_trading, ChecksumState, NicOffloadConfig, TsoManager,
};
use nautilus_core::observability::allocator_stats::{MemoryTracker, GLOBAL_RAM_LIMIT_BYTES};
use nautilus_core::observability::etw_deep::{
    EtwEmitter, EtwEvent, EtwRingBuffer, EventLevel, EventOrigin, EventType,
};
use nautilus_core::orchestration::ray_bridge::{
    default_memory, leading_words, meminfo_words, memory_of, poll_ray_cluster, ClusterHealth,
    RayTelemetryBridge, SystemMemory, TelemetryConfig, KB_PER_GB,
};
use nautilus_core::orchestrator::master_loop::{
    LoopAction, LoopEvent, MasterOrchestrator, MAX_RAM_BYTES,
};
use nautilus_core::orchestrator::panic_handler::{
    crash_report, location_text, register_sensitive_buffer, PanicGate, SecureKeyBuffer,
};
use nautilus_core::orchestrator::shutdown_hook::{
    CancelAttempts, CancelEvent, ShutdownHook,
};

fn rate(num: u64) -> Ratio {
    Ratio { num, den: 1 }
}

fn value(r: Ratio) -> f64 {
    r.num as f64 / r.den as f64
}

#[test]
fn test_profile_values() {
    assert_eq!(CoalesceProfile::LowLatency.usecs(), 0);
    assert_eq!(CoalesceProfile::LowLatency.frames(), 1);

    assert_eq!(CoalesceProfile::Balanced.usecs(), 10);
    assert_eq!(CoalesceProfile::Balanced.frames(), 4);

    assert_eq!(CoalesceProfile::PowerSave.usecs(), 50);
    assert_eq!(CoalesceProfile::PowerSave.frames(), 16);
}

#[test]
fn test_coalescer_creation() {
    let coalescer = InterruptCoalescer::new().unwrap();
    assert_eq!(coalescer.get_profile(), CoalesceProfile::LowLatency);
    assert!(coalescer.adaptive_enabled);
}

#[test]
fn test_profile_changes() {
    let mut coalescer = InterruptCoalescer::new().unwrap();

    coalescer.set_profile(CoalesceProfile::Balanced, 0).unwrap();
    assert_eq!(coalescer.get_profile(), CoalesceProfile::Balanced);

    coalescer.set_profile(CoalesceProfile::PowerSave, 0).unwrap();
    assert_eq!(coalescer.get_profile(), CoalesceProfile::PowerSave);
}

#[test]
fn test_tick_rate_update() {
    let mut coalescer = InterruptCoalescer::new().unwrap();

    coalescer.update_tick_rate(rate(15000), 0).unwrap();
    assert_eq!(coalescer.get_profile(), CoalesceProfile::LowLatency);

    coalescer.update_tick_rate(rate(50), 0).unwrap();
    assert_eq!(coalescer.get_profile(), CoalesceProfile::PowerSave);
}

#[test]
fn test_force_low_latency() {
    let mut coalescer = InterruptCoalescer::new().unwrap();

    coalescer.force_low_latency(0).unwrap();
    assert_eq!(coalescer.get_profile(), CoalesceProfile::LowLatency);
    assert!(!coalescer.adaptive_enabled);
    coalescer.update_tick_rate(rate(50), 1_000_000_000).unwrap();
    assert_eq!(coalescer.get_profile(), CoalesceProfile::LowLatency);
}

#[test]
fn test_query_settings() {
    let (usecs, frames) = query_current_settings().unwrap();
    assert_eq!(usecs, DEFAULT_USECS);
    assert_eq!(frames, DEFAULT_FRAMES);
}

#[test]
fn test_default_config() {
    let config = NicOffloadConfig::default();

    assert!(config.tso_enabled);
    assert!(!config.lro_enabled);
    assert!(config.checksum_offload);
    assert!(!config.interrupt_moderation);
    assert!(config.jumbo_frames);
    assert_eq!(config.mtu, 9000);
}

#[test]
fn test_tso_manager_creation() {
    let manager = TsoManager::new();
    assert!(manager.is_ok());
}

#[test]
fn test_capabilities_query() {
    let manager = TsoManager::new().unwrap();
    let caps = manager.query_capabilities().unwrap();

    assert!(caps.supports_tso);
    assert!(caps.supports_jumbo);
    println!("NIC queues: {}", caps.num_queues);
}

#[test]
fn test_offload_guard() {
    let mut manager = TsoManager::new().unwrap();
    let original = manager.get_config();

    let guard = manager.enable_for_snapshot().unwrap();
    let during = manager.get_config();
    assert!(during.lro_enabled);
    guard.restore(&mut manager);

    let after = manager.get_config();
    assert_eq!(after.lro_enabled, original.lro_enabled);
    assert_eq!(after, original);
}

#[test]
fn test_checksum_optimization() {
    let state = optimize_checksum_for_trading();
    assert_eq!(state, ChecksumState::TxOnly);
}

#[test]
fn test_basic_tracking() {
    let mut tracker = MemoryTracker::new();

    tracker.record_alloc(1024, None);
    tracker.record_alloc(2048, None);

    let stats = tracker.get_stats();
    assert_eq!(stats.total_allocated, 3072);
    assert_eq!(stats.live_bytes, 3072);
    assert_eq!(stats.alloc_ops, 2);

    tracker.record_dealloc(1024, None);

    let stats = tracker.get_stats();
    assert_eq!(stats.live_bytes, 2048);
    assert_eq!(stats.dealloc_ops, 1);
}

#[test]
fn test_fragmentation_calculation() {
    let mut tracker = MemoryTracker::new();

    tracker.record_alloc(1000, None);
    tracker.record_alloc(1000, None);
    tracker.record_dealloc(1000, None);

    let stats = tracker.get_stats();
    assert!(value(stats.fragmentation_ratio()) > 0.0);
    assert!(value(stats.efficiency()) < 1.0);
    assert_eq!(value(stats.efficiency()), 0.5);
}

#[test]
fn test_arena_tracking() {
    let mut tracker = MemoryTracker::new();

    tracker.register_arena(0, 4096);
    tracker.record_alloc(1024, Some(0));

    let arena_stats = tracker.get_arena_stats();
    assert!(!arena_stats.is_empty());
    assert_eq!(arena_stats[0].used, 1024);
    assert_eq!(value(arena_stats[0].utilization()), 0.25);
}

#[test]
fn test_threshold_detection() {
    let mut tracker = MemoryTracker::new();

    for _ in 0..1000 {
        tracker.record_alloc(GLOBAL_RAM_LIMIT_BYTES / 100, None);
    }

    assert!(tracker.is_critical());
    assert!(tracker.is_warning());
    assert_eq!(tracker.remaining_budget(), 0);
}

#[test]
fn every_size_has_one_class() {
    let tracker = MemoryTracker::new();
    assert_eq!(tracker.get_size_class_index(1), 0);
    let mut last = 0;
    let mut size = 1u64;
    while size < 1 << 40 {
        let class = tracker.get_size_class_index(size);
        assert!(class >= last && class < 12);
        last = class;
        size *= 2;
    }
    assert_eq!(last, 11);
}

#[test]
fn test_ring_buffer_basic() {
    let mut buffer = EtwRingBuffer::new(1024).unwrap();

    let event = EtwEvent {
        timestamp_ns: 12345,
        event_type: EventType::Custom,
        level: EventLevel::Informational,
        ..EtwEvent::default()
    };

    assert!(buffer.try_write(event));
    assert!(buffer.try_read().is_some());
    assert!(buffer.try_read().is_none());
}

#[test]
fn test_emitter_creation() {
    let mut emitter = EtwEmitter::new(4096).unwrap();
    assert!(emitter.is_enabled());

    emitter.set_enabled(false);
    assert!(!emitter.is_enabled());
}

#[test]
fn test_stats() {
    let mut buffer = EtwRingBuffer::new(256).unwrap();

    for i in 0..100 {
        let event = EtwEvent { payload_a: i as u64, ..EtwEvent::default() };
        buffer.try_write(event);
    }

    let stats = buffer.stats();
    assert_eq!(stats.total_written, 100);
    assert_eq!(stats.currently_used, 100);
}

#[test]
fn event_rings_need_a_power_of_two_and_drop_when_full() {
    assert!(EtwRingBuffer::new(1000).is_err());
    assert!(EtwRingBuffer::new(0).is_err());
    let mut buffer = EtwRingBuffer::new(4).unwrap();
    for _ in 0..3 {
        assert!(buffer.try_write(EtwEvent::default()));
    }
    assert!(!buffer.try_write(EtwEvent::default()));
    assert_eq!(buffer.stats().dropped, 1);
}

#[test]
fn emitted_events_say_where_they_came_from() {
    let mut emitter = EtwEmitter::new(16).unwrap();
    let origin = EventOrigin { timestamp_ns: 9, thread_id: 3, cpu_core: 2 };
    emitter.record_custom(origin, EventLevel::Warning, 10, 11, 12);
    let event = emitter.buffer.try_read().unwrap();
    assert_eq!(event.timestamp_ns, 9);
    assert_eq!(event.thread_id, 3);
    assert_eq!(event.cpu_core, 2);
    assert_eq!(event.payload_a, 10);
    assert_eq!(event.payload_b, 11);
    assert_eq!(event.flags, 12);
    emitter.set_enabled(false);
    emitter.record_custom(origin, EventLevel::Warning, 1, 1, 1);
    assert!(emitter.buffer.try_read().is_none());
    emitter.set_enabled(true);
    emitter.record_cas_failure(origin, 1, 2, 3, 4);
    emitter.record_cache_line_bounce(origin, 1, 2, 3, 4);
    emitter.record_hjb_solve_start(origin, 1, 2);
    emitter.record_hjb_solve_end(origin, 1, 2, true);
    assert_eq!(emitter.flush_to_logger().flushed, 4);
    assert_eq!(emitter.stats().currently_used, 0);
}

#[test]
fn test_telemetry_bridge_creation() {
    let bridge = RayTelemetryBridge::new();
    assert!(!bridge.is_kill_triggered());
    assert_eq!(bridge.get_health(), ClusterHealth::Healthy);
}

#[test]
fn test_custom_config() {
    let config = TelemetryConfig {
        global_memory_limit_kb: 16 * KB_PER_GB,
        worker_memory_limit_kb: 8 * KB_PER_GB,
        ..TelemetryConfig::default()
    };

    let bridge = RayTelemetryBridge::with_config(config);
    let snapshot = bridge.get_snapshot(0);

    assert_eq!(snapshot.memory_limit_kb, 16 * KB_PER_GB);
}

fn memory_read(content: &str) -> SystemMemory {
    let (total, available) = meminfo_words(content);
    let kb = |word: String| word.parse::<f64>().unwrap_or(0.0) as u64;
    memory_of(kb(total), kb(available))
}

#[test]
fn test_system_memory_detection() {
    let content = "MemTotal:       16384 kB\nMemFree:         4096 kB\nMemAvailable:    8192 kB\n";
    let read = memory_read(content);
    for mem in [read, default_memory()] {
        assert!(mem.total_kb > 0);
        assert!(mem.used_kb <= mem.total_kb);
    }
    assert_eq!(read.total_kb, 16384);
    assert_eq!(read.used_kb, 16384 - 8192);
}

#[test]
fn memory_pairs_are_the_first_two_words() {
    assert_eq!(leading_words("nothing"), None);
    assert_eq!(leading_words(""), None);
    assert_eq!(leading_words("  100.5 \n 40 \n"), Some(("100.5".to_string(), "40".to_string())));
    assert_eq!(
        leading_words("\u{feff}1\u{2003}\u{e9}\u{a0}3"),
        Some(("\u{feff}1".to_string(), "\u{e9}".to_string()))
    );
}

#[test]
fn memory_lines_give_their_second_word() {
    let words = |content: &str| {
        let (total, available) = meminfo_words(content);
        assert_eq!(
            (total.as_str(), available.as_str()),
            {
                let mut total = "0";
                let mut available = "0";
                for line in content.lines() {
                    if line.starts_with("MemTotal:") {
                        total = line.split_whitespace().nth(1).unwrap_or("0");
                    } else if line.starts_with("MemAvailable:") {
                        available = line.split_whitespace().nth(1).unwrap_or("0");
                    }
                }
                (total, available)
            }
        );
        (total, available)
    };
    let pair = |a: &str, b: &str| (a.to_string(), b.to_string());
    assert_eq!(words(""), pair("0", "0"));
    assert_eq!(words("MemTotal:"), pair("0", "0"));
    assert_eq!(words("MemTotal: 1e3"), pair("1e3", "0"));
    assert_eq!(words("MemAvailable: inf kB\r\nMemTotal:\u{3000}7\u{85}kB"), pair("7", "inf"));
    assert_eq!(words("MemTotal: 1\n\nMemTotal: 2\n MemTotal: 3\n"), pair("2", "0"));
    assert_eq!(words("MemTotal: 1\nMemTotal:\n"), pair("0", "0"));
    assert_eq!(words("MemTotal:5 6"), pair("6", "0"));
}

#[test]
fn starting_again_forgets_the_violations() {
    let mut bridge = RayTelemetryBridge::new();
    assert!(bridge.start());
    let memory = SystemMemory { total_kb: 8 * KB_PER_GB, used_kb: 8 * KB_PER_GB };
    bridge.observe(poll_ray_cluster(memory, Ratio { num: 1, den: 2 }, 6), 6);
    bridge.observe(poll_ray_cluster(memory, Ratio { num: 1, den: 2 }, 7), 7);
    assert_eq!(bridge.violations.len(), 2);
    assert!(!bridge.start());
    assert_eq!(bridge.violations.len(), 2);
    let count = bridge.violation_count;
    bridge.stop();
    assert!(bridge.start());
    assert!(bridge.violations.is_empty());
    assert_eq!(bridge.violation_count, count);
}

#[test]
fn memory_over_the_kill_threshold_stops_the_cluster() {
    let mut bridge = RayTelemetryBridge::new();
    assert!(bridge.start());
    assert!(!bridge.start());
    assert!(bridge.should_poll());
    let memory = SystemMemory { total_kb: 8 * KB_PER_GB, used_kb: KB_PER_GB };
    let calm = poll_ray_cluster(memory, Ratio { num: 1, den: 2 }, 5);
    let seen = bridge.observe(calm, 5);
    assert_eq!(seen.health, ClusterHealth::Healthy);
    assert!(!seen.kill);
    let memory = SystemMemory { total_kb: 8 * KB_PER_GB, used_kb: 8 * KB_PER_GB };
    let full = poll_ray_cluster(memory, Ratio { num: 1, den: 2 }, 6);
    let seen = bridge.observe(full, 6);
    assert!(seen.health_changed);
    assert!(seen.violation);
    assert!(!seen.kill);
    bridge.observe(full, 7);
    assert!(bridge.observe(full, 8).kill);
    assert!(bridge.is_kill_triggered());
    bridge.stop();
    assert!(!bridge.should_poll());
}

#[test]
fn test_orchestrator_creation() {
    let orch = MasterOrchestrator::new();
    assert!(!orch.running);
    assert_eq!(orch.get_tick(), 0);
}

#[test]
fn master_loop_test_initialization() {
    let orch = MasterOrchestrator::new();
    assert!(orch.initialize(0).is_ok());
    assert!(orch.initialize(MAX_RAM_BYTES + 1).is_err());
}

#[test]
fn the_loop_syncs_now_and_then_and_leaves_on_shutdown() {
    let mut orch = MasterOrchestrator::new();
    orch.run();
    assert!(orch.running);
    let mut syncs = 0;
    for _ in 0..2000 {
        if let LoopAction::Process { sync_state, .. } = orch.on_event(LoopEvent::Tick(0)) {
            if sync_state {
                syncs += 1;
            }
        }
    }
    assert_eq!(syncs, 2);
    assert!(matches!(orch.on_event(LoopEvent::Shutdown), LoopAction::Leave));
    orch.shutdown();
    assert!(!orch.running);
}

#[test]
fn test_secure_key_buffer_wipe() {
    let mut buffer = SecureKeyBuffer::new(b"SECRET_KEY_12345");
    assert!(!buffer.wiped);
    assert_eq!(buffer.as_ref(), b"SECRET_KEY_12345");

    buffer.wipe();
    assert!(buffer.wiped);

    for byte in buffer.as_ref() {
        assert_eq!(*byte, 0);
    }
}

#[test]
fn test_double_wipe_safety() {
    let mut buffer = SecureKeyBuffer::new(b"TEST");
    buffer.wipe();
    buffer.wipe();
    assert!(buffer.wiped);
}

#[test]
fn only_the_first_panic_is_handled() {
    let mut gate = PanicGate::new();
    assert!(gate.enter());
    assert!(!gate.enter());
    assert_eq!(location_text("a.rs", 3, 7), "a.rs:3:7");
    let report = crash_report(12, "boom", "a.rs:3:7", "frames");
    assert!(report.contains("boom"));
    assert!(report.contains("12"));
    assert!(report.contains("a.rs:3:7"));
    assert!(report.contains("frames"));
    let kept = register_sensitive_buffer(SecureKeyBuffer::new(b"k"));
    assert_eq!(kept.as_ref(), b"k");
}

#[test]
fn test_shutdown_hook_creation() {
    let hook = ShutdownHook::new();
    assert!(!hook.is_shutting_down());
}

#[test]
fn a_shutdown_runs_once_and_reports_timeouts() {
    let mut hook = ShutdownHook::new();
    assert!(hook.begin_shutdown().is_none());
    assert!(hook.is_shutting_down());
    let again = hook.begin_shutdown().unwrap();
    assert!(!again.success);
    let good = ShutdownHook::execute_shutdown(Some(3), Some(4), 1_000);
    assert!(good.success);
    assert_eq!(good.orders_cancelled, 3);
    assert_eq!(good.events_flushed, 4);
    let late = ShutdownHook::execute_shutdown(None, Some(4), 1_000);
    assert_eq!(late.orders_cancelled, 0);
}

#[test]
fn cancelling_is_tried_again_and_then_given_up() {
    let mut attempts = CancelAttempts::new();
    let first = attempts.cancel_all_orders(CancelEvent::RateLimited);
    assert!(!first.finished);
    let second = attempts.cancel_all_orders(CancelEvent::RateLimited);
    assert!(second.wait_ms >= first.wait_ms);
    let done = attempts.cancel_all_orders(CancelEvent::Cancelled(5));
    assert!(done.finished);
    assert_eq!(attempts.cancelled_count, 5);
}

#[test]
fn memory_in_use_is_never_less_than_nothing() {
    let used = memory_of(100, 40);
    assert_eq!((used.total_kb, used.used_kb), (100, 60));
    assert_eq!(memory_of(40, 100).used_kb, 0);
    let read = memory_read("MemTotal: 1024.75 kB\nMemAvailable: 1.5e2 kB\n");
    assert_eq!((read.total_kb, read.used_kb), (1024, 874));
    assert_eq!(memory_read("MemTotal: 12x kB\n").total_kb, 0);
    assert_eq!(memory_read("MemTotal: inf kB\n").total_kb, u64::MAX);
}
