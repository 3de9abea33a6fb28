use nautilus_core::math::Ratio;
use nautilus_core::network::tcp_tuning::Platform;
use nautilus_core::os::afxdp_stub::{AfXdpSocketStub, RX_RING_SIZE};
use nautilus_core::os::dpc_routine::{DpcConfig, DpcPriority, DpcRoutineManager};
use nautilus_core::os::interrupt_affinity::{InterruptAffinityManager, NetworkAdapter};
use nautilus_core::os::interrupt_routing::InterruptRouter;
use nautilus_core::os::large_pages::{
    LargePageBuffer, LargePageConfig, LargePageManager, LargePageStatus, LARGE_PAGE_SIZE,
};
use nautilus_core::os::memory_evictor::{
    CacheType, LRUCacheEntry, MemoryEvictor, RAM_LIMIT_BYTES, SOFT_THRESHOLD_BYTES,
};
use nautilus_core::os::numa_aware::{NumaAllocator, NumaThreadGuard, TYPICAL_L3_CACHE_SIZE};
use nautilus_core::os::pagefile_lock::PagefileLocker;
use nautilus_core::os::power_profiles::{PowerProfileManager, PowerSettings, SchemeWrite};
use nautilus_core::os::process_guard::{
    is_authorized_name, HaltSignal, ProbedProcess, ProcessGuard, ProcessGuardBuilder,
    ProcessGuardError, ProcessProbe, SendOutcome, REGISTER_CAPACITY,
};
use nautilus_core::os::thermal_shedder::{EnginePriority, SheddableEngine, ThermalShedder};
use nautilus_core::os::thread_affinity::ThreadAffinityManager;
use nautilus_core::os::windows_fibers::{FiberControlBlock, FiberScheduler};
use nautilus_core::os::working_set::{
    WorkingSetConfig, WorkingSetManager, WorkingSetStatus, DEFAULT_MAX_WORKING_SET,
};

fn value(r: Ratio) -> f64 {
    r.num as f64 / r.den as f64
}

#[test]
fn test_socket_initialization() {
    let mut socket = AfXdpSocketStub::new(0).unwrap();
    assert!(socket.initialize("eth0", 0).is_ok());
    assert!(socket.get_stats().is_active);
}

#[test]
fn test_packet_batch_processing() {
    let mut socket = AfXdpSocketStub::new(0).unwrap();
    socket.initialize("eth0", 0).unwrap();

    let data = b"Binance trade data";
    for i in 0..10 {
        socket.simulate_packet(data.len() as u32, i, 100 + i);
    }

    if let Some(batch) = socket.recv_batch() {
        assert_eq!(batch.len(), 10);

        for (i, _desc) in batch.iter().iter().enumerate() {
            let meta = batch.parse_binance_meta(i);
            assert!(meta.is_some());
        }
        assert_eq!(batch.parse_binance_meta(3).unwrap().sequence, 103);
        assert!(batch.parse_binance_meta(10).is_none());

        socket.release_packets(batch.len());
    }

    let stats = socket.get_stats();
    assert_eq!(stats.packets_processed, 10);
}

#[test]
fn test_adapter_reset_handling() {
    let mut socket = AfXdpSocketStub::new(0).unwrap();
    socket.initialize("eth0", 0).unwrap();

    socket.simulate_packet(4, 0, 0);

    socket.on_adapter_reset_start();
    assert!(socket.get_stats().is_resetting);

    assert!(socket.on_adapter_reset_complete().is_ok());
    assert!(!socket.get_stats().is_resetting);
    assert_eq!(socket.get_stats().rx_pending, 0);
}

#[test]
fn test_driver_unload_graceful() {
    let mut socket = AfXdpSocketStub::new(0).unwrap();
    socket.initialize("eth0", 0).unwrap();

    socket.on_driver_unload();
    assert!(!socket.get_stats().is_active);
    assert!(socket.recv_batch().is_none());
}

#[test]
fn full_receive_rings_drop() {
    let mut socket = AfXdpSocketStub::new(0).unwrap();
    socket.initialize("eth0", 0).unwrap();
    for i in 0..RX_RING_SIZE as u64 + 1 {
        socket.simulate_packet(1, i, i);
    }
    assert_eq!(socket.get_stats().rx_pending, RX_RING_SIZE as u64);
    assert_eq!(socket.get_stats().packets_dropped, 1);
}

#[test]
fn test_dpc_manager_creation() {
    let mgr = DpcRoutineManager::new();
    assert!(!mgr.get_stats().is_initialized);
}

#[test]
fn test_dpc_manager_custom_config() {
    let config = DpcConfig {
        dpc_cpu_core: 2,
        hotpath_cpu_core: 6,
        dpc_priority: DpcPriority::Realtime,
        enable_watchdog: false,
        max_dpc_latency_us: 25,
    };
    let mgr = DpcRoutineManager::with_config(config);

    let stats = mgr.get_stats();
    assert_eq!(stats.config.dpc_cpu_core, 2);
    assert_eq!(stats.config.hotpath_cpu_core, 6);
}

#[test]
fn test_dpc_latency_recording() {
    let mut mgr = DpcRoutineManager::new();

    mgr.record_dpc_latency(10);
    mgr.record_dpc_latency(25);
    mgr.record_dpc_latency(15);

    let stats = mgr.get_stats();
    assert_eq!(stats.dpc_count, 3);
    assert_eq!(stats.max_latency_us, 25);
    assert_eq!(stats.violations, 0);

    mgr.record_dpc_latency(100);
    let stats = mgr.get_stats();
    assert_eq!(stats.violations, 1);
    assert_eq!(stats.max_latency_us, 100);
}

#[test]
fn test_health_check() {
    let mut mgr = DpcRoutineManager::new();

    assert!(mgr.is_healthy());

    for _ in 0..15 {
        mgr.record_dpc_latency(100);
    }

    assert!(!mgr.is_healthy());
}

#[test]
fn interrupt_affinity_test_manager_creation() {
    let manager = InterruptAffinityManager::new();
    assert_eq!(manager.get_nic_interrupt_core(), 7);
}

#[test]
fn test_enumerate_adapters() {
    let manager = InterruptAffinityManager::new();
    let adapters = manager.enumerate_network_adapters().unwrap();
    assert!(!adapters.is_empty());
}

#[test]
fn test_identify_binance_adapter() {
    let manager = InterruptAffinityManager::new();
    let adapters = vec![NetworkAdapter {
        instance_id: "TEST1".to_string(),
        mac_address: [0x00, 0x16, 0x3E, 0x00, 0x00, 0x00],
        affinity_mask: 0xFF,
        adapter_name: "Xen PV Network Adapter".to_string(),
    }];

    let result = manager.identify_binance_adapter(&adapters);
    assert!(result.is_some());
}

#[test]
fn interrupt_cores_are_checked() {
    let mut manager = InterruptAffinityManager::new();
    manager.initialize().unwrap();
    assert!(manager.set_nic_interrupt_affinity(3).is_ok());
    assert_eq!(manager.get_nic_interrupt_core(), 3);
    assert!(manager.set_nic_interrupt_affinity(1000).is_err());
    manager.reset_affinity().unwrap();
}

#[test]
fn interrupt_routing_test_router_creation() {
    let router = InterruptRouter::new(8);
    assert_eq!(router.reserved_cores, vec![0, 1]);
    assert!(!router.is_active);
}

#[test]
fn routing_keeps_devices_off_reserved_cores() {
    let mut router = InterruptRouter::new(8);
    assert!(router.initialize(false).is_err());
    assert!(router.initialize(true).is_ok());
    assert!(router.is_active);
    assert!(router.verify_isolation());
    router.device_affinity_map[0].allowed[0].logical_processor = 1;
    assert!(!router.verify_isolation());
    router.device_affinity_map[0].allowed[0].logical_processor = 2;
    for device in &router.device_affinity_map {
        for core in &device.allowed {
            assert!(!router.reserved_cores.contains(&core.logical_processor));
        }
    }
    router.restore_defaults();
    assert!(!router.is_active);
}

#[test]
fn test_large_page_manager_creation() {
    let config = LargePageConfig::default();
    let manager = LargePageManager::new(config);
    assert_eq!(manager.allocated_bytes(), 0);
}

#[test]
fn test_enable_privilege() {
    for platform in [Platform::Windows, Platform::Linux, Platform::Other] {
        let config = LargePageConfig { fallback_enabled: true, ..LargePageConfig::default() };
        let mut manager = LargePageManager::new(config);
        let status = manager.enable_privilege(platform);

        assert!(
            status == LargePageStatus::Enabled || status == LargePageStatus::PrivilegeDenied
        );
    }
}

#[test]
fn large_pages_test_allocation() {
    let config = LargePageConfig {
        requested_size: LARGE_PAGE_SIZE,
        fallback_enabled: true,
        strict_alignment: true,
    };
    let mut manager = LargePageManager::new(config);
    manager.enable_privilege(Platform::Linux);

    let ptr = manager.allocate(4096);
    assert!(ptr.is_some());

    manager.deallocate(ptr.unwrap(), 4096);
}

#[test]
fn large_pages_test_recommended_size() {
    let manager = LargePageManager::new(LargePageConfig::default());

    let size = manager.recommended_buffer_size(1000);
    assert_eq!(size, LARGE_PAGE_SIZE);

    let size = manager.recommended_buffer_size(LARGE_PAGE_SIZE + 1);
    assert_eq!(size, LARGE_PAGE_SIZE * 2);
}

#[test]
fn page_buffers_give_their_memory_back() {
    let mut manager = LargePageManager::new(LargePageConfig::default());
    manager.enable_privilege(Platform::Windows);
    let buffer = LargePageBuffer::new(&mut manager, 100).unwrap();
    assert_eq!(buffer.len(), 100);
    assert!(!buffer.is_empty());
    let held = manager.allocated_bytes();
    assert!(held >= 100);
    buffer.release(&mut manager);
    assert_eq!(manager.allocated_bytes(), held - 100);
}

fn cached(key: u64, cache_type: CacheType, size_bytes: u64) -> LRUCacheEntry {
    LRUCacheEntry {
        key,
        symbol_idx: 0,
        cache_type,
        size_bytes,
        last_access_ms: 0,
        created_ms: 0,
        is_locked: false,
    }
}

#[test]
fn test_register_and_evict() {
    let mut evictor = MemoryEvictor::new();

    for i in 0..10 {
        let entry = LRUCacheEntry {
            key: i,
            symbol_idx: 0,
            cache_type: CacheType::TickHistory,
            size_bytes: 1024,
            last_access_ms: 0,
            created_ms: 0,
            is_locked: false,
        };
        evictor.register_entry(entry, 0);
    }

    let stats = evictor.get_stats();
    assert_eq!(stats.total_used_bytes, 10 * 1024);
    assert_eq!(stats.tick_history_bytes, 10 * 1024);
}

#[test]
fn test_lock_prevents_eviction() {
    let mut evictor = MemoryEvictor::new();

    let entry = LRUCacheEntry {
        key: 1,
        symbol_idx: 0,
        cache_type: CacheType::TickHistory,
        size_bytes: 1024,
        last_access_ms: 0,
        created_ms: 0,
        is_locked: false,
    };
    evictor.register_entry(entry, 0);
    evictor.lock_entry(1);

    let stats = evictor.get_stats();
    assert_eq!(stats.total_used_bytes, 1024);
}

#[test]
fn test_memory_pressure_calculation() {
    let mut evictor = MemoryEvictor::new();

    let stats = evictor.get_stats();
    assert_eq!(value(stats.pressure_level), 0.0);

    evictor.current_usage_bytes = RAM_LIMIT_BYTES / 2;

    let stats = evictor.get_stats();
    assert!((value(stats.pressure_level) - 0.5).abs() < 0.01);
}

#[test]
fn eviction_spares_locked_entries_and_positions() {
    let mut evictor = MemoryEvictor::new();
    let third = SOFT_THRESHOLD_BYTES / 3;
    evictor.register_entry(cached(1, CacheType::TickHistory, third), 0);
    evictor.lock_entry(1);
    evictor.register_entry(cached(2, CacheType::ActivePositions, third), 1);
    evictor.register_entry(cached(3, CacheType::TickHistory, third), 2);
    evictor.register_entry(cached(4, CacheType::TradeHistory, third / 2), 3);
    let gone = evictor.take_evicted();
    for e in &gone {
        assert!(e.key == 3 || e.key == 4);
    }
    assert!(!gone.is_empty());
    evictor.remove_entry(2);
    evictor.unlock_entry(1);
    evictor.touch_entry(1, 9);
}

#[test]
fn test_allocator_creation() {
    let allocator = NumaAllocator::new(Platform::Linux, 8);
    assert!(!allocator.is_initialized);
}

#[test]
fn numa_aware_test_initialization() {
    let mut allocator = NumaAllocator::new(Platform::Linux, 8);
    assert!(allocator.initialize());
    assert!(allocator.is_initialized);

    assert!(allocator.initialize());
}

#[test]
fn numa_aware_test_allocation() {
    let mut allocator = NumaAllocator::new(Platform::Linux, 8);
    allocator.initialize();

    let ptr = allocator.allocate_on_node(1024, None, 1);
    assert!(ptr.is_some());

    allocator.deallocate(ptr.unwrap(), 1024, 64);
}

#[test]
fn test_thread_binding() {
    let mut allocator = NumaAllocator::new(Platform::Linux, 8);
    allocator.initialize();

    assert!(allocator.bind_thread_to_node(0));
    assert_eq!(allocator.get_current_node(1), 0);
}

#[test]
fn test_topology_detection() {
    let allocator = NumaAllocator::new(Platform::Linux, 8);
    let topology = allocator.topology();

    assert!(topology.node_count >= 1);
    assert!(topology.cores_per_node >= 1);
    assert!(topology.l3_cache_size > 0);
}

#[test]
fn numa_aware_test_recommended_size() {
    let allocator = NumaAllocator::new(Platform::Linux, 8);
    let size = allocator.recommended_cache_fit_size();

    assert!(size > 0);
    assert!(size <= TYPICAL_L3_CACHE_SIZE);
}

#[test]
fn node_guards_bind_and_release() {
    let mut allocator = NumaAllocator::new(Platform::Windows, 8);
    allocator.initialize();
    assert!(NumaThreadGuard::new(&mut allocator, 1000, 1).is_none());
    let guard = NumaThreadGuard::new(&mut allocator, 0, 1).unwrap();
    assert_eq!(guard.bound_node, 0);
    guard.release(&mut allocator);
    let before = allocator.total_allocated();
    allocator.allocate_on_node(64, Some(0), 1).unwrap();
    assert!(allocator.total_allocated() >= before + 64);
    assert_eq!(allocator.get_node_stats(1000), (0, 0));
}

#[test]
fn test_locker_creation() {
    let locker = PagefileLocker::new(64, Platform::Linux).unwrap();
    assert_eq!(locker.get_stats().total_locked_bytes, 0);
}

#[test]
fn test_allocate_and_lock() {
    let mut locker = PagefileLocker::new(64, Platform::Linux).unwrap();
    locker.initialize().unwrap();

    let ptr = locker.allocate_locked(4096, None, 4096, true);
    assert!(ptr.is_ok());

    let stats = locker.get_stats();
    assert!(stats.num_regions >= 1);

    if let Ok(p) = ptr {
        assert!(locker.unlock_region(p).is_ok());
        assert!(locker.unlock_region(p).is_err());
    }
}

#[test]
fn test_quota_enforcement() {
    let mut locker = PagefileLocker::new(1, Platform::Linux).unwrap();
    locker.initialize().unwrap();

    let ptr1 = locker.allocate_locked(500 * 1024, None, 4096, true);
    assert!(ptr1.is_ok());

    let ptr2 = locker.allocate_locked(600 * 1024, None, 4096, true);
    assert!(ptr2.is_err());

    locker.get_stats();
}

#[test]
fn test_emergency_unlock() {
    let mut locker = PagefileLocker::new(64, Platform::Linux).unwrap();
    locker.initialize().unwrap();

    let _ptr = locker.allocate_locked(4096, None, 4096, true).unwrap();
    assert!(locker.get_stats().total_locked_bytes > 0);

    locker.emergency_unlock_all();

    let stats = locker.get_stats();
    assert_eq!(stats.total_locked_bytes, 0);
    assert_eq!(stats.num_regions, 0);
}

#[test]
fn power_profiles_test_manager_creation() {
    let manager = PowerProfileManager::new();
    assert!(!manager.is_hft_mode_active());
}

#[test]
fn test_power_settings_default() {
    let settings = PowerSettings::default();
    assert_eq!(settings.core_parking_min, 100);
    assert_eq!(settings.core_parking_max, 100);
    assert_eq!(settings.proc_state_max, 100);
}

#[test]
fn test_initialize() {
    let mut manager = PowerProfileManager::new();
    manager.initialize().unwrap();
}

#[test]
fn restoring_ends_what_applying_began() {
    let mut manager = PowerProfileManager::new();
    manager.initialize().unwrap();
    manager.apply_all_hft_settings(SchemeWrite::Written).unwrap();
    assert!(manager.is_hft_mode_active());
    manager.restore_defaults().unwrap();
    assert!(!manager.is_hft_mode_active());
    assert!(manager.apply_ultimate_performance(SchemeWrite::Refused).is_err());
    assert!(!manager.disable_core_parking().unwrap().is_empty());
    assert!(!manager.disable_cpu_throttling().unwrap().is_empty());
}

#[test]
fn test_process_guard_creation() {
    let guard = ProcessGuardBuilder::new().parent_pid(12345).build(1).unwrap();

    assert!(!guard.is_trading_halted());
    assert_eq!(guard.get_stats().scan_count, 0);
    assert_eq!(guard.parent_pid, 12345);
}

#[test]
fn test_child_registration() {
    let mut guard = ProcessGuard::new(77);
    assert!(guard.register_child(99999).is_ok());
}

#[test]
fn test_trading_halt_flag() {
    let mut guard = ProcessGuard::new(1);
    assert!(!guard.is_trading_halted());

    let stranger = ProcessGuardError::UnauthorizedProcess { pid: 9, name: "x".to_string() };
    assert!(guard.record_scan(Err(stranger), 50, 10));
    assert!(guard.is_trading_halted());
    assert_eq!(guard.last_violation_timestamp(), 50);
    match guard.next_halt_signal() {
        Some(HaltSignal::UnauthorizedProcess { pid, name }) => {
            assert_eq!(pid, 9);
            assert_eq!(name, "x");
        }
        _ => panic!("a halt signal was expected"),
    }
    assert!(guard.next_halt_signal().is_none());
}

#[test]
fn registered_children_become_authorized() {
    let mut guard = ProcessGuard::new(1);
    guard.register_child(50).unwrap();
    guard.register_child(52).unwrap();
    assert_eq!(guard.absorb_registrations(), vec![50, 52]);
    assert!(guard.absorb_registrations().is_empty());
    assert_eq!(guard.authorized_children.len(), 2);
    assert!(guard.authorized_children.contains(&50));
    let known = vec![ProbedProcess { pid: 50, probe: ProcessProbe::Unnamed }];
    assert!(guard.scan_pid_tree(&known).is_ok());
    let stranger = vec![ProbedProcess {
        pid: 51,
        probe: ProcessProbe::Named("definitely_not_known.exe".to_string()),
    }];
    assert!(!is_authorized_name("definitely_not_known.exe"));
    assert!(guard.scan_pid_tree(&stranger).is_err());
}

#[test]
fn breaches_leave_signals_until_the_channel_is_full() {
    let mut guard = ProcessGuard::new(1);
    for pid in 0..20 {
        let breach = ProcessGuardError::UnauthorizedProcess { pid, name: format!("p{}", pid) };
        assert!(guard.record_scan(Err(breach), 5, 10));
    }
    for pid in 0..16 {
        match guard.next_halt_signal() {
            Some(HaltSignal::UnauthorizedProcess { pid: told, name }) => {
                assert_eq!(told, pid);
                assert_eq!(name, format!("p{}", pid));
            }
            _ => panic!("a halt signal was expected"),
        }
    }
    assert!(guard.next_halt_signal().is_none());
}

#[test]
fn registering_a_key_again_replaces_its_entry() {
    let mut evictor = MemoryEvictor::new();
    evictor.register_entry(cached(1, CacheType::TickHistory, 1024), 0);
    evictor.register_entry(cached(1, CacheType::TickHistory, 1024), 1);
    let stats = evictor.get_stats();
    assert_eq!(stats.total_used_bytes, 1024);
    assert_eq!(stats.tick_history_bytes, 1024);
    assert_eq!(evictor.lru_queues[0].len(), 1);
    evictor.register_entry(cached(1, CacheType::TradeHistory, 10), 2);
    let stats = evictor.get_stats();
    assert_eq!(stats.total_used_bytes, 10);
    assert_eq!(stats.tick_history_bytes, 0);
    assert_eq!(stats.trade_history_bytes, 10);
    assert!(evictor.lru_queues[0].is_empty());
    evictor.remove_entry(1);
    assert_eq!(evictor.get_stats().total_used_bytes, 0);
    assert_eq!(evictor.get_stats().total_evictions, 0);
}

#[test]
fn a_full_registration_queue_is_an_error() {
    let mut guard = ProcessGuard::new(1);
    for pid in 0..REGISTER_CAPACITY as u32 {
        assert!(guard.register_child(pid).is_ok());
    }
    assert!(guard.register_child(9).is_err());
    let taken = guard.absorb_registrations();
    assert_eq!(taken.len(), REGISTER_CAPACITY);
    assert_eq!((taken[0], taken[1023]), (0, 1023));
    assert!(guard.register_child(9).is_ok());
    assert!(ProcessGuard::registration_answer(SendOutcome::Sent).is_ok());
    let full = ProcessGuard::registration_answer(SendOutcome::Full).err().unwrap();
    let closed = ProcessGuard::registration_answer(SendOutcome::Disconnected).err().unwrap();
    assert!(full.message() != closed.message());
    let denied = ProcessGuardError::AccessDenied { pid: 4 };
    assert!(denied.message().contains("4"));
}

fn engine(symbol_idx: u8, priority: EnginePriority, sharpe_ratio_fp: i64) -> SheddableEngine {
    SheddableEngine {
        symbol_idx,
        priority,
        sharpe_ratio_fp,
        current_pnl_micro: -1000,
        last_update_ms: 0,
        is_shed: false,
    }
}

#[test]
fn test_temperature_tracking() {
    let mut shedder = ThermalShedder::new();

    shedder.update_temperature(7500, 0);
    assert!((shedder.get_temperature() as f64 / 100.0 - 75.0).abs() < 0.01);

    shedder.update_temperature(8000, 1);
    assert!((shedder.get_peak_temperature() as f64 / 100.0 - 80.0).abs() < 0.01);
}

#[test]
fn test_engine_shedding_at_threshold() {
    let mut shedder = ThermalShedder::new();

    shedder.register_engine(engine(5, EnginePriority::Low, 500));

    shedder.update_temperature(9000, 0);

    assert!(shedder.is_engine_shed(5));
    assert!(shedder.is_shedding_active());
}

#[test]
fn test_critical_engine_never_shed() {
    let mut shedder = ThermalShedder::new();

    let engine = SheddableEngine {
        symbol_idx: 0,
        priority: EnginePriority::Critical,
        sharpe_ratio_fp: -500,
        current_pnl_micro: -10000,
        last_update_ms: 0,
        is_shed: false,
    };
    shedder.register_engine(engine);

    shedder.update_temperature(9500, 0);

    assert!(!shedder.is_engine_shed(0));
}

#[test]
fn test_emergency_shed() {
    let mut shedder = ThermalShedder::new();

    for i in 1u8..=5 {
        let engine = SheddableEngine {
            symbol_idx: i,
            priority: EnginePriority::Low,
            sharpe_ratio_fp: 1000,
            current_pnl_micro: 0,
            last_update_ms: 0,
            is_shed: false,
        };
        shedder.register_engine(engine);
    }

    shedder.emergency_shed_all(0);

    assert!(shedder.is_shedding_active());
    assert_eq!(shedder.get_shed_count(), 5);
}

#[test]
fn the_weakest_engine_goes_first() {
    let mut shedder = ThermalShedder::new();
    shedder.register_engine(engine(1, EnginePriority::Low, 900));
    shedder.register_engine(engine(2, EnginePriority::Low, 100));
    shedder.register_engine(engine(3, EnginePriority::High, 0));
    shedder.update_temperature(8600, 0);
    assert!(shedder.is_engine_shed(2));
    assert!(!shedder.is_engine_shed(1));
    assert!(!shedder.is_engine_shed(3));
    assert_eq!(shedder.take_paused(), vec![2]);
    shedder.update_temperature(7000, 1);
    assert!(!shedder.is_shedding_active());
}

#[test]
fn test_affinity_manager_creation() {
    let manager = ThreadAffinityManager::new();
    assert_eq!(manager.max_cores, 8);
}

#[test]
fn test_core_reservation() {
    let mut manager = ThreadAffinityManager::new();
    manager.initialize().unwrap();

    let core = manager.reserve_p_core();
    assert!(core.is_some());

    if let Some(core_id) = core {
        manager.release_core(core_id);
    }
}

#[test]
fn reserved_cores_are_not_handed_out_twice() {
    let mut manager = ThreadAffinityManager::new();
    manager.initialize().unwrap();
    let first = manager.reserve_p_core().unwrap();
    let second = manager.reserve_p_core().unwrap();
    assert!(first != second);
    manager.release_core(first);
    assert_eq!(manager.reserve_p_core(), Some(first));
    assert!(manager.claim_core(99).is_err());
    assert!(manager.pin_current_thread_to_core(first, true).is_err());
}

#[test]
fn test_scheduler_creation() {
    let scheduler = FiberScheduler::new(64);
    assert_eq!(scheduler.max_fibers, 64);
    assert_eq!(scheduler.get_stats().fiber_count, 0);
}

#[test]
fn test_fiber_control_block() {
    let fcb = FiberControlBlock::new(1, 65536);
    assert_eq!(fcb.id, 1);
    assert_eq!(fcb.stack_size, 65536);
    assert!(!fcb.is_active());
}

#[test]
fn created_fibers_can_be_switched_to() {
    let mut scheduler = FiberScheduler::new(2);
    assert!(scheduler.initialize(0).is_err());
    scheduler.initialize(1000).unwrap();
    let id = scheduler.create_fiber(4096, 5, 2000).unwrap();
    assert_eq!(scheduler.switch_to(id, 7), Some(2000));
    assert_eq!(scheduler.yield_execution(), Some(1000));
    assert!(scheduler.switch_to(id + 100, 8).is_none());
    assert!(scheduler.delete_fiber(id));
    assert!(!scheduler.delete_fiber(id));
    scheduler.shutdown();
    assert!(!scheduler.get_stats().running);
}

#[test]
fn test_working_set_manager_creation() {
    let manager = WorkingSetManager::new();
    assert_eq!(manager.status(), WorkingSetStatus::Normal);
    assert_eq!(manager.trim_count(), 0);
}

#[test]
fn test_memory_estimate_update() {
    let mut manager = WorkingSetManager::new();

    manager.update_memory_estimate(DEFAULT_MAX_WORKING_SET / 2);
    assert_eq!(manager.status(), WorkingSetStatus::Normal);

    manager.update_memory_estimate((DEFAULT_MAX_WORKING_SET as f64 * 0.9) as u64);
    assert_eq!(manager.status(), WorkingSetStatus::Warning);
}

#[test]
fn test_should_trim() {
    let mut manager = WorkingSetManager::new();

    manager.update_memory_estimate(DEFAULT_MAX_WORKING_SET / 2);
    assert!(!manager.should_trim());

    manager.update_memory_estimate((DEFAULT_MAX_WORKING_SET as f64 * 0.9) as u64);
    assert!(manager.should_trim());
}

#[test]
fn test_trim_operation() {
    let mut manager = WorkingSetManager::new();
    let now = 1_000_000_000_000;

    assert!(manager.try_trim(now, true));
    assert_eq!(manager.trim_count(), 1);

    assert!(!manager.try_trim(now, true));
}

#[test]
fn test_peak_tracking() {
    let mut manager = WorkingSetManager::new();

    manager.update_memory_estimate(1_000_000_000);
    manager.update_memory_estimate(2_000_000_000);
    manager.update_memory_estimate(1_500_000_000);

    assert_eq!(manager.peak_usage(), 2_000_000_000);
    assert_eq!(manager.current_usage(), 1_500_000_000);
}

#[test]
fn failed_trims_are_told_apart() {
    let mut manager = WorkingSetManager::with_config(WorkingSetConfig::default());
    assert!(!manager.try_trim(1_000_000_000_000, false));
    assert_eq!(manager.status(), WorkingSetStatus::ApiFailed);
    assert!(manager.force_trim(1_000_000_000_001, true));
    assert_eq!(manager.time_since_last_trim_ms(1_000_000_000_001 + 5_000_000), 5);
    assert_eq!(manager.max_working_set(), DEFAULT_MAX_WORKING_SET);
}
