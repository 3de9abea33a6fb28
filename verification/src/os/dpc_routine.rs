//! Watch over the latency of deferred procedure calls.
use crate::math;
use vstd::prelude::*;

verus! {

/// DPC priority levels
#[derive(Debug, Clone, Copy, PartialEq, Eq, Structural)]
pub enum DpcPriority {
    Low,
    Normal,
    High,
    Realtime,
}

/// DPC optimization configuration
#[derive(Debug, Clone, Copy, PartialEq, Eq, Structural)]
pub struct DpcConfig {
    /// Target CPU core for DPC processing (separate from hot-path)
    pub dpc_cpu_core: u8,
    /// Hot-path CPU core (isolated from DPCs)
    pub hotpath_cpu_core: u8,
    /// DPC priority level
    pub dpc_priority: DpcPriority,
    /// Enable DPC watchdog monitoring
    pub enable_watchdog: bool,
    /// Maximum acceptable DPC latency in microseconds
    pub max_dpc_latency_us: u32,
}

pub open spec fn standard_config() -> DpcConfig {
    DpcConfig {
        dpc_cpu_core: 0,
        hotpath_cpu_core: 4,
        dpc_priority: DpcPriority::High,
        enable_watchdog: true,
        max_dpc_latency_us: 50,
    }
}

impl Default for DpcConfig {
    fn default() -> (r: Self)
        ensures
            r == standard_config(),
    {
        DpcConfig {
            dpc_cpu_core: 0,
            hotpath_cpu_core: 4,
            dpc_priority: DpcPriority::High,
            enable_watchdog: true,
            max_dpc_latency_us: 50,
        }
    }
}

/// DPC statistics structure
#[derive(Debug, Clone, Copy, PartialEq, Eq, Structural)]
pub struct DpcStats {
    pub dpc_count: u64,
    pub max_latency_us: u64,
    pub violations: u64,
    pub is_initialized: bool,
    pub config: DpcConfig,
}

/// DPC routine manager
pub struct DpcRoutineManager {
    pub config: DpcConfig,
    pub is_initialized: bool,
    pub dpc_count: u64,
    pub max_latency_observed_us: u64,
    pub violations_count: u64,
}

impl DpcRoutineManager {
    /// A manager that has seen nothing yet.
    pub open spec fn fresh(config: DpcConfig) -> DpcRoutineManager {
        DpcRoutineManager {
            config,
            is_initialized: false,
            dpc_count: 0,
            max_latency_observed_us: 0,
            violations_count: 0,
        }
    }

    /// Create new DPC manager with default config
    pub fn new() -> (r: Self)
        ensures
            r == DpcRoutineManager::fresh(standard_config()),
    {
        DpcRoutineManager::with_config(DpcConfig::default())
    }

    /// Create with custom config
    pub fn with_config(config: DpcConfig) -> (r: Self)
        ensures
            r == DpcRoutineManager::fresh(config),
    {
        DpcRoutineManager {
            config,
            is_initialized: false,
            dpc_count: 0,
            max_latency_observed_us: 0,
            violations_count: 0,
        }
    }

    /// Initialize DPC optimization
    /// Must be called before starting hot-path threads
    pub fn initialize(&mut self) -> (r: Result<(), &'static str>)
        ensures
            match r {
                Ok(()) => !old(self).is_initialized && *final(self) == (DpcRoutineManager {
                    is_initialized: true,
                    ..*old(self)
                }),
                Err(e) => old(self).is_initialized && e@ == "DPC manager already initialized"@
                    && *final(self) == *old(self),
            },
    {
        if self.is_initialized {
            return Err("DPC manager already initialized");
        }
        self.is_initialized = true;
        Ok(())
    }

    /// Isolate hot-path thread from DPC interruptions
    /// Call this on each hot-path thread before entering main loop
    pub fn isolate_hotpath_thread(&self) -> (r: Result<(), &'static str>)
        ensures
            match r {
                Ok(()) => self.is_initialized,
                Err(e) => !self.is_initialized && e@ == "DPC manager not initialized"@,
            },
    {
        if !self.is_initialized {
            return Err("DPC manager not initialized");
        }
        Ok(())
    }

    /// Record DPC latency measurement
    pub fn record_dpc_latency(&mut self, latency_us: u64)
        ensures
            *final(self) == (DpcRoutineManager {
                dpc_count: old(self).dpc_count.wrapping_add(1),
                max_latency_observed_us: math::max_int(
                    old(self).max_latency_observed_us as int,
                    latency_us as int,
                ) as u64,
                violations_count: if latency_us > old(self).config.max_dpc_latency_us {
                    old(self).violations_count.wrapping_add(1)
                } else {
                    old(self).violations_count
                },
                ..*old(self)
            }),
    {
        self.dpc_count = self.dpc_count.wrapping_add(1);
        if latency_us > self.max_latency_observed_us {
            self.max_latency_observed_us = latency_us;
        }
        if latency_us > self.config.max_dpc_latency_us as u64 {
            self.violations_count = self.violations_count.wrapping_add(1);
        }
    }

    /// Get DPC statistics
    pub fn get_stats(&self) -> (r: DpcStats)
        ensures
            r == (DpcStats {
                dpc_count: self.dpc_count,
                max_latency_us: self.max_latency_observed_us,
                violations: self.violations_count,
                is_initialized: self.is_initialized,
                config: self.config,
            }),
    {
        DpcStats {
            dpc_count: self.dpc_count,
            max_latency_us: self.max_latency_observed_us,
            violations: self.violations_count,
            is_initialized: self.is_initialized,
            config: self.config,
        }
    }

    /// Check if DPC latency is within acceptable bounds
    pub fn is_healthy(&self) -> (r: bool)
        ensures
            r == (self.max_latency_observed_us <= self.config.max_dpc_latency_us
                && self.violations_count < 10),
    {
        let stats: DpcStats = self.get_stats();
        stats.max_latency_us <= self.config.max_dpc_latency_us as u64 && stats.violations < 10
    }

    /// Shutdown DPC management
    pub fn shutdown(&mut self)
        ensures
            *final(self) == (DpcRoutineManager { is_initialized: false, ..*old(self) }),
    {
        self.is_initialized = false;
    }
}

/// The standard settings: calls run on the first core with high priority, the
/// hot path on the fifth, and a call may take fifty microseconds.
pub proof fn law_standard_routing()
    ensures
        ({
            let c = standard_config();
            &&& c.dpc_cpu_core == 0
            &&& c.hotpath_cpu_core == 4
            &&& c.dpc_priority is High
            &&& c.enable_watchdog
            &&& c.max_dpc_latency_us == 50
        }),
{
}

} // verus!
