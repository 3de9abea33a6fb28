//! Trimming of the working set when memory use nears its limit.
use crate::math;
use crate::math::Ratio;
use vstd::prelude::*;

verus! {

/// Default maximum working set size (8GB)
pub const DEFAULT_MAX_WORKING_SET: u64 = 8_589_934_592;

/// Minimum working set size (256MB)
pub const MIN_WORKING_SET: u64 = 268_435_456;

/// Working Set Management Status
#[derive(Debug, Clone, Copy, PartialEq, Eq, Structural)]
pub enum WorkingSetStatus {
    /// Working set within limits
    Normal,
    /// Approaching memory limit
    Warning,
    /// Trim operation in progress
    Trimming,
    /// Trim completed successfully
    Trimmed,
    /// API call failed
    ApiFailed,
    /// Memory limit exceeded
    Exceeded,
}

/// Working Set Configuration
#[derive(Debug, Clone, Copy, PartialEq, Eq, Structural)]
pub struct WorkingSetConfig {
    /// Maximum working set size in bytes
    pub max_size: u64,
    /// Minimum working set size in bytes
    pub min_size: u64,
    /// Trigger trim when usage exceeds this part of max
    pub trim_threshold_pct: Ratio,
    /// Target size after trim (part of current)
    pub trim_target_pct: Ratio,
    /// Cooldown period between trims (milliseconds)
    pub trim_cooldown_ms: u64,
}

pub open spec fn standard_config() -> WorkingSetConfig {
    WorkingSetConfig {
        max_size: DEFAULT_MAX_WORKING_SET,
        min_size: MIN_WORKING_SET,
        trim_threshold_pct: Ratio { num: 85, den: 100 },
        trim_target_pct: Ratio { num: 60, den: 100 },
        trim_cooldown_ms: 60_000,
    }
}

impl Default for WorkingSetConfig {
    fn default() -> (r: Self)
        ensures
            r == standard_config(),
    {
        WorkingSetConfig {
            max_size: DEFAULT_MAX_WORKING_SET,
            min_size: MIN_WORKING_SET,
            trim_threshold_pct: Ratio { num: 85, den: 100 },
            trim_target_pct: Ratio { num: 60, den: 100 },
            trim_cooldown_ms: 60_000,
        }
    }
}

/// Working Set Manager
pub struct WorkingSetManager {
    pub config: WorkingSetConfig,
    pub status: WorkingSetStatus,
    pub last_trim_ns: u64,
    pub trim_count: u64,
    pub is_trimming: bool,
    pub peak_usage_bytes: u64,
    pub current_estimate_bytes: u64,
}

/// Whether usage reaches the part of the maximum at which a trim is due.
pub open spec fn reaches_threshold(config: WorkingSetConfig, usage: u64) -> bool {
    (usage > 0 || config.max_size > 0) && usage * config.trim_threshold_pct.den >= config.trim_threshold_pct.num * config.max_size
}

/// The status at some usage.
pub open spec fn status_at(config: WorkingSetConfig, usage: u64) -> WorkingSetStatus {
    if usage >= config.max_size && usage > 0 {
        WorkingSetStatus::Exceeded
    } else if reaches_threshold(config, usage) {
        WorkingSetStatus::Warning
    } else {
        WorkingSetStatus::Normal
    }
}

fn over_threshold(config: &WorkingSetConfig, usage: u64) -> (r: bool)
    ensures
        r == reaches_threshold(*config, usage),
{
    proof {
        let (u, d) = (usage as int, config.trim_threshold_pct.den as int);
        let (n, m) = (config.trim_threshold_pct.num as int, config.max_size as int);
        assert(0 <= u * d <= 0xFFFF_FFFF_FFFF_FFFF * 0xFFFF_FFFF_FFFF_FFFF) by (nonlinear_arith)
            requires
                0 <= u <= 0xFFFF_FFFF_FFFF_FFFF,
                0 <= d <= 0xFFFF_FFFF_FFFF_FFFF,
        ;
        assert(0 <= n * m <= 0xFFFF_FFFF_FFFF_FFFF * 0xFFFF_FFFF_FFFF_FFFF) by (nonlinear_arith)
            requires
                0 <= n <= 0xFFFF_FFFF_FFFF_FFFF,
                0 <= m <= 0xFFFF_FFFF_FFFF_FFFF,
        ;
    }
    (usage > 0 || config.max_size > 0) && usage as u128 * config.trim_threshold_pct.den as u128
        >= config.trim_threshold_pct.num as u128 * config.max_size as u128
}

impl WorkingSetManager {
    /// A manager that has seen nothing yet.
    pub open spec fn fresh(config: WorkingSetConfig) -> WorkingSetManager {
        WorkingSetManager {
            config,
            status: WorkingSetStatus::Normal,
            last_trim_ns: 0,
            trim_count: 0,
            is_trimming: false,
            peak_usage_bytes: 0,
            current_estimate_bytes: 0,
        }
    }

    /// Create a new working set manager with default configuration
    pub fn new() -> (r: Self)
        ensures
            r == WorkingSetManager::fresh(standard_config()),
    {
        WorkingSetManager::with_config(WorkingSetConfig::default())
    }

    /// Create with custom configuration
    pub fn with_config(config: WorkingSetConfig) -> (r: Self)
        ensures
            r == WorkingSetManager::fresh(config),
    {
        WorkingSetManager {
            config,
            status: WorkingSetStatus::Normal,
            last_trim_ns: 0,
            trim_count: 0,
            is_trimming: false,
            peak_usage_bytes: 0,
            current_estimate_bytes: 0,
        }
    }

    /// Get current working set status
    pub fn status(&self) -> (r: WorkingSetStatus)
        ensures
            r == self.status,
    {
        self.status
    }

    /// Update current memory estimate (call periodically)
    pub fn update_memory_estimate(&mut self, estimated_bytes: u64)
        ensures
            *final(self) == (WorkingSetManager {
                current_estimate_bytes: estimated_bytes,
                peak_usage_bytes: math::max_int(
                    old(self).peak_usage_bytes as int,
                    estimated_bytes as int,
                ) as u64,
                status: status_at(old(self).config, estimated_bytes),
                ..*old(self)
            }),
    {
        self.current_estimate_bytes = estimated_bytes;
        if estimated_bytes > self.peak_usage_bytes {
            self.peak_usage_bytes = estimated_bytes;
        }
        self.status = if estimated_bytes >= self.config.max_size && estimated_bytes > 0 {
            WorkingSetStatus::Exceeded
        } else if over_threshold(&self.config, estimated_bytes) {
            WorkingSetStatus::Warning
        } else {
            WorkingSetStatus::Normal
        };
    }

    /// Whether a trim at a time has to wait for the cooldown to end.
    pub open spec fn cooling(&self, now_ns: u64) -> bool {
        math::max_int(now_ns - self.last_trim_ns, 0) < self.config.trim_cooldown_ms * 1_000_000
    }

    /// Attempt to trim the working set. `trimmed` is whether the system carries
    /// a trim out.
    ///
    /// Returns true if the trim was carried out, false if it failed or was
    /// skipped (cooldown or already trimming)
    pub fn try_trim(&mut self, now_ns: u64, trimmed: bool) -> (r: bool)
        requires
            old(self).config.trim_cooldown_ms * 1_000_000 <= u64::MAX,
        ensures
            if old(self).is_trimming || old(self).cooling(now_ns) {
                !r && *final(self) == *old(self)
            } else {
                r == trimmed && *final(self) == (WorkingSetManager {
                    status: if trimmed {
                        WorkingSetStatus::Trimmed
                    } else {
                        WorkingSetStatus::ApiFailed
                    },
                    last_trim_ns: now_ns,
                    trim_count: old(self).trim_count.wrapping_add(1),
                    ..*old(self)
                })
            },
    {
        if self.is_trimming {
            return false;
        }
        let cooldown_ns: u64 = self.config.trim_cooldown_ms * 1_000_000;
        if now_ns.saturating_sub(self.last_trim_ns) < cooldown_ns {
            return false;
        }
        self.last_trim_ns = now_ns;
        self.trim_count = self.trim_count.wrapping_add(1);
        self.status = if trimmed {
            WorkingSetStatus::Trimmed
        } else {
            WorkingSetStatus::ApiFailed
        };
        trimmed
    }

    /// Force immediate working set trim (bypasses cooldown)
    /// Use only in emergency situations
    pub fn force_trim(&mut self, now_ns: u64, trimmed: bool) -> (r: bool)
        ensures
            if old(self).is_trimming {
                !r && *final(self) == *old(self)
            } else {
                r == trimmed && *final(self) == (WorkingSetManager {
                    status: if trimmed {
                        WorkingSetStatus::Trimmed
                    } else {
                        WorkingSetStatus::Trimming
                    },
                    last_trim_ns: if trimmed {
                        now_ns
                    } else {
                        old(self).last_trim_ns
                    },
                    trim_count: old(self).trim_count.wrapping_add(1),
                    ..*old(self)
                })
            },
    {
        if self.is_trimming {
            return false;
        }
        self.status = WorkingSetStatus::Trimming;
        self.trim_count = self.trim_count.wrapping_add(1);
        if trimmed {
            self.status = WorkingSetStatus::Trimmed;
            self.last_trim_ns = now_ns;
        }
        trimmed
    }

    /// Check if trim is recommended based on current usage
    pub fn should_trim(&self) -> (r: bool)
        ensures
            r == reaches_threshold(self.config, self.current_estimate_bytes),
    {
        over_threshold(&self.config, self.current_estimate_bytes)
    }

    /// Get current memory usage estimate
    pub fn current_usage(&self) -> (r: u64)
        ensures
            r == self.current_estimate_bytes,
    {
        self.current_estimate_bytes
    }

    /// Get peak memory usage
    pub fn peak_usage(&self) -> (r: u64)
        ensures
            r == self.peak_usage_bytes,
    {
        self.peak_usage_bytes
    }

    /// Get total number of trims performed
    pub fn trim_count(&self) -> (r: u64)
        ensures
            r == self.trim_count,
    {
        self.trim_count
    }

    /// Get time since last trim (milliseconds)
    pub fn time_since_last_trim_ms(&self, now_ns: u64) -> (r: u64)
        requires
            now_ns >= self.last_trim_ns,
        ensures
            r == (if self.last_trim_ns == 0 {
                u64::MAX as int
            } else {
                (now_ns - self.last_trim_ns) / 1_000_000
            }),
    {
        if self.last_trim_ns == 0 {
            u64::MAX
        } else {
            (now_ns - self.last_trim_ns) / 1_000_000
        }
    }

    /// Get configured maximum working set size
    pub fn max_working_set(&self) -> (r: u64)
        ensures
            r == self.config.max_size,
    {
        self.config.max_size
    }

    /// Update configuration dynamically
    pub fn update_config(&mut self, new_config: WorkingSetConfig)
        ensures
            *final(self) == (WorkingSetManager { config: new_config, ..*old(self) }),
    {
        self.config = new_config;
    }
}

impl Default for WorkingSetManager {
    fn default() -> (r: Self)
        ensures
            r == WorkingSetManager::fresh(standard_config()),
    {
        WorkingSetManager::new()
    }
}

/// A trim is recommended exactly where the status after an estimate is not
/// normal, as long as the threshold is no more than the whole.
pub proof fn law_warning_means_trim(config: WorkingSetConfig, usage: u64)
    requires
        config.trim_threshold_pct.num <= config.trim_threshold_pct.den,
    ensures
        reaches_threshold(config, usage) <==> status_at(config, usage) != WorkingSetStatus::Normal,
{
    let (u, d) = (usage as int, config.trim_threshold_pct.den as int);
    let (n, m) = (config.trim_threshold_pct.num as int, config.max_size as int);
    assert(u >= m ==> u * d >= n * m) by (nonlinear_arith)
        requires
            0 <= n <= d,
            0 <= m,
            0 <= u,
    ;
}

/// The working set is exceeded from its largest size on, warned of from the
/// threshold on, and normal below.
pub proof fn law_status_by_usage(config: WorkingSetConfig, usage: u64)
    requires
        config.max_size > 0,
    ensures
        status_at(config, usage) == WorkingSetStatus::Exceeded <==> usage >= config.max_size,
        status_at(config, usage) == WorkingSetStatus::Warning <==> usage < config.max_size && usage
            * config.trim_threshold_pct.den >= config.trim_threshold_pct.num * config.max_size,
        status_at(config, usage) == WorkingSetStatus::Normal <==> usage < config.max_size && usage
            * config.trim_threshold_pct.den < config.trim_threshold_pct.num * config.max_size,
{
}

/// The standard settings: eight gibibytes at most and a quarter of one at least,
/// trimmed from eighty-five hundredths down to sixty, once a minute at most.
pub proof fn law_standard_working_set()
    ensures
        ({
            let c = standard_config();
            &&& c.max_size == 8 * 1024 * 1024 * 1024
            &&& c.min_size == 256 * 1024 * 1024
            &&& c.trim_threshold_pct.num * 100 == 85 * c.trim_threshold_pct.den
            &&& c.trim_target_pct.num * 100 == 60 * c.trim_target_pct.den
            &&& c.trim_cooldown_ms == 60 * 1000
        }),
{
}

/// After a trim the next one waits for the cooldown.
pub proof fn law_trims_cool_down(m: WorkingSetManager, now_ns: u64)
    requires
        m.config.trim_cooldown_ms > 0,
    ensures
        m.cooling(now_ns) <==> now_ns < m.last_trim_ns + m.config.trim_cooldown_ms * 1_000_000,
{
}

} // verus!
