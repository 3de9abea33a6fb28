//! Which connection to use next when the current one fails.
use crate::math;
use vstd::prelude::*;

verus! {

/// Number of regional backup nodes
pub const NUM_BACKUP_NODES: usize = 3;

/// Default health check interval (milliseconds)
pub const HEALTH_CHECK_INTERVAL_MS: u64 = 500;

/// Desync threshold (consecutive sequence gaps before triggering failover)
pub const DESYNC_THRESHOLD: u64 = 5;

/// REST polling interval during failover (milliseconds)
pub const REST_POLL_INTERVAL_MS: u64 = 100;

/// Maximum consecutive REST polling failures before giving up
pub const MAX_REST_FAILURES: u64 = 10;

/// How many failovers the history keeps.
pub const MAX_HISTORY: usize = 100;

/// A node with this many failures in a row is not used.
pub const NODE_FAILURE_LIMIT: u64 = 3;

/// Connection mode
#[derive(Debug, Clone, Copy, PartialEq, Eq, Structural)]
pub enum ConnectionMode {
    /// Primary WebSocket connection
    PrimaryWebSocket,
    /// Secondary/backup WebSocket connection
    BackupWebSocket(usize),
    /// REST API polling fallback
    RestPolling,
    /// Disconnected
    Disconnected,
}

/// Failover reason
#[derive(Debug, Clone, Copy, PartialEq, Eq, Structural)]
pub enum FailoverReason {
    /// Manual trigger
    Manual,
    /// WebSocket connection lost
    ConnectionLost,
    /// Sequence desync detected
    SequenceDesync { expected: u64, received: u64 },
    /// Heartbeat timeout
    HeartbeatTimeout,
    /// Predictive degradation (from heartbeat tracker)
    PredictiveDegradation,
    /// Too many REST failures
    RestFailuresExhausted,
    /// Health check failure
    HealthCheckFailed,
}

/// Failover event
#[derive(Debug, Clone, Copy, PartialEq, Eq, Structural)]
pub struct FailoverEvent {
    pub from_mode: ConnectionMode,
    pub to_mode: ConnectionMode,
    pub reason: FailoverReason,
    pub timestamp_ns: u64,
    pub latency_us: u64,
}

/// Node health status
#[derive(Debug)]
pub struct NodeHealth {
    pub endpoint: String,
    pub is_healthy: bool,
    pub last_check_ns: u64,
    pub consecutive_failures: u64,
}

impl NodeHealth {
    pub open spec fn usable(&self) -> bool {
        self.is_healthy && self.consecutive_failures < NODE_FAILURE_LIMIT
    }
}

/// Configuration for failover router
#[derive(Debug, Clone, Copy, PartialEq, Eq, Structural)]
pub struct FailoverConfig {
    pub health_check_interval_ms: u64,
    pub desync_threshold: u64,
    pub rest_poll_interval_ms: u64,
    pub max_rest_failures: u64,
    /// Enable predictive failover
    pub enable_predictive_failover: bool,
    /// Degradation threshold for predictive failover
    pub degradation_threshold_ms: u64,
}

impl FailoverConfig {
    pub open spec fn standard() -> FailoverConfig {
        FailoverConfig {
            health_check_interval_ms: HEALTH_CHECK_INTERVAL_MS,
            desync_threshold: DESYNC_THRESHOLD,
            rest_poll_interval_ms: REST_POLL_INTERVAL_MS,
            max_rest_failures: MAX_REST_FAILURES,
            enable_predictive_failover: true,
            degradation_threshold_ms: 5000,
        }
    }
}

impl Default for FailoverConfig {
    fn default() -> (r: Self)
        ensures
            r == FailoverConfig::standard(),
    {
        FailoverConfig {
            health_check_interval_ms: HEALTH_CHECK_INTERVAL_MS,
            desync_threshold: DESYNC_THRESHOLD,
            rest_poll_interval_ms: REST_POLL_INTERVAL_MS,
            max_rest_failures: MAX_REST_FAILURES,
            enable_predictive_failover: true,
            degradation_threshold_ms: 5000,
        }
    }
}

/// Failover statistics snapshot
#[derive(Debug, Clone, Copy, PartialEq, Eq, Structural)]
pub struct FailoverStats {
    pub current_mode: ConnectionMode,
    pub total_failovers: u64,
    /// Failovers of the last hour, as far as the history goes back
    pub failover_count_last_hour: usize,
    pub healthy_nodes: usize,
    pub total_nodes: usize,
    pub rest_failures: u64,
    pub desync_count: u64,
}

pub open spec fn node_usable(nodes: Seq<NodeHealth>, index: int) -> bool {
    0 <= index < nodes.len() && nodes[index].usable()
}

/// The mode that follows a failed one: down the backups to polling, from
/// polling back up to the primary, and from nothing to the primary.
pub open spec fn next_mode(nodes: Seq<NodeHealth>, current: ConnectionMode) -> ConnectionMode {
    match current {
        ConnectionMode::PrimaryWebSocket => if node_usable(nodes, 0) {
            ConnectionMode::BackupWebSocket(0)
        } else if node_usable(nodes, 1) {
            ConnectionMode::BackupWebSocket(1)
        } else {
            ConnectionMode::RestPolling
        },
        ConnectionMode::BackupWebSocket(n) => if n + 1 < NUM_BACKUP_NODES && node_usable(
            nodes,
            n + 1,
        ) {
            ConnectionMode::BackupWebSocket((n + 1) as usize)
        } else {
            ConnectionMode::RestPolling
        },
        ConnectionMode::RestPolling => if node_usable(nodes, 0) {
            ConnectionMode::PrimaryWebSocket
        } else {
            ConnectionMode::RestPolling
        },
        ConnectionMode::Disconnected => ConnectionMode::PrimaryWebSocket,
    }
}

/// A history with one more event, without the oldest where it grows too long.
pub open spec fn remembered(history: Seq<FailoverEvent>, event: FailoverEvent) -> Seq<
    FailoverEvent,
> {
    let h = history.push(event);
    if h.len() > MAX_HISTORY {
        h.subrange(1, h.len() as int)
    } else {
        h
    }
}

/// How many nodes are marked healthy.
pub open spec fn healthy_count(nodes: Seq<NodeHealth>) -> nat
    decreases nodes.len(),
{
    if nodes.len() == 0 {
        0
    } else {
        healthy_count(nodes.drop_last()) + (if nodes.last().is_healthy {
            1nat
        } else {
            0nat
        })
    }
}

/// An hour in nanoseconds
pub const STATS_HOUR_NS: u64 = 3_600_000_000_000;

/// How many failovers of a history came less than an hour before a time.
pub open spec fn failovers_within(history: Seq<FailoverEvent>, now_ns: u64) -> nat
    decreases history.len(),
{
    if history.len() == 0 {
        0
    } else {
        failovers_within(history.drop_last(), now_ns) + (if now_ns - history.last().timestamp_ns
            < STATS_HOUR_NS {
            1nat
        } else {
            0nat
        })
    }
}

/// State of the failover router
pub struct FailoverRouter {
    /// Current connection mode
    pub current_mode: ConnectionMode,
    pub config: FailoverConfig,
    /// Expected sequence number
    pub expected_sequence: u64,
    /// Consecutive desync count
    pub desync_count: u64,
    /// REST failure count
    pub rest_failures: u64,
    /// Is failover in progress
    pub is_failing_over: bool,
    /// Last successful message timestamp
    pub last_message_ns: u64,
    /// Failover event history
    pub failover_history: Vec<FailoverEvent>,
    /// Node health tracking
    pub node_health: Vec<NodeHealth>,
    /// Total failovers
    pub total_failovers: u64,
}

fn regional_node(endpoint: &str) -> (r: NodeHealth)
    ensures
        r.endpoint@ == endpoint@,
        r.is_healthy,
        r.last_check_ns == 0,
        r.consecutive_failures == 0,
{
    NodeHealth {
        endpoint: endpoint.to_owned(),
        is_healthy: true,
        last_check_ns: 0,
        consecutive_failures: 0,
    }
}

impl FailoverRouter {
    pub open spec fn wf(&self) -> bool {
        &&& self.failover_history.len() <= MAX_HISTORY
        &&& self.current_mode matches ConnectionMode::BackupWebSocket(n) ==> n < usize::MAX
    }

    /// Everything but the mode, the counters that a failover resets, its record
    /// and its count is the same.
    pub open spec fn same_links(&self, other: &FailoverRouter) -> bool {
        &&& self.config == other.config
        &&& self.node_health == other.node_health
    }

    /// Create new failover router with default config
    pub fn new() -> (r: Self)
        ensures
            r.is_initial(FailoverConfig::standard()),
    {
        Self::with_config(FailoverConfig::default())
    }

    /// A router that has not connected yet: three healthy regional nodes.
    pub open spec fn is_initial(&self, config: FailoverConfig) -> bool {
        &&& self.wf()
        &&& self.current_mode == ConnectionMode::Disconnected
        &&& self.config == config
        &&& self.expected_sequence == 0
        &&& self.desync_count == 0
        &&& self.rest_failures == 0
        &&& !self.is_failing_over
        &&& self.last_message_ns == 0
        &&& self.failover_history.len() == 0
        &&& self.node_health.len() == NUM_BACKUP_NODES
        &&& self.total_failovers == 0
        &&& self.node_health@[0].endpoint@ == "wss://stream.binance.com:9443"@
        &&& self.node_health@[1].endpoint@ == "wss://stream.binance.us:9443"@
        &&& self.node_health@[2].endpoint@ == "wss://stream.binance.je:9443"@
        &&& forall|i: int|
            0 <= i < NUM_BACKUP_NODES ==> (#[trigger] self.node_health@[i]).usable()
                && self.node_health@[i].consecutive_failures == 0
    }

    /// Create new failover router with custom config
    pub fn with_config(config: FailoverConfig) -> (r: Self)
        ensures
            r.is_initial(config),
    {
        let mut node_health: Vec<NodeHealth> = Vec::new();
        node_health.push(regional_node("wss://stream.binance.com:9443"));
        node_health.push(regional_node("wss://stream.binance.us:9443"));
        node_health.push(regional_node("wss://stream.binance.je:9443"));
        FailoverRouter {
            current_mode: ConnectionMode::Disconnected,
            config,
            expected_sequence: 0,
            desync_count: 0,
            rest_failures: 0,
            is_failing_over: false,
            last_message_ns: 0,
            failover_history: Vec::new(),
            node_health,
            total_failovers: 0,
        }
    }

    /// Get current connection mode
    pub fn get_mode(&self) -> (r: ConnectionMode)
        ensures
            r == self.current_mode,
    {
        self.current_mode
    }

    /// Get current mode (fast path)
    pub fn get_mode_fast(&self) -> (r: ConnectionMode)
        ensures
            r == self.current_mode,
    {
        self.current_mode
    }

    /// Set initial mode (call after establishing first connection)
    pub fn set_initial_mode(&mut self, mode: ConnectionMode, now_ns: u64)
        requires
            old(self).wf(),
            mode matches ConnectionMode::BackupWebSocket(n) ==> n < usize::MAX,
        ensures
            final(self).wf(),
            final(self).current_mode == mode,
            final(self).last_message_ns == now_ns,
            final(self).same_links(old(self)),
            final(self).expected_sequence == old(self).expected_sequence,
            final(self).desync_count == old(self).desync_count,
            final(self).rest_failures == old(self).rest_failures,
            final(self).is_failing_over == old(self).is_failing_over,
            final(self).failover_history == old(self).failover_history,
            final(self).total_failovers == old(self).total_failovers,
    {
        self.current_mode = mode;
        self.last_message_ns = now_ns;
    }

    /// A message skipped more than one sequence number.
    pub open spec fn skips(&self, sequence: u64) -> bool {
        self.expected_sequence > 0 && sequence > self.expected_sequence + 1
    }

    /// The gap that this message makes is the one that calls for a failover.
    pub open spec fn gives_up_on(&self, sequence: u64) -> bool {
        self.skips(sequence) && self.desync_count.wrapping_add(1) >= self.config.desync_threshold
    }

    /// Record received message with sequence number
    pub fn record_message(&mut self, sequence: u64, now_ns: u64, latency_us: u64) -> (r: Result<
        (),
        FailoverReason,
    >)
        requires
            old(self).wf(),
            sequence < u64::MAX,
        ensures
            final(self).wf(),
            final(self).same_links(old(self)),
            final(self).last_message_ns == now_ns,
            if old(self).gives_up_on(sequence) {
                let reason = FailoverReason::SequenceDesync {
                    expected: old(self).expected_sequence,
                    received: sequence,
                };
                let to = next_mode(old(self).node_health@, old(self).current_mode);
                &&& final(self).expected_sequence == old(self).expected_sequence
                &&& final(self).is_failing_over == old(self).is_failing_over
                &&& if old(self).is_failing_over {
                    &&& r == Err::<(), FailoverReason>(reason)
                    &&& final(self).current_mode == old(self).current_mode
                    &&& final(self).desync_count == old(self).desync_count.wrapping_add(1)
                    &&& final(self).rest_failures == old(self).rest_failures
                    &&& final(self).failover_history == old(self).failover_history
                    &&& final(self).total_failovers == old(self).total_failovers
                } else if to == old(self).current_mode {
                    &&& r == Err::<(), FailoverReason>(FailoverReason::RestFailuresExhausted)
                    &&& final(self).current_mode == old(self).current_mode
                    &&& final(self).desync_count == old(self).desync_count.wrapping_add(1)
                    &&& final(self).rest_failures == old(self).rest_failures
                    &&& final(self).failover_history == old(self).failover_history
                    &&& final(self).total_failovers == old(self).total_failovers
                } else {
                    &&& r == Err::<(), FailoverReason>(reason)
                    &&& final(self).current_mode == to
                    &&& final(self).desync_count == 0
                    &&& final(self).rest_failures == (if to == ConnectionMode::RestPolling {
                        old(self).rest_failures
                    } else {
                        0
                    })
                    &&& final(self).total_failovers == old(self).total_failovers.wrapping_add(1)
                    &&& final(self).failover_history@ == remembered(
                        old(self).failover_history@,
                        FailoverEvent {
                            from_mode: old(self).current_mode,
                            to_mode: to,
                            reason,
                            timestamp_ns: now_ns,
                            latency_us,
                        },
                    )
                }
            } else {
                &&& r is Ok
                &&& final(self).expected_sequence == sequence + 1
                &&& final(self).desync_count == (if old(self).skips(sequence) {
                    old(self).desync_count.wrapping_add(1)
                } else if old(self).expected_sequence > 0 {
                    0
                } else {
                    old(self).desync_count
                })
                &&& final(self).current_mode == old(self).current_mode
                &&& final(self).rest_failures == old(self).rest_failures
                &&& final(self).is_failing_over == old(self).is_failing_over
                &&& final(self).failover_history == old(self).failover_history
                &&& final(self).total_failovers == old(self).total_failovers
            },
    {
        self.last_message_ns = now_ns;
        let expected: u64 = self.expected_sequence;
        if expected > 0 {
            let gap: u64 = if sequence > expected {
                sequence - expected
            } else {
                0
            };
            if gap > 1 {
                self.desync_count = self.desync_count.wrapping_add(1);
                if self.desync_count >= self.config.desync_threshold {
                    let reason: FailoverReason = FailoverReason::SequenceDesync {
                        expected,
                        received: sequence,
                    };
                    return match self.trigger_failover(reason, now_ns, latency_us) {
                        Ok(_) => Err(reason),
                        Err(e) => Err(e),
                    };
                }
            } else {
                self.desync_count = 0;
            }
        }
        self.expected_sequence = sequence + 1;
        Ok(())
    }

    /// Trigger failover to next available mode
    pub fn trigger_failover(&mut self, reason: FailoverReason, now_ns: u64, latency_us: u64) -> (r:
        Result<(), FailoverReason>)
        requires
            old(self).wf(),
        ensures
            final(self).wf(),
            final(self).same_links(old(self)),
            final(self).expected_sequence == old(self).expected_sequence,
            final(self).last_message_ns == old(self).last_message_ns,
            ({
                let to = next_mode(old(self).node_health@, old(self).current_mode);
                if old(self).is_failing_over {
                    &&& r is Ok
                    &&& *final(self) == *old(self)
                } else if to == old(self).current_mode {
                    &&& r == Err::<(), FailoverReason>(FailoverReason::RestFailuresExhausted)
                    &&& *final(self) == *old(self)
                } else {
                    &&& r is Ok
                    &&& !final(self).is_failing_over
                    &&& final(self).current_mode == to
                    &&& final(self).desync_count == 0
                    &&& final(self).rest_failures == (if to == ConnectionMode::RestPolling {
                        old(self).rest_failures
                    } else {
                        0
                    })
                    &&& final(self).total_failovers == old(self).total_failovers.wrapping_add(1)
                    &&& final(self).failover_history@ == remembered(
                        old(self).failover_history@,
                        FailoverEvent {
                            from_mode: old(self).current_mode,
                            to_mode: to,
                            reason,
                            timestamp_ns: now_ns,
                            latency_us,
                        },
                    )
                }
            }),
    {
        if self.is_failing_over {
            return Ok(());
        }
        let from_mode: ConnectionMode = self.current_mode;
        let to_mode: ConnectionMode = self.select_next_mode(from_mode);
        if to_mode == from_mode {
            return Err(FailoverReason::RestFailuresExhausted);
        }
        self.execute_failover(from_mode, to_mode, reason, now_ns, latency_us);
        self.total_failovers = self.total_failovers.wrapping_add(1);
        Ok(())
    }

    /// Select next mode based on current mode
    pub fn select_next_mode(&self, current: ConnectionMode) -> (r: ConnectionMode)
        requires
            current matches ConnectionMode::BackupWebSocket(n) ==> n < usize::MAX,
        ensures
            r == next_mode(self.node_health@, current),
    {
        match current {
            ConnectionMode::PrimaryWebSocket => {
                if self.is_node_healthy(0) {
                    ConnectionMode::BackupWebSocket(0)
                } else if self.is_node_healthy(1) {
                    ConnectionMode::BackupWebSocket(1)
                } else {
                    ConnectionMode::RestPolling
                }
            },
            ConnectionMode::BackupWebSocket(n) => {
                let next: usize = n + 1;
                if next < NUM_BACKUP_NODES && self.is_node_healthy(next) {
                    ConnectionMode::BackupWebSocket(next)
                } else {
                    ConnectionMode::RestPolling
                }
            },
            ConnectionMode::RestPolling => {
                if self.is_node_healthy(0) {
                    ConnectionMode::PrimaryWebSocket
                } else {
                    ConnectionMode::RestPolling
                }
            },
            ConnectionMode::Disconnected => ConnectionMode::PrimaryWebSocket,
        }
    }

    /// Execute the failover transition
    fn execute_failover(
        &mut self,
        from: ConnectionMode,
        to: ConnectionMode,
        reason: FailoverReason,
        now_ns: u64,
        latency_us: u64,
    )
        requires
            old(self).wf(),
            to != ConnectionMode::Disconnected,
            to matches ConnectionMode::BackupWebSocket(n) ==> n < usize::MAX,
        ensures
            final(self).wf(),
            final(self).current_mode == to,
            final(self).desync_count == 0,
            final(self).rest_failures == (if to == ConnectionMode::RestPolling {
                old(self).rest_failures
            } else {
                0
            }),
            final(self).failover_history@ == remembered(
                old(self).failover_history@,
                FailoverEvent {
                    from_mode: from,
                    to_mode: to,
                    reason,
                    timestamp_ns: now_ns,
                    latency_us,
                },
            ),
            final(self).same_links(old(self)),
            final(self).expected_sequence == old(self).expected_sequence,
            final(self).is_failing_over == old(self).is_failing_over,
            final(self).last_message_ns == old(self).last_message_ns,
            final(self).total_failovers == old(self).total_failovers,
    {
        self.current_mode = to;
        match to {
            ConnectionMode::PrimaryWebSocket => {
                self.desync_count = 0;
                self.rest_failures = 0;
            },
            ConnectionMode::BackupWebSocket(_) => {
                self.desync_count = 0;
                self.rest_failures = 0;
            },
            ConnectionMode::RestPolling => {
                self.desync_count = 0;
            },
            ConnectionMode::Disconnected => {},
        }
        let event: FailoverEvent = FailoverEvent {
            from_mode: from,
            to_mode: to,
            reason,
            timestamp_ns: now_ns,
            latency_us,
        };
        self.failover_history.push(event);
        if self.failover_history.len() > MAX_HISTORY {
            let _ = self.failover_history.remove(0);
        }
        assert(self.failover_history@ =~= remembered(old(self).failover_history@, event));
    }

    /// Check if a backup node is healthy
    fn is_node_healthy(&self, node_index: usize) -> (r: bool)
        ensures
            r == node_usable(self.node_health@, node_index as int),
    {
        if node_index < self.node_health.len() {
            self.node_health[node_index].is_healthy
                && self.node_health[node_index].consecutive_failures < NODE_FAILURE_LIMIT
        } else {
            false
        }
    }

    /// Record REST API success
    pub fn record_rest_success(&mut self)
        requires
            old(self).wf(),
        ensures
            final(self).wf(),
            final(self).rest_failures == 0,
            final(self).node_health.len() == old(self).node_health.len(),
            forall|i: int|
                0 <= i < old(self).node_health.len() ==> {
                    let b = old(self).node_health@[i];
                    let a = #[trigger] final(self).node_health@[i];
                    &&& a.consecutive_failures == math::max_int(b.consecutive_failures - 1, 0)
                    &&& a.endpoint == b.endpoint
                    &&& a.is_healthy == b.is_healthy
                    &&& a.last_check_ns == b.last_check_ns
                },
            final(self).current_mode == old(self).current_mode,
            final(self).config == old(self).config,
            final(self).expected_sequence == old(self).expected_sequence,
            final(self).desync_count == old(self).desync_count,
            final(self).is_failing_over == old(self).is_failing_over,
            final(self).last_message_ns == old(self).last_message_ns,
            final(self).failover_history == old(self).failover_history,
            final(self).total_failovers == old(self).total_failovers,
    {
        self.rest_failures = 0;
        let n: usize = self.node_health.len();
        let ghost nodes = self.node_health@;
        let mut i: usize = 0;
        while i < n
            invariant
                i <= n,
                n == nodes.len(),
                self.node_health.len() == n,
                forall|k: int|
                    0 <= k < i ==> {
                        let a = #[trigger] self.node_health@[k];
                        &&& a.consecutive_failures == math::max_int(
                            nodes[k].consecutive_failures - 1,
                            0,
                        )
                        &&& a.endpoint == nodes[k].endpoint
                        &&& a.is_healthy == nodes[k].is_healthy
                        &&& a.last_check_ns == nodes[k].last_check_ns
                    },
                forall|k: int| i <= k < n ==> #[trigger] self.node_health@[k] == nodes[k],
                self.rest_failures == 0,
                self.current_mode == old(self).current_mode,
                self.config == old(self).config,
                self.expected_sequence == old(self).expected_sequence,
                self.desync_count == old(self).desync_count,
                self.is_failing_over == old(self).is_failing_over,
                self.last_message_ns == old(self).last_message_ns,
                self.failover_history == old(self).failover_history,
                self.total_failovers == old(self).total_failovers,
            decreases n - i,
        {
            let fewer: u64 = self.node_health[i].consecutive_failures.saturating_sub(1);
            self.node_health[i].consecutive_failures = fewer;
            i = i + 1;
        }
    }

    /// Record REST API failure
    pub fn record_rest_failure(&mut self) -> (r: Result<(), FailoverReason>)
        requires
            old(self).wf(),
        ensures
            final(self).wf(),
            final(self).rest_failures == old(self).rest_failures.wrapping_add(1),
            ({
                let exhausted = final(self).rest_failures >= old(self).config.max_rest_failures;
                &&& r == (if exhausted {
                    Err::<(), FailoverReason>(FailoverReason::RestFailuresExhausted)
                } else {
                    Ok(())
                })
                &&& final(self).current_mode == (if exhausted {
                    ConnectionMode::Disconnected
                } else {
                    old(self).current_mode
                })
            }),
            final(self).same_links(old(self)),
            final(self).expected_sequence == old(self).expected_sequence,
            final(self).desync_count == old(self).desync_count,
            final(self).is_failing_over == old(self).is_failing_over,
            final(self).last_message_ns == old(self).last_message_ns,
            final(self).failover_history == old(self).failover_history,
            final(self).total_failovers == old(self).total_failovers,
    {
        self.rest_failures = self.rest_failures.wrapping_add(1);
        if self.rest_failures >= self.config.max_rest_failures {
            self.current_mode = ConnectionMode::Disconnected;
            return Err(FailoverReason::RestFailuresExhausted);
        }
        Ok(())
    }

    /// No message arrived for more than three check intervals.
    pub open spec fn is_silent(&self, now_ns: u64) -> bool {
        (now_ns - self.last_message_ns) / 1_000_000 > self.config.health_check_interval_ms * 3
    }

    /// Perform single health check
    pub fn perform_health_check(&mut self, now_ns: u64, latency_us: u64)
        requires
            old(self).wf(),
            old(self).last_message_ns <= now_ns,
        ensures
            final(self).wf(),
            final(self).config == old(self).config,
            final(self).expected_sequence == old(self).expected_sequence,
            final(self).last_message_ns == old(self).last_message_ns,
            final(self).is_failing_over == old(self).is_failing_over,
            final(self).node_health.len() == old(self).node_health.len(),
            forall|i: int|
                0 <= i < old(self).node_health.len() ==> {
                    let a = #[trigger] final(self).node_health@[i];
                    &&& a.last_check_ns == now_ns
                    &&& a.endpoint == old(self).node_health@[i].endpoint
                    &&& a.is_healthy == old(self).node_health@[i].is_healthy
                    &&& a.consecutive_failures == old(self).node_health@[i].consecutive_failures
                },
            ({
                let to = next_mode(old(self).node_health@, old(self).current_mode);
                if old(self).is_silent(now_ns) && old(self).current_mode
                    != ConnectionMode::Disconnected && !old(self).is_failing_over && to != old(self).current_mode {
                    &&& final(self).current_mode == to
                    &&& final(self).desync_count == 0
                    &&& final(self).rest_failures == (if to == ConnectionMode::RestPolling {
                        old(self).rest_failures
                    } else {
                        0
                    })
                    &&& final(self).total_failovers == old(self).total_failovers.wrapping_add(1)
                    &&& final(self).failover_history@ == remembered(
                        old(self).failover_history@,
                        FailoverEvent {
                            from_mode: old(self).current_mode,
                            to_mode: to,
                            reason: FailoverReason::HealthCheckFailed,
                            timestamp_ns: now_ns,
                            latency_us,
                        },
                    )
                } else {
                    &&& final(self).current_mode == old(self).current_mode
                    &&& final(self).desync_count == old(self).desync_count
                    &&& final(self).rest_failures == old(self).rest_failures
                    &&& final(self).total_failovers == old(self).total_failovers
                    &&& final(self).failover_history == old(self).failover_history
                }
            }),
    {
        let elapsed_ms: u64 = (now_ns - self.last_message_ns) / 1_000_000;
        if elapsed_ms as u128 > (self.config.health_check_interval_ms as u128) * 3 {
            if self.current_mode != ConnectionMode::Disconnected {
                let _ = self.trigger_failover(
                    FailoverReason::HealthCheckFailed,
                    now_ns,
                    latency_us,
                );
            }
        }
        let ghost mid = *self;
        let n: usize = self.node_health.len();
        let ghost nodes = self.node_health@;
        let mut i: usize = 0;
        while i < n
            invariant
                i <= n,
                n == nodes.len(),
                self.node_health.len() == n,
                forall|k: int|
                    0 <= k < i ==> {
                        let a = #[trigger] self.node_health@[k];
                        &&& a.last_check_ns == now_ns
                        &&& a.endpoint == nodes[k].endpoint
                        &&& a.is_healthy == nodes[k].is_healthy
                        &&& a.consecutive_failures == nodes[k].consecutive_failures
                    },
                forall|k: int| i <= k < n ==> #[trigger] self.node_health@[k] == nodes[k],
                self.current_mode == mid.current_mode,
                self.config == mid.config,
                self.expected_sequence == mid.expected_sequence,
                self.desync_count == mid.desync_count,
                self.rest_failures == mid.rest_failures,
                self.is_failing_over == mid.is_failing_over,
                self.last_message_ns == mid.last_message_ns,
                self.failover_history == mid.failover_history,
                self.total_failovers == mid.total_failovers,
            decreases n - i,
        {
            self.node_health[i].last_check_ns = now_ns;
            i = i + 1;
        }
    }

    fn count_last_hour(&self, now_ns: u64) -> (r: usize)
        ensures
            r == failovers_within(self.failover_history@, now_ns),
    {
        let mut count: usize = 0;
        let mut i: usize = 0;
        assert(self.failover_history@.subrange(0, 0) =~= Seq::<FailoverEvent>::empty());
        while i < self.failover_history.len()
            invariant
                i <= self.failover_history.len(),
                count <= i,
                count == failovers_within(self.failover_history@.subrange(0, i as int), now_ns),
            decreases self.failover_history.len() - i,
        {
            proof {
                let next = self.failover_history@.subrange(0, i + 1);
                assert(next.drop_last() =~= self.failover_history@.subrange(0, i as int));
                assert(next.last() == self.failover_history@[i as int]);
            }
            if now_ns.saturating_sub(self.failover_history[i].timestamp_ns) < STATS_HOUR_NS {
                count = count + 1;
            }
            i = i + 1;
        }
        assert(self.failover_history@.subrange(0, i as int) =~= self.failover_history@);
        count
    }

    /// Get failover statistics at a time
    pub fn get_stats(&self, now_ns: u64) -> (r: FailoverStats)
        ensures
            r.current_mode == self.current_mode,
            r.total_failovers == self.total_failovers,
            r.failover_count_last_hour == failovers_within(self.failover_history@, now_ns),
            r.healthy_nodes == healthy_count(self.node_health@),
            r.total_nodes == self.node_health.len(),
            r.rest_failures == self.rest_failures,
            r.desync_count == self.desync_count,
    {
        let mut healthy: usize = 0;
        let mut i: usize = 0;
        proof {
            assert(self.node_health@.subrange(0, 0) =~= Seq::<NodeHealth>::empty());
        }
        while i < self.node_health.len()
            invariant
                i <= self.node_health.len(),
                healthy <= i,
                healthy == healthy_count(self.node_health@.subrange(0, i as int)),
            decreases self.node_health.len() - i,
        {
            proof {
                let next = self.node_health@.subrange(0, i + 1);
                assert(next.drop_last() =~= self.node_health@.subrange(0, i as int));
                assert(next.last() == self.node_health@[i as int]);
            }
            if self.node_health[i].is_healthy {
                healthy = healthy + 1;
            }
            i = i + 1;
        }
        proof {
            assert(self.node_health@.subrange(0, i as int) =~= self.node_health@);
        }
        FailoverStats {
            current_mode: self.current_mode,
            total_failovers: self.total_failovers,
            failover_count_last_hour: self.count_last_hour(now_ns),
            healthy_nodes: healthy,
            total_nodes: self.node_health.len(),
            rest_failures: self.rest_failures,
            desync_count: self.desync_count,
        }
    }

    /// Reset router state
    pub fn reset(&mut self)
        requires
            old(self).wf(),
        ensures
            final(self).wf(),
            final(self).expected_sequence == 0,
            final(self).desync_count == 0,
            final(self).rest_failures == 0,
            !final(self).is_failing_over,
            final(self).failover_history.len() == 0,
            final(self).current_mode == old(self).current_mode,
            final(self).same_links(old(self)),
            final(self).last_message_ns == old(self).last_message_ns,
            final(self).total_failovers == old(self).total_failovers,
    {
        self.expected_sequence = 0;
        self.desync_count = 0;
        self.rest_failures = 0;
        self.is_failing_over = false;
        self.failover_history.clear();
    }
}

impl Default for FailoverRouter {
    fn default() -> (r: Self)
        ensures
            r.is_initial(FailoverConfig::standard()),
    {
        FailoverRouter::new()
    }
}

/// A failover never ends in a disconnected state, and stays where it is only
/// while polling with the first node down.
pub proof fn law_failover_moves_on(nodes: Seq<NodeHealth>, current: ConnectionMode)
    ensures
        next_mode(nodes, current) != ConnectionMode::Disconnected,
        next_mode(nodes, current) == current <==> (current == ConnectionMode::RestPolling
            && !node_usable(nodes, 0)),
{
}

/// A failover leads to a backup only where that backup can be used.
pub proof fn law_backup_is_usable(nodes: Seq<NodeHealth>, current: ConnectionMode)
    ensures
        next_mode(nodes, current) matches ConnectionMode::BackupWebSocket(n) ==> node_usable(
            nodes,
            n as int,
        ) && n < NUM_BACKUP_NODES,
{
}

/// A node can be used while it is healthy and has failed fewer than three times
/// in a row.
pub proof fn law_node_usable(nodes: Seq<NodeHealth>, i: int)
    ensures
        node_usable(nodes, i) <==> 0 <= i < nodes.len() && nodes[i].is_healthy
            && nodes[i].consecutive_failures <= 2,
{
}

/// From the primary connection the router goes to the first of two backups that
/// can be used, from a backup to the next of three, and to polling where there
/// is none; from polling it returns to the primary connection once the first
/// node can be used, and it begins with the primary connection.
pub proof fn law_failover_order(nodes: Seq<NodeHealth>, n: usize)
    requires
        n < usize::MAX,
    ensures
        ({
            let from = |m: ConnectionMode| next_mode(nodes, m);
            let up = |i: int| node_usable(nodes, i);
            &&& up(0) ==> from(ConnectionMode::PrimaryWebSocket) == ConnectionMode::BackupWebSocket(
                0,
            )
            &&& !up(0) && up(1) ==> from(ConnectionMode::PrimaryWebSocket)
                == ConnectionMode::BackupWebSocket(1)
            &&& !up(0) && !up(1) ==> from(ConnectionMode::PrimaryWebSocket)
                == ConnectionMode::RestPolling
            &&& n < 2 && up(n + 1) ==> from(ConnectionMode::BackupWebSocket(n))
                == ConnectionMode::BackupWebSocket((n + 1) as usize)
            &&& n >= 2 || !up(n + 1) ==> from(ConnectionMode::BackupWebSocket(n))
                == ConnectionMode::RestPolling
            &&& up(0) ==> from(ConnectionMode::RestPolling) == ConnectionMode::PrimaryWebSocket
            &&& !up(0) ==> from(ConnectionMode::RestPolling) == ConnectionMode::RestPolling
            &&& from(ConnectionMode::Disconnected) == ConnectionMode::PrimaryWebSocket
        }),
{
}

/// The history takes every failover at its end and keeps the newest hundred.
pub proof fn law_history_keeps_newest(history: Seq<FailoverEvent>, event: FailoverEvent)
    requires
        history.len() <= 100,
    ensures
        remembered(history, event).last() == event,
        history.len() < 100 ==> remembered(history, event).drop_last() == history,
        history.len() == 100 ==> remembered(history, event).drop_last() == history.subrange(1, 100),
{
    if history.len() < 100 {
        assert(remembered(history, event).drop_last() =~= history);
    } else {
        assert(remembered(history, event).drop_last() =~= history.subrange(1, 100));
    }
}

/// Healthy nodes count once each.
pub proof fn law_healthy_nodes_count(s: Seq<NodeHealth>, n: NodeHealth)
    ensures
        healthy_count(s.push(n)) == healthy_count(s) + (if n.is_healthy {
            1nat
        } else {
            0
        }),
        healthy_count(Seq::<NodeHealth>::empty()) == 0,
{
    assert(s.push(n).drop_last() =~= s);
}

/// Failovers less than an hour back count once each.
pub proof fn law_failovers_of_the_hour(s: Seq<FailoverEvent>, e: FailoverEvent, now_ns: u64)
    ensures
        failovers_within(s.push(e), now_ns) == failovers_within(s, now_ns) + (if now_ns
            < e.timestamp_ns + 3_600_000_000_000 {
            1nat
        } else {
            0
        }),
        failovers_within(Seq::<FailoverEvent>::empty(), now_ns) == 0,
{
    assert(s.push(e).drop_last() =~= s);
}

/// Once a sequence is known, a message skips where it leaves out at least one
/// number, and the router gives up where that has happened as often in a row as
/// is allowed.
pub proof fn law_skipped_numbers(r: FailoverRouter, sequence: u64)
    requires
        r.desync_count < u64::MAX,
    ensures
        r.skips(sequence) <==> r.expected_sequence > 0 && sequence - r.expected_sequence >= 2,
        r.gives_up_on(sequence) <==> r.skips(sequence) && r.desync_count + 1
            >= r.config.desync_threshold,
{
}

/// A connection is silent once more than three check intervals have passed, in
/// whole milliseconds.
pub proof fn law_silence_is_three_intervals(r: FailoverRouter, now_ns: u64)
    requires
        r.last_message_ns <= now_ns,
    ensures
        r.is_silent(now_ns) <==> now_ns - r.last_message_ns >= (3 * r.config.health_check_interval_ms
            + 1) * 1_000_000,
{
}

/// The standard settings: checks twice a second, polls ten times a second, up
/// to five desyncs and ten failed polls, and five seconds of foresight.
pub proof fn law_standard_settings()
    ensures
        ({
            let c = FailoverConfig::standard();
            &&& c.health_check_interval_ms == 500
            &&& c.rest_poll_interval_ms == 100
            &&& c.desync_threshold == 5
            &&& c.max_rest_failures == 10
            &&& c.enable_predictive_failover
            &&& c.degradation_threshold_ms == 5000
        }),
{
}

} // verus!
