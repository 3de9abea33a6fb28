//! Round-trip times of an exchange connection and what they say of its health.
use crate::math;
use crate::math::{magnitude, Ratio};
use std::collections::VecDeque;
use vstd::prelude::*;

verus! {

/// Default heartbeat interval (milliseconds)
pub const DEFAULT_HEARTBEAT_INTERVAL_MS: u64 = 1000;

/// Round trips above this many times the baseline degrade the connection
pub const WARNING_MULTIPLIER: u64 = 2;

/// Round trips above this many times the baseline are critical
pub const CRITICAL_MULTIPLIER: u64 = 5;

/// Number of recent samples kept
pub const MAX_SAMPLES: usize = 50;

/// Samples needed before a trend is read
pub const DEGRADATION_WINDOW: usize = 10;

/// Pings remembered as unanswered
pub const MAX_PENDING: usize = 100;

/// Round trips stay below this many microseconds (more than an hour), so that
/// their squares fit the running sum.
pub const RTT_LIMIT_US: u64 = 0x1_0000_0000;

/// The moving average counts in this part of a microsecond.
pub const AVERAGE_SCALE: u64 = 1_000_000;

/// Samples over which the moving average is taken
pub const AVERAGE_SAMPLES: u64 = 50;

/// Single heartbeat measurement
#[derive(Debug, Clone, Copy, PartialEq, Eq, Structural)]
pub struct HeartbeatSample {
    /// Send timestamp (nanoseconds)
    pub send_ts_ns: u64,
    /// Receive timestamp (nanoseconds)
    pub recv_ts_ns: u64,
    /// Round-trip time (microseconds)
    pub rtt_us: u64,
    /// Sequence number
    pub sequence: u64,
}

impl HeartbeatSample {
    /// Calculate RTT in microseconds
    pub fn calculate_rtt_us(send_ns: u64, recv_ns: u64) -> (r: u64)
        requires
            send_ns <= recv_ns,
        ensures
            r == (recv_ns - send_ns) / 1000,
    {
        (recv_ns - send_ns) / 1000
    }
}

/// Connection health status
#[derive(Debug, Clone, Copy, PartialEq, Eq, Structural)]
pub enum ConnectionHealth {
    Healthy,
    Degraded,
    Critical,
    Disconnected,
}

/// A quotient in the wide type.
#[derive(Debug, Clone, Copy, PartialEq, Eq, Structural)]
pub struct WideRatio {
    pub num: i128,
    pub den: u128,
}

/// Heartbeat statistics snapshot. Averages and shares are unreduced quotients;
/// the standard deviation is the square root of `variance`.
#[derive(Debug, Clone, Copy, PartialEq, Eq, Structural)]
pub struct HeartbeatStats {
    /// Current RTT (microseconds)
    pub current_rtt_us: u64,
    /// Moving average of the RTTs (microseconds)
    pub avg_rtt_us: Ratio,
    /// Minimum RTT observed (microseconds)
    pub min_rtt_us: u64,
    /// Maximum RTT observed (microseconds)
    pub max_rtt_us: u64,
    /// Sample variance of the recent RTTs
    pub variance: WideRatio,
    /// Average change between neighbouring RTTs (microseconds)
    pub jitter_us: Ratio,
    pub packets_sent: u64,
    pub packets_received: u64,
    /// Lost packets over packets sent
    pub packet_loss: Ratio,
    pub health: ConnectionHealth,
    /// Relative change from the first half of the samples to the second
    pub trend: WideRatio,
    /// Estimated milliseconds to degradation (nothing if not degrading)
    pub time_to_degradation_ms: WideRatio,
}

/// The moving average after one more round trip, in parts of a microsecond,
/// rounded down: the first round trip itself, then each new one with a weight of
/// two over one more than the number of samples averaged.
pub open spec fn smoothed(average: Option<u64>, rtt_us: u64) -> u64 {
    match average {
        None => (rtt_us * AVERAGE_SCALE) as u64,
        Some(a) => ((2 * (rtt_us * AVERAGE_SCALE) + (AVERAGE_SAMPLES - 1) * a) / (
        AVERAGE_SAMPLES + 1)) as u64,
    }
}

/// Lost packets over packets sent; nothing is lost where more came back.
pub open spec fn loss_of(sent: u64, received: u64) -> Ratio {
    if sent > 0 {
        Ratio { num: math::max_int(sent - received, 0) as u64, den: sent }
    } else {
        Ratio { num: 0, den: 1 }
    }
}

pub open spec fn ints(s: Seq<u64>) -> Seq<int> {
    s.map_values(|x: u64| x as int)
}

pub open spec fn squares(s: Seq<u64>) -> Seq<int> {
    s.map_values(|x: u64| x * x)
}

/// Each value times its position.
pub open spec fn indexed(s: Seq<u64>) -> Seq<int> {
    Seq::new(s.len(), |i: int| i * s[i])
}

/// The magnitudes of the steps between neighbours.
pub open spec fn steps(s: Seq<u64>) -> Seq<int> {
    if s.len() == 0 {
        Seq::empty()
    } else {
        Seq::new((s.len() - 1) as nat, |i: int| math::abs_int(s[i + 1] - s[i]))
    }
}

pub open spec fn small(s: Seq<u64>) -> bool {
    s.len() <= MAX_SAMPLES && forall|i: int| 0 <= i < s.len() ==> #[trigger] s[i] < RTT_LIMIT_US
}

/// A sequence with one more value at the end and at most `limit` values.
pub open spec fn shifted(s: Seq<u64>, x: u64, limit: int) -> Seq<u64> {
    let t = s.push(x);
    if t.len() > limit {
        t.subrange(1, t.len() as int)
    } else {
        t
    }
}

/// A sequence without the first occurrence of a value.
pub open spec fn without(s: Seq<u64>, x: u64) -> Seq<u64>
    decreases s.len(),
{
    if s.len() == 0 {
        s
    } else if s[0] == x {
        s.subrange(1, s.len() as int)
    } else {
        seq![s[0]] + without(s.subrange(1, s.len() as int), x)
    }
}

proof fn lemma_without_absent(s: Seq<u64>, x: u64)
    requires
        forall|i: int| 0 <= i < s.len() ==> #[trigger] s[i] != x,
    ensures
        without(s, x) == s,
    decreases s.len(),
{
    if s.len() > 0 {
        let t = s.subrange(1, s.len() as int);
        assert forall|i: int| 0 <= i < t.len() implies #[trigger] t[i] != x by {
            assert(t[i] == s[i + 1]);
        }
        lemma_without_absent(t, x);
        assert(seq![s[0]] + t =~= s);
    }
}

proof fn lemma_without_at(s: Seq<u64>, x: u64, p: int)
    requires
        0 <= p < s.len(),
        s[p] == x,
        forall|i: int| 0 <= i < p ==> #[trigger] s[i] != x,
    ensures
        without(s, x) == s.remove(p),
    decreases p,
{
    if p == 0 {
        assert(s.subrange(1, s.len() as int) =~= s.remove(0));
    } else {
        assert(s[0] != x);
        let t = s.subrange(1, s.len() as int);
        assert forall|i: int| 0 <= i < p - 1 implies #[trigger] t[i] != x by {
            assert(t[i] == s[i + 1]);
        }
        lemma_without_at(t, x, p - 1);
        assert(seq![s[0]] + t.remove(p - 1) =~= s.remove(p));
    }
}

/// How many times over the baseline the current round trip lies.
pub open spec fn health_of(baseline: u64, current: u64) -> ConnectionHealth {
    if baseline == 0 {
        ConnectionHealth::Disconnected
    } else if current > baseline * CRITICAL_MULTIPLIER {
        ConnectionHealth::Critical
    } else if current > baseline * WARNING_MULTIPLIER {
        ConnectionHealth::Degraded
    } else {
        ConnectionHealth::Healthy
    }
}

/// Numerator and denominator of the least-squares slope of the samples over
/// their positions.
pub open spec fn slope(s: Seq<u64>) -> (int, int) {
    let n = s.len() as int;
    let sx = math::sum_of(Seq::new(s.len(), |i: int| i));
    let sxx = math::sum_of(Seq::new(s.len(), |i: int| i * i));
    (
        n * math::sum_of(indexed(s)) - sx * math::sum_of(ints(s)),
        n * sxx - sx * sx,
    )
}

/// Milliseconds until the trend of the samples reaches the warning level:
/// none without enough samples or a rising trend, nothing where it is there
/// already.
pub open spec fn degradation_of(s: Seq<u64>, baseline: u64, interval_ms: u64) -> Option<(int, int)> {
    let (num, den) = slope(s);
    if s.len() < DEGRADATION_WINDOW || num <= 0 {
        None
    } else if WARNING_MULTIPLIER * baseline <= s.last() {
        Some((0, 1))
    } else {
        Some(((WARNING_MULTIPLIER * baseline - s.last()) * den * interval_ms, num))
    }
}

/// Relative change of the average from the first half to the second, the
/// first half's average counted as at least one.
pub open spec fn trend_of(s: Seq<u64>) -> (int, int) {
    if s.len() <= 1 {
        (0, 1)
    } else {
        let h = s.len() as int / 2;
        let k = s.len() - h;
        let a = math::sum_of(ints(s.subrange(0, h)));
        let b = math::sum_of(ints(s.subrange(h, s.len() as int)));
        (b * h - a * k, k * math::max_int(a, h))
    }
}

/// Sample variance as a quotient of integers.
pub open spec fn variance_of(s: Seq<u64>) -> (int, int) {
    let n = s.len() as int;
    if n <= 1 {
        (0, 1)
    } else {
        (
            n * math::sum_of(squares(s)) - math::sum_of(ints(s)) * math::sum_of(ints(s)),
            n * (n - 1),
        )
    }
}

/// Heartbeat Tracker for connection monitoring
pub struct HeartbeatTracker {
    /// Heartbeat interval (milliseconds)
    pub interval_ms: u64,
    /// Current sequence number
    pub sequence: u64,
    /// Is tracking active
    pub is_active: bool,
    /// Last send timestamp
    pub last_send_ns: u64,
    /// Last receive timestamp
    pub last_recv_ns: u64,
    /// Pending ping sequences (for detecting lost pings)
    pub pending_pings: VecDeque<u64>,
    /// Recent RTT samples (microseconds)
    pub rtt_samples: VecDeque<u64>,
    /// Moving average of the RTTs, in parts of a microsecond
    pub rtt_ema: Option<u64>,
    /// Baseline RTT for comparison (microseconds)
    pub baseline_rtt_us: u64,
    pub packets_sent: u64,
    pub packets_received: u64,
    pub min_rtt_us: u64,
    pub max_rtt_us: u64,
    /// Sums over all round trips
    pub rtt_sum: u64,
    pub rtt_sum_sq: u64,
}

impl HeartbeatTracker {
    pub open spec fn wf(&self) -> bool {
        &&& small(self.rtt_samples@)
        &&& self.pending_pings.len() <= MAX_PENDING
        &&& self.baseline_rtt_us < RTT_LIMIT_US
        &&& self.rtt_ema is Some <==> self.rtt_samples@.len() > 0
        &&& self.rtt_ema matches Some(a) ==> a <= RTT_LIMIT_US * AVERAGE_SCALE
        &&& if self.rtt_samples@.len() == 0 {
            self.min_rtt_us == u64::MAX && self.max_rtt_us == 0
        } else {
            self.min_rtt_us <= self.max_rtt_us < RTT_LIMIT_US
        }
    }

    /// The smallest round trip, nothing before the first.
    pub open spec fn reported_min(&self) -> u64 {
        if self.min_rtt_us == u64::MAX {
            0
        } else {
            self.min_rtt_us
        }
    }

    /// The moving average, nothing before the first round trip.
    pub open spec fn average(&self) -> Ratio {
        Ratio {
            num: match self.rtt_ema {
                Some(a) => a,
                None => 0,
            },
            den: AVERAGE_SCALE,
        }
    }

    /// The health that the statistics show: what the round trips say, where
    /// packets went and came.
    pub open spec fn reported_health(&self) -> ConnectionHealth {
        let rated = health_of(self.baseline_rtt_us, self.current_rtt());
        if rated == ConnectionHealth::Critical || rated == ConnectionHealth::Degraded {
            rated
        } else if self.packets_sent == 0 || self.packets_received == 0 {
            ConnectionHealth::Disconnected
        } else {
            ConnectionHealth::Healthy
        }
    }

    pub open spec fn is_initial(&self, interval_ms: u64) -> bool {
        &&& self.wf()
        &&& self.interval_ms == interval_ms
        &&& !self.is_active
        &&& self.is_cleared()
    }

    /// No ping has been sent and nothing has been measured.
    pub open spec fn is_cleared(&self) -> bool {
        &&& self.sequence == 0
        &&& self.last_send_ns == 0
        &&& self.last_recv_ns == 0
        &&& self.pending_pings@ == Seq::<u64>::empty()
        &&& self.rtt_samples@ == Seq::<u64>::empty()
        &&& self.rtt_ema is None
        &&& self.baseline_rtt_us == 0
        &&& self.packets_sent == 0
        &&& self.packets_received == 0
        &&& self.min_rtt_us == u64::MAX
        &&& self.max_rtt_us == 0
        &&& self.rtt_sum == 0
        &&& self.rtt_sum_sq == 0
    }

    /// Create new heartbeat tracker with default interval
    pub fn new() -> (r: Self)
        ensures
            r.is_initial(DEFAULT_HEARTBEAT_INTERVAL_MS),
    {
        Self::with_interval(DEFAULT_HEARTBEAT_INTERVAL_MS)
    }

    /// Create new heartbeat tracker with custom interval
    pub fn with_interval(interval_ms: u64) -> (r: Self)
        ensures
            r.is_initial(interval_ms),
    {
        HeartbeatTracker {
            interval_ms,
            sequence: 0,
            is_active: false,
            last_send_ns: 0,
            last_recv_ns: 0,
            pending_pings: VecDeque::with_capacity(MAX_PENDING),
            rtt_samples: VecDeque::with_capacity(MAX_SAMPLES),
            rtt_ema: None,
            baseline_rtt_us: 0,
            packets_sent: 0,
            packets_received: 0,
            min_rtt_us: u64::MAX,
            max_rtt_us: 0,
            rtt_sum: 0,
            rtt_sum_sq: 0,
        }
    }

    /// Start heartbeat tracking
    pub fn start(&mut self)
        ensures
            *final(self) == (HeartbeatTracker { is_active: true, ..*old(self) }),
    {
        self.is_active = true;
    }

    /// Stop heartbeat tracking
    pub fn stop(&mut self)
        ensures
            *final(self) == (HeartbeatTracker { is_active: false, ..*old(self) }),
    {
        self.is_active = false;
    }

    /// Check if tracking is active
    pub fn is_active(&self) -> (r: bool)
        ensures
            r == self.is_active,
    {
        self.is_active
    }

    /// Record ping send event
    pub fn record_ping_sent(&mut self, now_ns: u64) -> (seq: u64)
        requires
            old(self).wf(),
        ensures
            final(self).wf(),
            seq == old(self).sequence,
            final(self).sequence == old(self).sequence.wrapping_add(1),
            final(self).last_send_ns == now_ns,
            final(self).packets_sent == old(self).packets_sent.wrapping_add(1),
            final(self).pending_pings@ == shifted(
                old(self).pending_pings@,
                seq,
                MAX_PENDING as int,
            ),
            final(self).interval_ms == old(self).interval_ms,
            final(self).is_active == old(self).is_active,
            final(self).last_recv_ns == old(self).last_recv_ns,
            final(self).rtt_samples == old(self).rtt_samples,
            final(self).rtt_ema == old(self).rtt_ema,
            final(self).baseline_rtt_us == old(self).baseline_rtt_us,
            final(self).packets_received == old(self).packets_received,
            final(self).min_rtt_us == old(self).min_rtt_us,
            final(self).max_rtt_us == old(self).max_rtt_us,
            final(self).rtt_sum == old(self).rtt_sum,
            final(self).rtt_sum_sq == old(self).rtt_sum_sq,
    {
        let seq: u64 = self.sequence;
        self.sequence = self.sequence.wrapping_add(1);
        self.last_send_ns = now_ns;
        self.packets_sent = self.packets_sent.wrapping_add(1);
        self.pending_pings.push_back(seq);
        if self.pending_pings.len() > MAX_PENDING {
            let _ = self.pending_pings.pop_front();
        }
        assert(self.pending_pings@ =~= shifted(old(self).pending_pings@, seq, MAX_PENDING as int));
        seq
    }

    /// Record pong receive event
    pub fn record_pong_received(&mut self, seq: u64, now_ns: u64) -> (r: Option<HeartbeatSample>)
        requires
            old(self).wf(),
            old(self).last_send_ns != 0 ==> old(self).last_send_ns <= now_ns && (now_ns - old(self).last_send_ns) / 1000 < RTT_LIMIT_US,
        ensures
            final(self).wf(),
            if old(self).last_send_ns == 0 {
                r is None && *final(self) == *old(self)
            } else {
                let rtt = ((now_ns - old(self).last_send_ns) / 1000) as u64;
                &&& r == Some(
                    HeartbeatSample {
                        send_ts_ns: old(self).last_send_ns,
                        recv_ts_ns: now_ns,
                        rtt_us: rtt,
                        sequence: seq,
                    },
                )
                &&& final(self).pending_pings@ == without(old(self).pending_pings@, seq)
                &&& final(self).last_recv_ns == now_ns
                &&& final(self).packets_received == old(self).packets_received.wrapping_add(1)
                &&& final(self).rtt_samples@ == shifted(
                    old(self).rtt_samples@,
                    rtt,
                    MAX_SAMPLES as int,
                )
                &&& final(self).rtt_ema == Some(smoothed(old(self).rtt_ema, rtt))
                &&& final(self).baseline_rtt_us == (if old(self).baseline_rtt_us == 0 {
                    rtt
                } else {
                    old(self).baseline_rtt_us
                })
                &&& final(self).min_rtt_us == math::min_int(
                    old(self).min_rtt_us as int,
                    rtt as int,
                )
                &&& final(self).max_rtt_us == math::max_int(
                    old(self).max_rtt_us as int,
                    rtt as int,
                )
                &&& final(self).rtt_sum == old(self).rtt_sum.wrapping_add(rtt)
                &&& final(self).rtt_sum_sq == old(self).rtt_sum_sq.wrapping_add((rtt * rtt) as u64)
                &&& final(self).interval_ms == old(self).interval_ms
                &&& final(self).sequence == old(self).sequence
                &&& final(self).is_active == old(self).is_active
                &&& final(self).last_send_ns == old(self).last_send_ns
                &&& final(self).packets_sent == old(self).packets_sent
            },
    {
        let send_ns: u64 = self.last_send_ns;
        if send_ns == 0 {
            return None;
        }
        self.forget_ping(seq);
        self.last_recv_ns = now_ns;
        self.packets_received = self.packets_received.wrapping_add(1);
        let rtt_us: u64 = HeartbeatSample::calculate_rtt_us(send_ns, now_ns);
        self.update_rtt_stats(rtt_us);
        Some(HeartbeatSample { send_ts_ns: send_ns, recv_ts_ns: now_ns, rtt_us, sequence: seq })
    }

    /// Removes a ping from those that wait for an answer.
    fn forget_ping(&mut self, seq: u64)
        requires
            old(self).wf(),
        ensures
            final(self).wf(),
            final(self).pending_pings@ == without(old(self).pending_pings@, seq),
            *final(self) == (HeartbeatTracker {
                pending_pings: final(self).pending_pings,
                ..*old(self)
            }),
    {
        let ghost all = self.pending_pings@;
        let mut i: usize = 0;
        while i < self.pending_pings.len() && self.pending_pings[i] != seq
            invariant
                i <= self.pending_pings.len(),
                *self == *old(self),
                self.pending_pings@ == all,
                forall|k: int| 0 <= k < i ==> #[trigger] all[k] != seq,
            decreases self.pending_pings.len() - i,
        {
            i = i + 1;
        }
        if i < self.pending_pings.len() {
            proof {
                lemma_without_at(all, seq, i as int);
            }
            let _ = self.pending_pings.remove(i);
            assert(self.pending_pings@ =~= all.remove(i as int));
        } else {
            proof {
                lemma_without_absent(all, seq);
            }
        }
    }

    /// Update RTT statistics
    fn update_rtt_stats(&mut self, rtt_us: u64)
        requires
            old(self).wf(),
            rtt_us < RTT_LIMIT_US,
        ensures
            final(self).wf(),
            final(self).rtt_samples@ == shifted(
                old(self).rtt_samples@,
                rtt_us,
                MAX_SAMPLES as int,
            ),
            *final(self) == (HeartbeatTracker {
                rtt_samples: final(self).rtt_samples,
                rtt_ema: Some(smoothed(old(self).rtt_ema, rtt_us)),
                min_rtt_us: math::min_int(old(self).min_rtt_us as int, rtt_us as int) as u64,
                max_rtt_us: math::max_int(old(self).max_rtt_us as int, rtt_us as int) as u64,
                rtt_sum: old(self).rtt_sum.wrapping_add(rtt_us),
                rtt_sum_sq: old(self).rtt_sum_sq.wrapping_add((rtt_us * rtt_us) as u64),
                baseline_rtt_us: if old(self).baseline_rtt_us == 0 {
                    rtt_us
                } else {
                    old(self).baseline_rtt_us
                },
                ..*old(self)
            }),
    {
        if rtt_us < self.min_rtt_us {
            self.min_rtt_us = rtt_us;
        }
        if rtt_us > self.max_rtt_us {
            self.max_rtt_us = rtt_us;
        }
        let sample: u64 = rtt_us * AVERAGE_SCALE;
        self.rtt_ema = match self.rtt_ema {
            None => Some(sample),
            Some(a) => Some((2 * sample + (AVERAGE_SAMPLES - 1) * a) / (AVERAGE_SAMPLES + 1)),
        };
        self.rtt_sum = self.rtt_sum.wrapping_add(rtt_us);
        assert(rtt_us * rtt_us <= u64::MAX) by (nonlinear_arith)
            requires
                0 <= rtt_us < 0x1_0000_0000,
        ;
        self.rtt_sum_sq = self.rtt_sum_sq.wrapping_add(rtt_us * rtt_us);
        self.rtt_samples.push_back(rtt_us);
        if self.rtt_samples.len() > MAX_SAMPLES {
            let _ = self.rtt_samples.pop_front();
        }
        assert(self.rtt_samples@ =~= shifted(old(self).rtt_samples@, rtt_us, MAX_SAMPLES as int));
        if self.baseline_rtt_us == 0 {
            self.baseline_rtt_us = rtt_us;
        }
    }

    /// The most recent sample, nothing before the first.
    pub open spec fn current_rtt(&self) -> u64 {
        if self.rtt_samples@.len() == 0 {
            0
        } else {
            self.rtt_samples@.last()
        }
    }

    /// Get current connection health status
    pub fn get_health(&self) -> (r: ConnectionHealth)
        requires
            self.wf(),
        ensures
            r == health_of(self.baseline_rtt_us, self.current_rtt()),
    {
        if self.baseline_rtt_us == 0 {
            return ConnectionHealth::Disconnected;
        }
        let current: u64 = self.get_current_rtt_us();
        if current > self.baseline_rtt_us * CRITICAL_MULTIPLIER {
            ConnectionHealth::Critical
        } else if current > self.baseline_rtt_us * WARNING_MULTIPLIER {
            ConnectionHealth::Degraded
        } else {
            ConnectionHealth::Healthy
        }
    }

    /// Get current RTT (most recent sample)
    pub fn get_current_rtt_us(&self) -> (r: u64)
        ensures
            r == self.current_rtt(),
    {
        if self.rtt_samples.len() == 0 {
            0
        } else {
            self.rtt_samples[self.rtt_samples.len() - 1]
        }
    }

    /// Get average RTT (exponential moving average)
    pub fn get_avg_rtt_us(&self) -> (r: Ratio)
        ensures
            r == self.average(),
    {
        Ratio {
            num: match self.rtt_ema {
                Some(a) => a,
                None => 0,
            },
            den: AVERAGE_SCALE,
        }
    }

    /// The recent samples as a vector.
    fn samples(&self) -> (r: Vec<u64>)
        ensures
            r@ == self.rtt_samples@,
    {
        let mut out: Vec<u64> = Vec::with_capacity(self.rtt_samples.len());
        let mut i: usize = 0;
        while i < self.rtt_samples.len()
            invariant
                i <= self.rtt_samples.len(),
                out@ == self.rtt_samples@.subrange(0, i as int),
            decreases self.rtt_samples.len() - i,
        {
            out.push(self.rtt_samples[i]);
            i = i + 1;
            assert(out@ =~= self.rtt_samples@.subrange(0, i as int));
        }
        assert(out@ =~= self.rtt_samples@);
        out
    }

    /// Predict time to degradation based on trend, in milliseconds as numerator
    /// and denominator.
    pub fn predict_degradation(&self) -> (r: Option<(u128, u128)>)
        requires
            self.wf(),
        ensures
            match r {
                Some((num, den)) => degradation_of(
                    self.rtt_samples@,
                    self.baseline_rtt_us,
                    self.interval_ms,
                ) == Some((num as int, den as int)) && den > 0,
                None => degradation_of(
                    self.rtt_samples@,
                    self.baseline_rtt_us,
                    self.interval_ms,
                ) is None,
            },
    {
        if self.rtt_samples.len() < DEGRADATION_WINDOW {
            return None;
        }
        let samples: Vec<u64> = self.samples();
        let (num, den) = fit_slope(&samples);
        if num <= 0 {
            return None;
        }
        let threshold: u64 = self.baseline_rtt_us * WARNING_MULTIPLIER;
        let current: u64 = samples[samples.len() - 1];
        if threshold <= current {
            return Some((0, 1));
        }
        let gap: u128 = (threshold - current) as u128;
        let d: u128 = den as u128;
        assert(0 <= gap * d <= 0x2_0000_0000 * 0x10_0000) by (nonlinear_arith)
            requires
                0 <= gap <= 0x2_0000_0000,
                0 <= d <= 0x10_0000,
        ;
        let scaled: u128 = gap * d;
        assert(0 <= scaled * self.interval_ms <= 0x20_0000_0000_0000 * 0xffff_ffff_ffff_ffff)
            by (nonlinear_arith)
            requires
                0 <= scaled <= 0x20_0000_0000_0000,
                0 <= self.interval_ms <= 0xffff_ffff_ffff_ffff,
        ;
        Some((scaled * self.interval_ms as u128, num as u128))
    }

    /// Get comprehensive statistics
    pub fn get_stats(&self) -> (r: HeartbeatStats)
        requires
            self.wf(),
        ensures
            ({
                let s = self.rtt_samples@;
                let n = s.len() as int;
                &&& r.current_rtt_us == self.current_rtt()
                &&& r.avg_rtt_us == self.average()
                &&& r.min_rtt_us == self.reported_min()
                &&& r.max_rtt_us == self.max_rtt_us
                &&& r.variance.num == variance_of(s).0
                &&& r.variance.den == variance_of(s).1
                &&& r.jitter_us.num == math::sum_of(steps(s))
                &&& r.jitter_us.den == math::max_int(n - 1, 1)
                &&& r.packets_sent == self.packets_sent
                &&& r.packets_received == self.packets_received
                &&& r.packet_loss == loss_of(self.packets_sent, self.packets_received)
                &&& r.health == self.reported_health()
                &&& r.trend.num == trend_of(s).0
                &&& r.trend.den == trend_of(s).1
                &&& match degradation_of(s, self.baseline_rtt_us, self.interval_ms) {
                    Some((num, den)) => r.time_to_degradation_ms.num == num
                        && r.time_to_degradation_ms.den == den,
                    None => r.time_to_degradation_ms == WideRatio { num: 0, den: 1 },
                }
            }),
    {
        let samples: Vec<u64> = self.samples();
        let count: usize = samples.len();
        let current: u64 = self.get_current_rtt_us();
        let (sum, sum_sq) = sums(&samples);
        let jitter_sum: u64 = step_sum(&samples);
        let variance: WideRatio = if count > 1 {
            let n: i128 = count as i128;
            let s: i128 = sum as i128;
            assert(0 <= n * sum_sq <= 50 * 0x400_0000_0000_0000_0000) by (nonlinear_arith)
                requires
                    0 <= n <= 50,
                    0 <= sum_sq <= 0x400_0000_0000_0000_0000,
            ;
            assert(0 <= s * s <= 0x40_0000_0000 * 0x40_0000_0000) by (nonlinear_arith)
                requires
                    0 <= s <= 0x40_0000_0000,
            ;
            assert(0 <= n * (n - 1) <= 50 * 50) by (nonlinear_arith)
                requires
                    1 <= n <= 50,
            ;
            WideRatio { num: n * (sum_sq as i128) - s * s, den: (n * (n - 1)) as u128 }
        } else {
            WideRatio { num: 0, den: 1 }
        };
        let trend: WideRatio = half_trend(&samples);
        let packet_loss: Ratio = if self.packets_sent > 0 {
            Ratio {
                num: self.packets_sent.saturating_sub(self.packets_received),
                den: self.packets_sent,
            }
        } else {
            Ratio { num: 0, den: 1 }
        };
        let rated: ConnectionHealth = self.get_health();
        let health: ConnectionHealth = match rated {
            ConnectionHealth::Critical => ConnectionHealth::Critical,
            ConnectionHealth::Degraded => ConnectionHealth::Degraded,
            _ => {
                if self.packets_sent == 0 || self.packets_received == 0 {
                    ConnectionHealth::Disconnected
                } else {
                    ConnectionHealth::Healthy
                }
            },
        };
        let time_to_degradation_ms: WideRatio = match self.predict_degradation() {
            Some((num, den)) => {
                proof {
                    lemma_degradation_bound(
                        self.rtt_samples@,
                        self.baseline_rtt_us,
                        self.interval_ms,
                    );
                }
                WideRatio { num: num as i128, den }
            },
            None => WideRatio { num: 0, den: 1 },
        };
        HeartbeatStats {
            current_rtt_us: current,
            avg_rtt_us: self.get_avg_rtt_us(),
            min_rtt_us: if self.min_rtt_us == u64::MAX {
                0
            } else {
                self.min_rtt_us
            },
            max_rtt_us: self.max_rtt_us,
            variance,
            jitter_us: Ratio {
                num: jitter_sum,
                den: if count > 1 {
                    (count - 1) as u64
                } else {
                    1
                },
            },
            packets_sent: self.packets_sent,
            packets_received: self.packets_received,
            packet_loss,
            health,
            trend,
            time_to_degradation_ms,
        }
    }

    /// Reset all statistics
    pub fn reset(&mut self)
        ensures
            final(self).wf(),
            final(self).is_cleared(),
            final(self).interval_ms == old(self).interval_ms,
            final(self).is_active == old(self).is_active,
    {
        self.sequence = 0;
        self.last_send_ns = 0;
        self.last_recv_ns = 0;
        self.packets_sent = 0;
        self.packets_received = 0;
        self.min_rtt_us = u64::MAX;
        self.max_rtt_us = 0;
        self.rtt_sum = 0;
        self.rtt_sum_sq = 0;
        self.rtt_ema = None;
        self.baseline_rtt_us = 0;
        self.pending_pings.clear();
        self.rtt_samples.clear();
    }

    /// Get interval in milliseconds
    pub fn get_interval_ms(&self) -> (r: u64)
        ensures
            r == self.interval_ms,
    {
        self.interval_ms
    }

    /// Set interval in milliseconds
    pub fn set_interval_ms(&mut self, interval_ms: u64)
        ensures
            *final(self) == (HeartbeatTracker { interval_ms, ..*old(self) }),
    {
        self.interval_ms = interval_ms;
    }
}

impl Default for HeartbeatTracker {
    fn default() -> (r: Self)
        ensures
            r.is_initial(DEFAULT_HEARTBEAT_INTERVAL_MS),
    {
        HeartbeatTracker::new()
    }
}

/// Sum and sum of squares.
fn sums(v: &Vec<u64>) -> (r: (u64, u128))
    requires
        small(v@),
    ensures
        r.0 == math::sum_of(ints(v@)),
        r.1 == math::sum_of(squares(v@)),
        r.0 <= 0x40_0000_0000,
        r.1 <= 0x400_0000_0000_0000_0000,
{
    let mut sum: u64 = 0;
    let mut sum_sq: u128 = 0;
    let mut i: usize = 0;
    proof {
        assert(ints(v@.subrange(0, 0)) =~= Seq::<int>::empty());
        assert(squares(v@.subrange(0, 0)) =~= Seq::<int>::empty());
    }
    while i < v.len()
        invariant
            small(v@),
            i <= v.len(),
            sum == math::sum_of(ints(v@.subrange(0, i as int))),
            sum_sq == math::sum_of(squares(v@.subrange(0, i as int))),
            sum <= i * 0x1_0000_0000,
            sum_sq <= i * 0x1_0000_0000_0000_0000,
        decreases v.len() - i,
    {
        let x: u64 = v[i];
        proof {
            let part = v@.subrange(0, i as int);
            assert(v@[i as int] < RTT_LIMIT_US);
            assert(ints(v@.subrange(0, i + 1)) =~= ints(part).push(x as int));
            assert(squares(v@.subrange(0, i + 1)) =~= squares(part).push(x * x));
            math::lemma_sum_push(ints(part), x as int);
            math::lemma_sum_push(squares(part), x * x);
            assert(0 <= x * x <= 0x1_0000_0000_0000_0000) by (nonlinear_arith)
                requires
                    0 <= x < 0x1_0000_0000,
            ;
        }
        sum = sum + x;
        sum_sq = sum_sq + (x as u128) * (x as u128);
        i = i + 1;
    }
    proof {
        assert(v@.subrange(0, i as int) =~= v@);
    }
    (sum, sum_sq)
}

/// Sum of the steps between neighbours.
fn step_sum(v: &Vec<u64>) -> (r: u64)
    requires
        small(v@),
    ensures
        r == math::sum_of(steps(v@)),
{
    let mut sum: u64 = 0;
    let mut i: usize = 1;
    let ghost all = steps(v@);
    proof {
        assert(all.subrange(0, 0) =~= Seq::<int>::empty());
        if v@.len() <= 1 {
            assert(all =~= Seq::<int>::empty());
        }
    }
    while i < v.len()
        invariant
            small(v@),
            i >= 1,
            v@.len() >= 1 ==> i <= v.len(),
            all == steps(v@),
            v@.len() >= 1 ==> sum == math::sum_of(all.subrange(0, i - 1)),
            v@.len() == 0 ==> sum == 0,
            sum <= i * 0x1_0000_0000,
        decreases v.len() - i,
    {
        proof {
            assert(v@[i as int] < RTT_LIMIT_US);
            assert(v@[i - 1] < RTT_LIMIT_US);
            assert(all.subrange(0, i as int) =~= all.subrange(0, i - 1).push(all[i - 1]));
            math::lemma_sum_push(all.subrange(0, i - 1), all[i - 1]);
        }
        let step: u64 = magnitude(v[i] as i64 - v[i - 1] as i64);
        sum = sum + step;
        i = i + 1;
    }
    proof {
        if v@.len() >= 1 {
            assert(all.subrange(0, i - 1) =~= all);
        }
    }
    sum
}

/// The change from the first half to the second, as `trend_of` has it.
fn half_trend(v: &Vec<u64>) -> (r: WideRatio)
    requires
        small(v@),
    ensures
        r.num == trend_of(v@).0,
        r.den == trend_of(v@).1,
{
    if v.len() <= 1 {
        return WideRatio { num: 0, den: 1 };
    }
    let half: usize = v.len() / 2;
    let mut first: Vec<u64> = Vec::new();
    let mut second: Vec<u64> = Vec::new();
    let mut i: usize = 0;
    while i < v.len()
        invariant
            i <= v.len(),
            half <= v.len(),
            first@ == v@.subrange(0, math::min_int(i as int, half as int)),
            second@ == v@.subrange(half as int, math::max_int(i as int, half as int)),
        decreases v.len() - i,
    {
        if i < half {
            first.push(v[i]);
        } else {
            second.push(v[i]);
        }
        i = i + 1;
        assert(first@ =~= v@.subrange(0, math::min_int(i as int, half as int)));
        assert(second@ =~= v@.subrange(half as int, math::max_int(i as int, half as int)));
    }
    let (a, a_sq) = sums(&first);
    let (b, b_sq) = sums(&second);
    let h: i128 = half as i128;
    let k: i128 = (v.len() - half) as i128;
    let ai: i128 = a as i128;
    let bi: i128 = b as i128;
    assert(0 <= bi * h <= 0x40_0000_0000 * 50 && 0 <= ai * k <= 0x40_0000_0000 * 50)
        by (nonlinear_arith)
        requires
            0 <= ai <= 0x40_0000_0000,
            0 <= bi <= 0x40_0000_0000,
            0 <= h <= 50,
            0 <= k <= 50,
    ;
    let base: i128 = if ai >= h {
        ai
    } else {
        h
    };
    assert(0 <= k * base <= 50 * 0x40_0000_0000) by (nonlinear_arith)
        requires
            0 <= k <= 50,
            0 <= base <= 0x40_0000_0000,
    ;
    WideRatio { num: bi * h - ai * k, den: (k * base) as u128 }
}

proof fn lemma_degradation_bound(s: Seq<u64>, baseline: u64, interval_ms: u64)
    requires
        small(s),
        baseline < RTT_LIMIT_US,
    ensures
        degradation_of(s, baseline, interval_ms) matches Some((num, den)) ==> 0 <= num <= i128::MAX,
{
    lemma_slope_bounds(s);
    let (num, den) = slope(s);
    if s.len() >= DEGRADATION_WINDOW && num > 0 && WARNING_MULTIPLIER * baseline > s.last() {
        let gap = WARNING_MULTIPLIER * baseline - s.last();
        assert(0 <= gap * den <= 0x2_0000_0000 * 0x10_0000) by (nonlinear_arith)
            requires
                0 <= gap <= 0x2_0000_0000,
                0 <= den <= 0x10_0000,
        ;
        let x = gap * den;
        assert(0 <= x * interval_ms <= 0x20_0000_0000_0000 * 0xffff_ffff_ffff_ffff)
            by (nonlinear_arith)
            requires
                0 <= x <= 0x20_0000_0000_0000,
                0 <= interval_ms <= 0xffff_ffff_ffff_ffff,
        ;
    }
}

spec fn position_sum(n: nat) -> int {
    math::sum_of(Seq::new(n, |i: int| i))
}

spec fn position_square_sum(n: nat) -> int {
    math::sum_of(Seq::new(n, |i: int| i * i))
}

proof fn lemma_position_sums(n: nat)
    ensures
        position_sum(n) * 2 == n * (n - 1),
        position_square_sum(n) * 6 == n * (n - 1) * (2 * n - 1),
    decreases n,
{
    if n > 0 {
        let m = (n - 1) as nat;
        lemma_position_sums(m);
        let a = Seq::new(n, |i: int| i);
        let b = Seq::new(n, |i: int| i * i);
        assert(a.drop_last() =~= Seq::new(m, |i: int| i));
        assert(b.drop_last() =~= Seq::new(m, |i: int| i * i));
        assert(a.last() == n - 1);
        assert(b.last() == (n - 1) * (n - 1));
        let p = position_sum(m);
        let q = position_square_sum(m);
        assert(n * (n - 1) == m * (m - 1) + 2 * (n - 1)) by (nonlinear_arith)
            requires
                m == n - 1,
        ;
        assert(n * (n - 1) * (2 * n - 1) == m * (m - 1) * (2 * m - 1) + 6 * ((n - 1) * (n - 1)))
            by (nonlinear_arith)
            requires
                m == n - 1,
        ;
    } else {
        assert(Seq::new(n, |i: int| i) =~= Seq::<int>::empty());
        assert(Seq::new(n, |i: int| i * i) =~= Seq::<int>::empty());
        assert(n * (n - 1) == 0 && n * (n - 1) * (2 * n - 1) == 0) by (nonlinear_arith)
            requires
                n == 0,
        ;
    }
}

/// The denominator of the slope is small, and positive from two samples on.
proof fn lemma_slope_bounds(s: Seq<u64>)
    requires
        s.len() <= MAX_SAMPLES,
    ensures
        0 <= slope(s).1 <= 0x10_0000,
        s.len() >= 2 ==> slope(s).1 > 0,
{
    let n = s.len() as int;
    lemma_position_sums(s.len());
    let sx = position_sum(s.len());
    let sxx = position_square_sum(s.len());
    assert(slope(s).1 == n * sxx - sx * sx);
    // 12 times the denominator is n * n * (n * n - 1).
    assert(12 * (n * sxx - sx * sx) == n * n * (n * n - 1)) by (nonlinear_arith)
        requires
            sx * 2 == n * (n - 1),
            sxx * 6 == n * (n - 1) * (2 * n - 1),
    ;
    assert(0 <= n * n <= 2500) by (nonlinear_arith)
        requires
            0 <= n <= 50,
    ;
    let m = n * n;
    assert(0 <= m * (m - 1) <= 2500 * 2500) by (nonlinear_arith)
        requires
            0 <= m <= 2500,
            m == 0 || m >= 1,
    ;
    assert(n * n * (n * n - 1) == m * (m - 1));
    if n >= 2 {
        assert(m >= 4) by (nonlinear_arith)
            requires
                n >= 2,
                m == n * n,
        ;
        assert(m * (m - 1) > 0) by (nonlinear_arith)
            requires
                m >= 4,
        ;
    }
}

/// Numerator and denominator of the least-squares slope.
fn fit_slope(v: &Vec<u64>) -> (r: (i128, i128))
    requires
        small(v@),
    ensures
        r.0 == slope(v@).0,
        r.1 == slope(v@).1,
        0 <= r.1 <= 0x10_0000,
{
    let mut sx: i128 = 0;
    let mut sxx: i128 = 0;
    let mut sxy: i128 = 0;
    let mut i: usize = 0;
    let ghost n = v@.len();
    let ghost xs = Seq::new(n, |k: int| k);
    let ghost xxs = Seq::new(n, |k: int| k * k);
    let ghost xys = indexed(v@);
    proof {
        lemma_slope_bounds(v@);
        assert(xs.subrange(0, 0) =~= Seq::<int>::empty());
        assert(xxs.subrange(0, 0) =~= Seq::<int>::empty());
        assert(xys.subrange(0, 0) =~= Seq::<int>::empty());
    }
    while i < v.len()
        invariant
            small(v@),
            i <= v.len(),
            n == v@.len(),
            xs == Seq::new(n, |k: int| k),
            xxs == Seq::new(n, |k: int| k * k),
            xys == indexed(v@),
            sx == math::sum_of(xs.subrange(0, i as int)),
            sxx == math::sum_of(xxs.subrange(0, i as int)),
            sxy == math::sum_of(xys.subrange(0, i as int)),
            0 <= sx <= i * 50,
            0 <= sxx <= i * 2500,
            0 <= sxy <= i * 0x40_0000_0000,
        decreases v.len() - i,
    {
        let x: i128 = i as i128;
        let y: i128 = v[i] as i128;
        proof {
            assert(v@[i as int] < RTT_LIMIT_US);
            assert(xs.subrange(0, i + 1) =~= xs.subrange(0, i as int).push(i as int));
            assert(xxs.subrange(0, i + 1) =~= xxs.subrange(0, i as int).push(i * i));
            assert(xys.subrange(0, i + 1) =~= xys.subrange(0, i as int).push(i * v@[i as int]));
            math::lemma_sum_push(xs.subrange(0, i as int), i as int);
            math::lemma_sum_push(xxs.subrange(0, i as int), i * i);
            math::lemma_sum_push(xys.subrange(0, i as int), i * v@[i as int]);
            assert(0 <= x * x <= 2500 && 0 <= x * y <= 50 * 0x1_0000_0000) by (nonlinear_arith)
                requires
                    0 <= x <= 50,
                    0 <= y <= 0x1_0000_0000,
            ;
        }
        sx = sx + x;
        sxx = sxx + x * x;
        sxy = sxy + x * y;
        i = i + 1;
    }
    proof {
        assert(xs.subrange(0, n as int) =~= xs);
        assert(xxs.subrange(0, n as int) =~= xxs);
        assert(xys.subrange(0, n as int) =~= xys);
    }
    let (sy_u, sq) = sums(v);
    let sy: i128 = sy_u as i128;
    let ni: i128 = v.len() as i128;
    assert(0 <= ni * sxy <= 50 * (50 * 0x40_0000_0000) && 0 <= sx * sy <= 2500 * 0x40_0000_0000
        && 0 <= ni * sxx <= 50 * 125000 && 0 <= sx * sx <= 2500 * 2500) by (nonlinear_arith)
        requires
            0 <= ni <= 50,
            0 <= sxy <= 50 * 0x40_0000_0000,
            0 <= sx <= 2500,
            0 <= sy <= 0x40_0000_0000,
            0 <= sxx <= 125000,
    ;
    (ni * sxy - sx * sy, ni * sxx - sx * sx)
}

/// The loss is a share of what was sent, also where a pong came twice.
pub proof fn law_loss_is_a_share(sent: u64, received: u64)
    ensures
        loss_of(sent, received).num <= loss_of(sent, received).den,
        loss_of(sent, received).den > 0,
        received >= sent ==> loss_of(sent, received).num == 0,
{
}

/// In every state the smallest round trip is at most the largest, and both are
/// nothing before the first.
pub proof fn law_min_at_most_max(t: HeartbeatTracker)
    requires
        t.wf(),
    ensures
        t.reported_min() <= t.max_rtt_us,
        t.rtt_samples@.len() == 0 ==> t.reported_min() == 0 && t.max_rtt_us == 0,
{
}

/// A tracker that has sent nothing is disconnected.
pub proof fn law_unused_is_disconnected(t: HeartbeatTracker)
    requires
        t.is_cleared(),
    ensures
        t.reported_health() == ConnectionHealth::Disconnected,
{
}

/// The moving average moves toward each new round trip, never past it.
pub proof fn law_average_between(average: u64, rtt_us: u64)
    requires
        rtt_us < RTT_LIMIT_US,
        average <= RTT_LIMIT_US * AVERAGE_SCALE,
    ensures
        math::min_int(average as int, rtt_us * AVERAGE_SCALE) <= smoothed(Some(average), rtt_us)
            <= math::max_int(average as int, rtt_us * AVERAGE_SCALE),
{
}

/// Health only worsens as the round trip grows.
pub proof fn law_health_is_monotone(baseline: u64, faster: u64, slower: u64)
    requires
        baseline > 0,
        faster <= slower,
    ensures
        health_of(baseline, faster) == ConnectionHealth::Critical ==> health_of(baseline, slower)
            == ConnectionHealth::Critical,
        health_of(baseline, slower) == ConnectionHealth::Healthy ==> health_of(baseline, faster)
            == ConnectionHealth::Healthy,
{
}

/// A constant round trip shows no trend and is never predicted to degrade.
pub proof fn law_constant_samples_do_not_degrade(s: Seq<u64>, x: u64, baseline: u64, interval: u64)
    requires
        small(s),
        forall|i: int| 0 <= i < s.len() ==> #[trigger] s[i] == x,
    ensures
        degradation_of(s, baseline, interval) is None,
{
    lemma_constant_sums(s, x);
    let n = s.len() as int;
    let sx = position_sum(s.len());
    assert(n * (sx * x) == sx * (n * x)) by (nonlinear_arith);
}

proof fn lemma_constant_sums(s: Seq<u64>, x: u64)
    requires
        forall|i: int| 0 <= i < s.len() ==> #[trigger] s[i] == x,
    ensures
        math::sum_of(ints(s)) == s.len() * x,
        math::sum_of(indexed(s)) == position_sum(s.len()) * x,
    decreases s.len(),
{
    if s.len() == 0 {
        assert(ints(s) =~= Seq::<int>::empty());
        assert(indexed(s) =~= Seq::<int>::empty());
        assert(Seq::new(s.len(), |i: int| i) =~= Seq::<int>::empty());
        assert(s.len() * x == 0) by (nonlinear_arith)
            requires
                s.len() == 0,
        ;
        assert(position_sum(s.len()) * x == 0) by (nonlinear_arith)
            requires
                position_sum(s.len()) == 0,
        ;
    } else {
        let t = s.drop_last();
        assert forall|i: int| 0 <= i < t.len() implies #[trigger] t[i] == x by {
            assert(t[i] == s[i]);
        }
        lemma_constant_sums(t, x);
        assert(ints(s).drop_last() =~= ints(t));
        assert(indexed(s).drop_last() =~= indexed(t));
        assert(Seq::new(s.len(), |i: int| i).drop_last() =~= Seq::new(t.len(), |i: int| i));
        assert(s[s.len() - 1] == x);
        let p = position_sum(t.len());
        let m = t.len() as int;
        assert(position_sum(s.len()) == p + m);
        assert(indexed(s).last() == m * x);
        assert((p + m) * x == p * x + m * x) by (nonlinear_arith);
        assert((m + 1) * x == m * x + x) by (nonlinear_arith);
    }
}

/// The moving average takes two parts of fifty-one from the newest round trip
/// and the others from what it was, rounded down; the first round trip is the
/// average.
pub proof fn law_average_weighs_newest(average: u64, rtt_us: u64)
    requires
        rtt_us < RTT_LIMIT_US,
        average <= RTT_LIMIT_US * AVERAGE_SCALE,
    ensures
        smoothed(None, rtt_us) == rtt_us * 1_000_000,
        51 * smoothed(Some(average), rtt_us) <= 2 * (rtt_us * 1_000_000) + 49 * average < 51
            * smoothed(Some(average), rtt_us) + 51,
{
}

/// Lost packets are those sent and not received.
pub proof fn law_lost_is_sent_less_received(sent: u64, received: u64)
    ensures
        received <= sent && sent > 0 ==> loss_of(sent, received).num + received == sent && loss_of(
            sent,
            received,
        ).den == sent,
{
}

/// A connection is critical above five times the baseline, degraded above
/// twice, and healthy up to there; without a baseline it is not connected.
pub proof fn law_health_thresholds(baseline: u64, current: u64)
    ensures
        health_of(baseline, current) == ConnectionHealth::Disconnected <==> baseline == 0,
        baseline > 0 ==> (health_of(baseline, current) == ConnectionHealth::Critical <==> current
            > 5 * baseline),
        baseline > 0 ==> (health_of(baseline, current) == ConnectionHealth::Degraded <==> 2
            * baseline < current <= 5 * baseline),
        baseline > 0 ==> (health_of(baseline, current) == ConnectionHealth::Healthy <==> current
            <= 2 * baseline),
{
}

/// What is reported is the rating of the newest round trip where that is bad,
/// and otherwise whether anything was sent and received.
pub proof fn law_reported_health(t: HeartbeatTracker)
    ensures
        ({
            let (b, c) = (t.baseline_rtt_us, t.current_rtt());
            let used = t.packets_sent > 0 && t.packets_received > 0;
            &&& t.reported_health() == ConnectionHealth::Critical <==> b > 0 && c > 5 * b
            &&& t.reported_health() == ConnectionHealth::Degraded <==> b > 0 && 2 * b < c <= 5 * b
            &&& t.reported_health() == ConnectionHealth::Healthy <==> used && (b == 0 || c <= 2 * b)
            &&& t.rtt_samples@.len() > 0 ==> c == t.rtt_samples@.last()
            &&& t.rtt_samples@.len() == 0 ==> c == 0
        }),
{
}

proof fn lemma_sum_one_changed(s: Seq<int>, t: Seq<int>, i: int)
    requires
        s.len() == t.len(),
        0 <= i < s.len(),
        forall|k: int| 0 <= k < s.len() && k != i ==> #[trigger] s[k] == t[k],
    ensures
        math::sum_of(t) - math::sum_of(s) == t[i] - s[i],
{
    assert(t =~= s.update(i, t[i]));
    math::lemma_sum_update(s, i, t[i]);
}

/// The slope is that of the straight line closest to the samples: samples that
/// are all nothing have none, and each sample pulls it by its distance from the
/// middle of them. The denominator depends on their number alone.
pub proof fn law_slope_follows_each_sample(s: Seq<u64>, t: Seq<u64>, i: int)
    requires
        s.len() == t.len(),
        0 <= i < s.len(),
        forall|k: int| 0 <= k < s.len() && k != i ==> #[trigger] s[k] == t[k],
    ensures
        ({
            let n = s.len() as int;
            &&& 12 * slope(s).1 == (n * n) * (n * n - 1)
            &&& slope(t).1 == slope(s).1
            &&& 2 * (slope(t).0 - slope(s).0) == (t[i] - s[i]) * (n * (2 * i - (n - 1)))
        }),
{
    let n = s.len() as int;
    lemma_position_sums(s.len());
    lemma_sum_one_changed(indexed(s), indexed(t), i);
    lemma_sum_one_changed(ints(s), ints(t), i);
    let sx = position_sum(s.len());
    let sxx = position_square_sum(s.len());
    let d = t[i] - s[i];
    let (a, b) = (math::sum_of(indexed(s)), math::sum_of(indexed(t)));
    let (p, q) = (math::sum_of(ints(s)), math::sum_of(ints(t)));
    assert(b - a == i * t[i] - i * s[i]);
    let (x, y) = (t[i] as int, s[i] as int);
    assert(i * x - i * y == i * d) by (nonlinear_arith)
        requires
            d == x - y,
    ;
    assert((n * b - sx * q) - (n * a - sx * p) == n * (b - a) - sx * (q - p)) by (nonlinear_arith);
    assert(2 * (n * (i * d) - sx * d) == d * (n * (2 * i - (n - 1)))) by (nonlinear_arith)
        requires
            2 * sx == n * (n - 1),
    ;
    assert(12 * (n * sxx - sx * sx) == (n * n) * (n * n - 1)) by (nonlinear_arith)
        requires
            2 * sx == n * (n - 1),
            6 * sxx == n * (n - 1) * (2 * n - 1),
    ;
}

/// Samples that are all nothing have no slope.
pub proof fn law_no_samples_no_slope(s: Seq<u64>)
    requires
        forall|k: int| 0 <= k < s.len() ==> #[trigger] s[k] == 0,
    ensures
        slope(s).0 == 0,
{
    assert(indexed(s) =~= Seq::new(s.len(), |k: int| 0int)) by {
        assert forall|k: int| 0 <= k < s.len() implies #[trigger] indexed(s)[k] == 0 by {
            assert(s[k] == 0);
            assert(k * 0 == 0) by (nonlinear_arith);
        }
    }
    assert(ints(s) =~= Seq::new(s.len(), |k: int| 0int));
    lemma_sum_of_nothing(s.len());
    let n = s.len() as int;
    let sx = math::sum_of(Seq::new(s.len(), |k: int| k));
    assert(n * 0 == 0 && sx * 0 == 0) by (nonlinear_arith);
}

proof fn lemma_sum_of_nothing(n: nat)
    ensures
        math::sum_of(Seq::new(n, |k: int| 0int)) == 0,
    decreases n,
{
    if n > 0 {
        lemma_sum_of_nothing((n - 1) as nat);
        assert(Seq::new(n, |k: int| 0int).drop_last() =~= Seq::new((n - 1) as nat, |k: int| 0int));
    }
}

/// Degradation is foretold from ten samples on where they rise: it is there
/// already where the newest is twice the baseline, and otherwise comes when the
/// slope has covered what is missing, an interval for each sample.
pub proof fn law_degradation_by_the_slope(s: Seq<u64>, baseline: u64, interval_ms: u64)
    ensures
        degradation_of(s, baseline, interval_ms) is Some <==> s.len() >= 10 && slope(s).0 > 0,
        degradation_of(s, baseline, interval_ms) matches Some((num, den)) ==> {
            &&& den > 0
            &&& s.last() >= 2 * baseline ==> num == 0
            &&& s.last() < 2 * baseline ==> num * slope(s).0 == ((2 * baseline - s.last())
                * interval_ms) * slope(s).1 * den
        },
{
    let (n, d) = slope(s);
    let (g, m) = (2 * baseline - s.last(), interval_ms as int);
    assert(g * d * m * n == (g * m) * d * n) by (nonlinear_arith);
}

proof fn lemma_constant_sum(s: Seq<u64>, x: u64)
    requires
        forall|k: int| 0 <= k < s.len() ==> #[trigger] s[k] == x,
    ensures
        math::sum_of(ints(s)) == s.len() * x,
    decreases s.len(),
{
    if s.len() > 0 {
        let t = s.drop_last();
        assert forall|k: int| 0 <= k < t.len() implies #[trigger] t[k] == x by {
            assert(s[k] == x);
        }
        lemma_constant_sum(t, x);
        assert(ints(s).drop_last() =~= ints(t));
        assert(s[s.len() - 1] == x);
        let n = s.len() as int;
        assert(n * x == (n - 1) * x + x) by (nonlinear_arith);
    } else {
        assert(0 * x == 0) by (nonlinear_arith);
    }
}

/// The trend is the change from the first half of the samples to the second,
/// relative to the first: from a steady level to another it is their difference
/// over the first.
pub proof fn law_trend_between_levels(s: Seq<u64>, x: u64, y: u64)
    requires
        s.len() >= 2,
        x >= 1,
        forall|k: int| 0 <= k < s.len() as int / 2 ==> #[trigger] s[k] == x,
        forall|k: int| s.len() as int / 2 <= k < s.len() ==> #[trigger] s[k] == y,
    ensures
        trend_of(s).1 > 0,
        trend_of(s).0 * x == (y - x) * trend_of(s).1,
{
    let h = s.len() as int / 2;
    let k = s.len() - h;
    let (p, q) = (s.subrange(0, h), s.subrange(h, s.len() as int));
    assert forall|j: int| 0 <= j < p.len() implies #[trigger] p[j] == x by {
        assert(s[j] == x);
    }
    assert forall|j: int| 0 <= j < q.len() implies #[trigger] q[j] == y by {
        assert(s[h + j] == y);
    }
    lemma_constant_sum(p, x);
    lemma_constant_sum(q, y);
    let (a, b) = (h * x, k * y);
    assert(a >= h) by (nonlinear_arith)
        requires
            a == h * x,
            x >= 1,
            h >= 1,
    ;
    assert(k * a > 0) by (nonlinear_arith)
        requires
            k > 0,
            a > 0,
    ;
    let (u, v) = (x as int, y as int);
    assert((b * h - a * k) * u == (v - u) * (k * a)) by (nonlinear_arith)
        requires
            a == h * u,
            b == k * v,
    ;
}

/// The trend is above zero exactly where the second half of the samples is
/// larger on the mean than the first.
pub proof fn law_trend_has_the_sign_of_change(s: Seq<u64>)
    requires
        s.len() >= 2,
    ensures
        ({
            let h = s.len() as int / 2;
            let a = math::sum_of(ints(s.subrange(0, h)));
            let b = math::sum_of(ints(s.subrange(h, s.len() as int)));
            trend_of(s).0 > 0 <==> b * h > a * (s.len() - h)
        }),
{
}

/// How far samples lie from a value, squared and summed.
pub open spec fn square_distance(s: Seq<u64>, x: u64) -> int {
    math::sum_of(s.map_values(|y: u64| (x - y) * (x - y)))
}

proof fn lemma_square_distance(s: Seq<u64>, x: u64)
    ensures
        square_distance(s, x) == s.len() * (x * x) - 2 * (x * math::sum_of(ints(s)))
            + math::sum_of(squares(s)),
    decreases s.len(),
{
    let f = |y: u64| (x - y) * (x - y);
    if s.len() > 0 {
        let t = s.drop_last();
        lemma_square_distance(t, x);
        assert(s.map_values(f).drop_last() =~= t.map_values(f));
        assert(ints(s).drop_last() =~= ints(t));
        assert(squares(s).drop_last() =~= squares(t));
        let (y, v, n, a) = (s.last() as int, x as int, t.len() as int, math::sum_of(ints(t)));
        assert((v - y) * (v - y) == v * v - 2 * (v * y) + y * y) by (nonlinear_arith);
        assert((n + 1) * (v * v) == n * (v * v) + v * v) by (nonlinear_arith);
        assert(v * (a + y) == v * a + v * y) by (nonlinear_arith);
    } else {
        let v = x as int;
        assert(0 * (v * v) == 0 && v * 0 == 0) by (nonlinear_arith);
    }
}

/// The variance sums the squared differences of all pairs of samples: one more
/// sample adds how far it lies from each of the others, over the number of
/// samples times one less. One sample varies by nothing.
pub proof fn law_variance_sums_pairs(s: Seq<u64>, x: u64)
    requires
        s.len() >= 1,
    ensures
        variance_of(seq![x]).0 == 0,
        variance_of(s.push(x)).0 == variance_of(s).0 + square_distance(s, x),
        variance_of(s.push(x)).1 == (s.len() + 1) * s.len(),
{
    lemma_square_distance(s, x);
    let t = s.push(x);
    assert(ints(t) =~= ints(s).push(x as int));
    assert(squares(t) =~= squares(s).push(x * x));
    math::lemma_sum_push(ints(s), x as int);
    math::lemma_sum_push(squares(s), x * x);
    let (n, a, q, v) = (
        s.len() as int,
        math::sum_of(ints(s)),
        math::sum_of(squares(s)),
        x as int,
    );
    assert((n + 1) * (q + v * v) - (a + v) * (a + v) == (n * q - a * a) + (n * (v * v) - 2 * (v * a)
        + q)) by (nonlinear_arith);
    if n == 1 {
        let y = s[0] as int;
        assert(ints(s) =~= seq![y]);
        assert(squares(s) =~= seq![y * y]);
        math::law_sum_of_parts(Seq::empty(), Seq::empty(), y);
        math::law_sum_of_parts(Seq::empty(), Seq::empty(), y * y);
        assert(1 * (y * y) - y * y == 0);
    }
}

/// The jitter is made of how far each round trip lies from the one before.
pub proof fn law_jitter_steps(s: Seq<u64>, x: u64)
    requires
        s.len() >= 1,
    ensures
        steps(s.push(x)) == steps(s).push(math::max_int(x - s.last(), s.last() - x)),
        steps(seq![x]).len() == 0,
{
    assert(steps(s.push(x)) =~= steps(s).push(math::max_int(x - s.last(), s.last() - x)));
}

/// A list of bounded length takes a new element at its end and gives up its
/// oldest one where it would grow too long.
pub proof fn law_samples_keep_newest(s: Seq<u64>, x: u64, limit: int)
    requires
        s.len() <= limit,
        limit > 0,
    ensures
        shifted(s, x, limit).last() == x,
        s.len() < limit ==> shifted(s, x, limit).drop_last() == s,
        s.len() == limit ==> shifted(s, x, limit).drop_last() == s.subrange(1, s.len() as int),
{
    if s.len() < limit {
        assert(shifted(s, x, limit).drop_last() =~= s);
    } else {
        assert(shifted(s, x, limit).drop_last() =~= s.subrange(1, s.len() as int));
    }
}

/// Taking an element out of a list removes its first occurrence and leaves the
/// rest in order.
pub proof fn law_first_occurrence_goes(s: Seq<u64>, t: Seq<u64>, x: u64)
    ensures
        !s.contains(x) ==> without(s + seq![x] + t, x) == s + t,
        !s.contains(x) ==> without(s, x) == s,
    decreases s.len(),
{
    let all = s + seq![x] + t;
    if s.len() == 0 {
        assert(all[0] == x);
        assert(all.subrange(1, all.len() as int) =~= s + t);
    } else if !s.contains(x) {
        let rest = s.subrange(1, s.len() as int);
        assert(s.contains(s[0]));
        assert(all[0] == s[0]);
        assert(!rest.contains(x)) by {
            if rest.contains(x) {
                let i = choose|i: int| 0 <= i < rest.len() && rest[i] == x;
                assert(s[i + 1] == x);
            }
        }
        law_first_occurrence_goes(rest, t, x);
        assert(all.subrange(1, all.len() as int) =~= rest + seq![x] + t);
        assert(seq![s[0]] + (rest + t) =~= s + t);
        assert(seq![s[0]] + rest =~= s);
    }
}

} // verus!
