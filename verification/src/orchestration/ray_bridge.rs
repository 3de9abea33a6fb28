//! Health of a worker cluster: memory use against its limit, repeated
//! violations, and the texts from which memory use is read.
use crate::math;
use crate::math::Ratio;
use vstd::prelude::*;

verus! {

/// Kibibytes in a gibibyte
pub const KB_PER_GB: u64 = 1_048_576;

/// Memory violation record
#[derive(Debug)]
pub struct MemoryViolation {
    pub worker_id: String,
    pub timestamp_ns: u64,
    pub memory_used_kb: u64,
    pub memory_limit_kb: u64,
    pub violation_count: u32,
}

/// Cluster health status
#[derive(Debug, Clone, Copy, PartialEq, Eq, Structural)]
pub enum ClusterHealth {
    Healthy,
    Warning,
    Critical,
    Failed,
}

/// Telemetry metrics snapshot
#[derive(Debug, Clone, Copy, PartialEq, Eq, Structural)]
pub struct TelemetrySnapshot {
    pub timestamp_ns: u64,
    pub cluster_health: ClusterHealth,
    pub total_workers: usize,
    pub active_tasks: usize,
    pub memory_used_kb: u64,
    pub memory_limit_kb: u64,
    pub cpu_utilization: Ratio,
    pub violations_last_hour: u32,
}

/// Configuration for the telemetry bridge; the thresholds are parts of the
/// memory limit
#[derive(Debug, Clone, Copy, PartialEq, Eq, Structural)]
pub struct TelemetryConfig {
    pub global_memory_limit_kb: u64,
    pub worker_memory_limit_kb: u64,
    pub warning_threshold: Ratio,
    pub critical_threshold: Ratio,
    pub kill_threshold: Ratio,
    pub violation_window_seconds: u64,
    pub max_violations_before_kill: u32,
    pub polling_interval_ms: u64,
}

pub open spec fn standard_config() -> TelemetryConfig {
    TelemetryConfig {
        global_memory_limit_kb: 8_388_608,
        worker_memory_limit_kb: 4_194_304,
        warning_threshold: Ratio { num: 85, den: 100 },
        critical_threshold: Ratio { num: 95, den: 100 },
        kill_threshold: Ratio { num: 1, den: 1 },
        violation_window_seconds: 300,
        max_violations_before_kill: 3,
        polling_interval_ms: 1000,
    }
}

impl Default for TelemetryConfig {
    fn default() -> (r: Self)
        ensures
            r == standard_config(),
    {
        TelemetryConfig {
            global_memory_limit_kb: 8_388_608,
            worker_memory_limit_kb: 4_194_304,
            warning_threshold: Ratio { num: 85, den: 100 },
            critical_threshold: Ratio { num: 95, den: 100 },
            kill_threshold: Ratio { num: 1, den: 1 },
            violation_window_seconds: 300,
            max_violations_before_kill: 3,
            polling_interval_ms: 1000,
        }
    }
}

/// Whether memory use reaches a part of the limit.
pub open spec fn reaches(used: u64, limit: u64, threshold: Ratio) -> bool {
    (used > 0 || limit > 0) && used * threshold.den >= threshold.num * limit
}

fn reaches_part(used: u64, limit: u64, threshold: Ratio) -> (r: bool)
    ensures
        r == reaches(used, limit, threshold),
{
    proof {
        let (u, d) = (used as int, threshold.den as int);
        let (n, m) = (threshold.num as int, limit as int);
        assert(0 <= u * d <= 0xFFFF_FFFF_FFFF_FFFF * 0xFFFF_FFFF_FFFF_FFFF) by (nonlinear_arith)
            requires
                0 <= u <= 0xFFFF_FFFF_FFFF_FFFF,
                0 <= d <= 0xFFFF_FFFF_FFFF_FFFF,
        ;
        assert(0 <= n * m <= 0xFFFF_FFFF_FFFF_FFFF * 0xFFFF_FFFF_FFFF_FFFF) by (nonlinear_arith)
            requires
                0 <= n <= 0xFFFF_FFFF_FFFF_FFFF,
                0 <= m <= 0xFFFF_FFFF_FFFF_FFFF,
        ;
    }
    (used > 0 || limit > 0) && used as u128 * threshold.den as u128 >= threshold.num as u128
        * limit as u128
}

/// The health of a cluster at some memory use.
pub open spec fn health_at(config: TelemetryConfig, used: u64, limit: u64) -> ClusterHealth {
    if reaches(used, limit, config.kill_threshold) {
        ClusterHealth::Failed
    } else if reaches(used, limit, config.critical_threshold) {
        ClusterHealth::Critical
    } else if reaches(used, limit, config.warning_threshold) {
        ClusterHealth::Warning
    } else {
        ClusterHealth::Healthy
    }
}

/// How many violations lie within a window before a time.
pub open spec fn recent_count(v: Seq<MemoryViolation>, now_ns: u64, window_ns: int) -> nat
    decreases v.len(),
{
    if v.len() == 0 {
        0
    } else {
        recent_count(v.drop_last(), now_ns, window_ns) + (if math::max_int(
            now_ns - v.last().timestamp_ns,
            0,
        ) < window_ns {
            1nat
        } else {
            0nat
        })
    }
}

/// What an observation calls for.
#[derive(Debug, Clone, Copy, PartialEq, Eq, Structural)]
pub struct Observation {
    /// The health that the memory use stands for
    pub health: ClusterHealth,
    /// Whether that differs from the health in the snapshot
    pub health_changed: bool,
    /// Whether a violation was recorded
    pub violation: bool,
    /// Whether violations have become too frequent
    pub kill: bool,
}

/// Telemetry bridge for cluster monitoring
pub struct RayTelemetryBridge {
    pub config: TelemetryConfig,
    pub is_running: bool,
    pub kill_triggered: bool,
    pub violation_count: u64,
    pub violations: Vec<MemoryViolation>,
    pub health_status: ClusterHealth,
}

impl RayTelemetryBridge {
    /// A bridge that has seen nothing yet.
    pub open spec fn fresh(&self, config: TelemetryConfig) -> bool {
        &&& self.config == config
        &&& !self.is_running
        &&& !self.kill_triggered
        &&& self.violation_count == 0
        &&& self.violations.len() == 0
        &&& self.health_status == ClusterHealth::Healthy
    }

    /// Create a new telemetry bridge with default configuration
    pub fn new() -> (r: Self)
        ensures
            r.fresh(standard_config()),
    {
        RayTelemetryBridge::with_config(TelemetryConfig::default())
    }

    /// Create a new telemetry bridge with custom configuration
    pub fn with_config(config: TelemetryConfig) -> (r: Self)
        ensures
            r.fresh(config),
    {
        RayTelemetryBridge {
            config,
            is_running: false,
            kill_triggered: false,
            violation_count: 0,
            violations: Vec::new(),
            health_status: ClusterHealth::Healthy,
        }
    }

    /// Start the telemetry monitoring with no violation on record; false where it
    /// runs already
    pub fn start(&mut self) -> (started: bool)
        ensures
            started == !old(self).is_running,
            final(self).violations@ == (if started {
                Seq::<MemoryViolation>::empty()
            } else {
                old(self).violations@
            }),
            *final(self) == (RayTelemetryBridge {
                is_running: true,
                violations: final(self).violations,
                ..*old(self)
            }),
    {
        if self.is_running {
            return false;
        }
        self.is_running = true;
        self.violations.clear();
        true
    }

    /// Whether the monitoring loop goes on
    pub fn should_poll(&self) -> (r: bool)
        ensures
            r == (self.is_running && !self.kill_triggered),
    {
        self.is_running && !self.kill_triggered
    }

    /// The violation that a failed cluster gives at a time.
    pub open spec fn is_violation(
        &self,
        v: MemoryViolation,
        snapshot: TelemetrySnapshot,
        now_ns: u64,
    ) -> bool {
        &&& v.worker_id@ == "cluster"@
        &&& v.timestamp_ns == now_ns
        &&& v.memory_used_kb == snapshot.memory_used_kb
        &&& v.memory_limit_kb == snapshot.memory_limit_kb
        &&& v.violation_count == self.violation_count % 0x1_0000_0000
    }

    /// Takes a snapshot of the cluster: its health, and where it has failed a
    /// violation. Too many violations within the window trigger the kill.
    pub fn observe(&mut self, snapshot: TelemetrySnapshot, now_ns: u64) -> (r: Observation)
        ensures
            ({
                let health = health_at(
                    old(self).config,
                    snapshot.memory_used_kb,
                    snapshot.memory_limit_kb,
                );
                let failed = health == ClusterHealth::Failed;
                let recent = recent_count(
                    final(self).violations@,
                    now_ns,
                    old(self).config.violation_window_seconds * 1_000_000_000,
                );
                let kill = failed && recent >= old(self).config.max_violations_before_kill;
                &&& r == (Observation {
                    health,
                    health_changed: health != snapshot.cluster_health,
                    violation: failed,
                    kill,
                })
                &&& if failed {
                    &&& final(self).violations@.len() == old(self).violations@.len() + 1
                    &&& final(self).violations@.drop_last() == old(self).violations@
                    &&& old(self).is_violation(final(self).violations@.last(), snapshot, now_ns)
                    &&& final(self).violation_count == old(self).violation_count.wrapping_add(1)
                } else {
                    &&& final(self).violations@ == old(self).violations@
                    &&& final(self).violation_count == old(self).violation_count
                }
                &&& final(self).kill_triggered == (old(self).kill_triggered || kill)
                &&& final(self).health_status == health
            }),
            final(self).config == old(self).config,
            final(self).is_running == old(self).is_running,
    {
        let used: u64 = snapshot.memory_used_kb;
        let limit: u64 = snapshot.memory_limit_kb;
        let health: ClusterHealth = if reaches_part(used, limit, self.config.kill_threshold) {
            ClusterHealth::Failed
        } else if reaches_part(used, limit, self.config.critical_threshold) {
            ClusterHealth::Critical
        } else if reaches_part(used, limit, self.config.warning_threshold) {
            ClusterHealth::Warning
        } else {
            ClusterHealth::Healthy
        };
        let mut kill: bool = false;
        if health == ClusterHealth::Failed {
            let ghost before = self.violations@;
            self.violations.push(
                MemoryViolation {
                    worker_id: "cluster".to_owned(),
                    timestamp_ns: now_ns,
                    memory_used_kb: used,
                    memory_limit_kb: limit,
                    violation_count: (self.violation_count % 0x1_0000_0000) as u32,
                },
            );
            assert(self.violations@.drop_last() =~= before);
            self.violation_count = self.violation_count.wrapping_add(1);
            let recent: usize = self.count_recent(now_ns);
            kill = recent as u64 >= self.config.max_violations_before_kill as u64;
            if kill {
                self.kill_triggered = true;
            }
        }
        self.health_status = health;
        Observation {
            health,
            health_changed: health != snapshot.cluster_health,
            violation: health == ClusterHealth::Failed,
            kill,
        }
    }

    fn count_recent(&self, now_ns: u64) -> (r: usize)
        ensures
            r == recent_count(
                self.violations@,
                now_ns,
                self.config.violation_window_seconds * 1_000_000_000,
            ),
    {
        let window_ns: u128 = self.config.violation_window_seconds as u128 * 1_000_000_000;
        let mut count: usize = 0;
        let mut i: usize = 0;
        assert(self.violations@.subrange(0, 0) =~= Seq::<MemoryViolation>::empty());
        while i < self.violations.len()
            invariant
                i <= self.violations.len(),
                count <= i,
                window_ns == self.config.violation_window_seconds * 1_000_000_000,
                count == recent_count(
                    self.violations@.subrange(0, i as int),
                    now_ns,
                    window_ns as int,
                ),
            decreases self.violations.len() - i,
        {
            proof {
                let next = self.violations@.subrange(0, i + 1);
                assert(next.drop_last() =~= self.violations@.subrange(0, i as int));
                assert(next.last() == self.violations@[i as int]);
            }
            let t: u64 = self.violations[i].timestamp_ns;
            if (now_ns.saturating_sub(t) as u128) < window_ns {
                count = count + 1;
            }
            i = i + 1;
        }
        assert(self.violations@.subrange(0, i as int) =~= self.violations@);
        count
    }

    /// Stop the telemetry monitoring
    pub fn stop(&mut self)
        ensures
            *final(self) == (RayTelemetryBridge { is_running: false, ..*old(self) }),
    {
        self.is_running = false;
    }

    /// Check if the KILL protocol has been triggered
    pub fn is_kill_triggered(&self) -> (r: bool)
        ensures
            r == self.kill_triggered,
    {
        self.kill_triggered
    }

    /// Manually trigger the KILL protocol
    pub fn trigger_kill(&mut self)
        ensures
            *final(self) == (RayTelemetryBridge { kill_triggered: true, ..*old(self) }),
    {
        self.kill_triggered = true;
    }

    /// Get current telemetry snapshot
    pub fn get_snapshot(&self, now_ns: u64) -> (r: TelemetrySnapshot)
        ensures
            r == (TelemetrySnapshot {
                timestamp_ns: now_ns,
                cluster_health: self.health_status,
                total_workers: 0,
                active_tasks: 0,
                memory_used_kb: 0,
                memory_limit_kb: self.config.global_memory_limit_kb,
                cpu_utilization: Ratio { num: 0, den: 1 },
                violations_last_hour: (self.violation_count % 0x1_0000_0000) as u32,
            }),
    {
        TelemetrySnapshot {
            timestamp_ns: now_ns,
            cluster_health: self.health_status,
            total_workers: 0,
            active_tasks: 0,
            memory_used_kb: 0,
            memory_limit_kb: self.config.global_memory_limit_kb,
            cpu_utilization: Ratio { num: 0, den: 1 },
            violations_last_hour: (self.violation_count % 0x1_0000_0000) as u32,
        }
    }

    /// Get cluster health status
    pub fn get_health(&self) -> (r: ClusterHealth)
        ensures
            r == self.health_status,
    {
        self.health_status
    }
}

/// System memory information, in kibibytes
#[derive(Debug, Clone, Copy, PartialEq, Eq, Structural)]
pub struct SystemMemory {
    pub total_kb: u64,
    pub used_kb: u64,
}

/// Whether a character separates words: the white space of Unicode.
pub open spec fn is_space(c: char) -> bool {
    let u = c as u32;
    9 <= u <= 13 || u == 0x20 || u == 0x85 || u == 0xA0 || u == 0x1680 || 0x2000 <= u <= 0x200A || u
        == 0x2028 || u == 0x2029 || u == 0x202F || u == 0x205F || u == 0x3000
}

fn separates(c: char) -> (r: bool)
    ensures
        r == is_space(c),
{
    let u: u32 = c as u32;
    (9 <= u && u <= 13) || u == 0x20 || u == 0x85 || u == 0xA0 || u == 0x1680 || (0x2000 <= u && u
        <= 0x200A) || u == 0x2028 || u == 0x2029 || u == 0x202F || u == 0x205F || u == 0x3000
}

/// The first place from `i` on, before `end`, that is a space or is none.
pub open spec fn scan(s: Seq<char>, i: int, end: int, space: bool) -> int
    decreases end - i,
{
    if i >= end {
        end
    } else if is_space(s[i]) == space {
        i
    } else {
        scan(s, i + 1, end, space)
    }
}

/// Where the word number `n` of a stretch of text begins; its end where it has
/// fewer words.
pub open spec fn word_start(s: Seq<char>, from: int, end: int, n: nat) -> int
    decreases n,
{
    if n == 0 {
        scan(s, from, end, false)
    } else {
        scan(s, scan(s, word_start(s, from, end, (n - 1) as nat), end, true), end, false)
    }
}

/// The word number `n` of a stretch of text, where it has as many.
pub open spec fn word_at(s: Seq<char>, from: int, end: int, n: nat) -> Option<Seq<char>> {
    let a = word_start(s, from, end, n);
    let b = scan(s, a, end, true);
    if a < b {
        Some(s.subrange(a, b))
    } else {
        None
    }
}

/// Where the line that begins at a place ends.
pub open spec fn line_end(s: Seq<char>, i: int) -> int
    decreases s.len() - i,
{
    if i >= s.len() || s[i] == '\n' {
        i
    } else {
        line_end(s, i + 1)
    }
}

/// Whether a line begins with a label.
pub open spec fn labelled(s: Seq<char>, from: int, end: int, label: Seq<char>) -> bool {
    from + label.len() <= end && s.subrange(from, from + label.len()) == label
}

/// The figure that a line gives: its second word, or a zero.
pub open spec fn figure(s: Seq<char>, from: int, end: int) -> Seq<char> {
    match word_at(s, from, end, 1) {
        Some(w) => w,
        None => "0"@,
    }
}

/// The total and available memory that the lines from a place on give, where
/// earlier lines gave others: later lines replace earlier ones.
pub open spec fn figures(s: Seq<char>, i: int, total: Seq<char>, available: Seq<char>) -> (
    Seq<char>,
    Seq<char>,
)
    decreases s.len() + 1 - i,
{
    if i >= s.len() {
        (total, available)
    } else {
        let end = line_end(s, i);
        if !(i <= end <= s.len()) {
            (total, available)
        } else if labelled(s, i, end, "MemTotal:"@) {
            figures(s, end + 1, figure(s, i, end), available)
        } else if labelled(s, i, end, "MemAvailable:"@) {
            figures(s, end + 1, total, figure(s, i, end))
        } else {
            figures(s, end + 1, total, available)
        }
    }
}

fn characters(s: &str) -> (r: Vec<char>)
    ensures
        r@ == s@,
{
    let mut out: Vec<char> = Vec::new();
    for c in iter: s.chars()
        invariant
            iter.seq() == s@,
            out@ == s@.subrange(0, iter.index() as int),
    {
        out.push(c);
        assert(out@ =~= s@.subrange(0, iter.index() + 1));
    }
    assert(out@ =~= s@);
    out
}

fn scan_to(s: &Vec<char>, from: usize, end: usize, space: bool) -> (r: usize)
    requires
        from <= end <= s.len(),
    ensures
        r == scan(s@, from as int, end as int, space),
        from <= r <= end,
{
    let mut i: usize = from;
    while i < end
        invariant
            from <= i <= end,
            end <= s.len(),
            scan(s@, from as int, end as int, space) == scan(s@, i as int, end as int, space),
        decreases end - i,
    {
        if separates(s[i]) == space {
            return i;
        }
        i = i + 1;
    }
    i
}

fn start_of_word(s: &Vec<char>, from: usize, end: usize, n: usize) -> (r: usize)
    requires
        from <= end <= s.len(),
    ensures
        r == word_start(s@, from as int, end as int, n as nat),
        from <= r <= end,
    decreases n,
{
    if n == 0 {
        scan_to(s, from, end, false)
    } else {
        let before: usize = start_of_word(s, from, end, n - 1);
        let gap: usize = scan_to(s, before, end, true);
        scan_to(s, gap, end, false)
    }
}

fn read_word(content: &str, s: &Vec<char>, from: usize, end: usize, n: usize) -> (r: Option<String>)
    requires
        content@ == s@,
        from <= end <= s.len(),
    ensures
        match r {
            Some(w) => word_at(s@, from as int, end as int, n as nat) == Some(w@),
            None => word_at(s@, from as int, end as int, n as nat) is None,
        },
{
    let a: usize = start_of_word(s, from, end, n);
    let b: usize = scan_to(s, a, end, true);
    if a < b {
        Some(content.substring_char(a, b).to_owned())
    } else {
        None
    }
}

fn find_line_end(s: &Vec<char>, from: usize) -> (r: usize)
    requires
        from <= s.len(),
    ensures
        r == line_end(s@, from as int),
        from <= r <= s.len(),
{
    let mut i: usize = from;
    while i < s.len() && s[i] != '\n'
        invariant
            from <= i <= s.len(),
            line_end(s@, from as int) == line_end(s@, i as int),
        decreases s.len() - i,
    {
        i = i + 1;
    }
    i
}

fn has_label(s: &Vec<char>, from: usize, end: usize, label: &Vec<char>) -> (r: bool)
    requires
        from <= end <= s.len(),
    ensures
        r == labelled(s@, from as int, end as int, label@),
{
    let n: usize = label.len();
    if n > end - from {
        return false;
    }
    let mut k: usize = 0;
    while k < n
        invariant
            k <= n,
            n == label.len(),
            from + n <= end,
            end <= s.len(),
            forall|j: int| 0 <= j < k ==> s@[from + j] == #[trigger] label@[j],
        decreases n - k,
    {
        if s[from + k] != label[k] {
            assert(s@.subrange(from as int, from + n)[k as int] != label@[k as int]);
            return false;
        }
        k = k + 1;
    }
    assert(s@.subrange(from as int, from + n) =~= label@);
    true
}

fn read_figure(content: &str, s: &Vec<char>, from: usize, end: usize) -> (r: String)
    requires
        content@ == s@,
        from <= end <= s.len(),
    ensures
        r@ == figure(s@, from as int, end as int),
{
    match read_word(content, s, from, end, 1) {
        Some(w) => w,
        None => "0".to_owned(),
    }
}

/// The words that give the total and the available memory in the text of
/// `/proc/meminfo`, in kibibytes; a zero where it has no such line
pub fn meminfo_words(content: &str) -> (r: (String, String))
    ensures
        (r.0@, r.1@) == figures(content@, 0, "0"@, "0"@),
{
    let s: Vec<char> = characters(content);
    let total_label: Vec<char> = characters("MemTotal:");
    let available_label: Vec<char> = characters("MemAvailable:");
    let mut total: String = "0".to_owned();
    let mut available: String = "0".to_owned();
    let mut i: usize = 0;
    while i < s.len()
        invariant
            i <= s.len(),
            s@ == content@,
            total_label@ == "MemTotal:"@,
            available_label@ == "MemAvailable:"@,
            figures(s@, 0, "0"@, "0"@) == figures(s@, i as int, total@, available@),
        decreases s.len() - i,
    {
        let end: usize = find_line_end(&s, i);
        if has_label(&s, i, end, &total_label) {
            total = read_figure(content, &s, i, end);
        } else if has_label(&s, i, end, &available_label) {
            available = read_figure(content, &s, i, end);
        }
        if end == s.len() {
            assert(figures(s@, end + 1, total@, available@) == (total@, available@));
            assert(figures(s@, end as int, total@, available@) == (total@, available@));
            i = s.len();
        } else {
            i = end + 1;
        }
    }
    (total, available)
}

/// The first two words of a text, which give the total and the free memory in
/// kibibytes; none where it has fewer
pub fn leading_words(content: &str) -> (r: Option<(String, String)>)
    ensures
        ({
            let first = word_at(content@, 0, content@.len() as int, 0);
            let second = word_at(content@, 0, content@.len() as int, 1);
            match r {
                Some((a, b)) => first == Some(a@) && second == Some(b@),
                None => first is None || second is None,
            }
        }),
{
    let s: Vec<char> = characters(content);
    match read_word(content, &s, 0, s.len(), 0) {
        Some(a) => match read_word(content, &s, 0, s.len(), 1) {
            Some(b) => Some((a, b)),
            None => None,
        },
        None => None,
    }
}

/// The memory in use where so much of a total is free, never less than nothing
pub fn memory_of(total_kb: u64, free_kb: u64) -> (r: SystemMemory)
    ensures
        r == (SystemMemory {
            total_kb,
            used_kb: math::max_int(total_kb - free_kb, 0) as u64,
        }),
{
    SystemMemory { total_kb, used_kb: total_kb.saturating_sub(free_kb) }
}

/// The figures where the system gives none
pub fn default_memory() -> (r: SystemMemory)
    ensures
        r == (SystemMemory { total_kb: 8_388_608, used_kb: 4_194_304 }),
{
    SystemMemory { total_kb: 8 * KB_PER_GB, used_kb: 4 * KB_PER_GB }
}

/// The snapshot that system figures give
pub fn poll_ray_cluster(memory: SystemMemory, cpu_utilization: Ratio, now_ns: u64) -> (r:
    TelemetrySnapshot)
    ensures
        r == (TelemetrySnapshot {
            timestamp_ns: now_ns,
            cluster_health: ClusterHealth::Healthy,
            total_workers: 1,
            active_tasks: 0,
            memory_used_kb: memory.used_kb,
            memory_limit_kb: memory.total_kb,
            cpu_utilization,
            violations_last_hour: 0,
        }),
{
    TelemetrySnapshot {
        timestamp_ns: now_ns,
        cluster_health: ClusterHealth::Healthy,
        total_workers: 1,
        active_tasks: 0,
        memory_used_kb: memory.used_kb,
        memory_limit_kb: memory.total_kb,
        cpu_utilization,
        violations_last_hour: 0,
    }
}

/// Higher memory use never means better health, where the thresholds rise.
pub proof fn law_health_monotone(config: TelemetryConfig, a: u64, b: u64, limit: u64)
    requires
        a <= b,
        limit > 0,
    ensures
        health_at(config, a, limit) == ClusterHealth::Failed ==> health_at(config, b, limit)
            == ClusterHealth::Failed,
        health_at(config, b, limit) == ClusterHealth::Healthy ==> health_at(config, a, limit)
            == ClusterHealth::Healthy,
{
    lemma_reaches_monotone(a, b, limit, config.kill_threshold);
    lemma_reaches_monotone(a, b, limit, config.critical_threshold);
    lemma_reaches_monotone(a, b, limit, config.warning_threshold);
}

proof fn lemma_reaches_monotone(a: u64, b: u64, limit: u64, t: Ratio)
    requires
        a <= b,
        limit > 0,
    ensures
        reaches(a, limit, t) ==> reaches(b, limit, t),
{
    let (x, y, d) = (a as int, b as int, t.den as int);
    assert(x * d <= y * d) by (nonlinear_arith)
        requires
            x <= y,
            0 <= d,
    ;
}

/// Memory reaches a threshold where the share of the limit that is used is at
/// least the threshold.
pub proof fn law_memory_reaches_threshold(used: u64, limit: u64, threshold: Ratio)
    requires
        limit > 0,
    ensures
        reaches(used, limit, threshold) <==> used * threshold.den - threshold.num * limit >= 0,
        !reaches(0, 0, threshold),
{
}

/// The health is that of the highest threshold that is reached: the one to kill
/// at first, then the critical one, then the warning.
pub proof fn law_health_by_threshold(config: TelemetryConfig, used: u64, limit: u64)
    ensures
        ({
            let h = health_at(config, used, limit);
            let (kill, critical, warning) = (
                reaches(used, limit, config.kill_threshold),
                reaches(used, limit, config.critical_threshold),
                reaches(used, limit, config.warning_threshold),
            );
            &&& h == ClusterHealth::Failed <==> kill
            &&& h == ClusterHealth::Critical <==> critical && !kill
            &&& h == ClusterHealth::Warning <==> warning && !critical && !kill
            &&& h == ClusterHealth::Healthy <==> !warning && !critical && !kill
        }),
{
}

/// The standard limits: eight gibibytes for all and four for a worker, with a
/// warning at eighty-five hundredths, critical at ninety-five, and an end at the
/// limit after three violations in five minutes.
pub proof fn law_standard_limits()
    ensures
        ({
            let c = standard_config();
            &&& c.global_memory_limit_kb == 8 * 1024 * 1024
            &&& c.worker_memory_limit_kb == 4 * 1024 * 1024
            &&& c.warning_threshold.num * 100 == 85 * c.warning_threshold.den
            &&& c.critical_threshold.num * 100 == 95 * c.critical_threshold.den
            &&& c.kill_threshold.num == c.kill_threshold.den
            &&& c.violation_window_seconds == 5 * 60
            &&& c.max_violations_before_kill == 3
            &&& c.polling_interval_ms == 1000
        }),
{
}

/// Violations count while the window since them has not passed, each once.
pub proof fn law_recent_violations_count(
    s: Seq<MemoryViolation>,
    v: MemoryViolation,
    now_ns: u64,
    window_ns: int,
)
    requires
        window_ns > 0,
    ensures
        recent_count(Seq::<MemoryViolation>::empty(), now_ns, window_ns) == 0,
        recent_count(s.push(v), now_ns, window_ns) == recent_count(s, now_ns, window_ns) + (if now_ns
            < v.timestamp_ns + window_ns {
            1nat
        } else {
            0
        }),
{
    assert(s.push(v).drop_last() =~= s);
}

proof fn lemma_scan(s: Seq<char>, i: int, end: int, space: bool)
    requires
        0 <= i <= end <= s.len(),
    ensures
        i <= scan(s, i, end, space) <= end,
        scan(s, i, end, space) < end ==> is_space(s[scan(s, i, end, space)]) == space,
        forall|k: int| i <= k < scan(s, i, end, space) ==> is_space(#[trigger] s[k]) != space,
    decreases end - i,
{
    if i < end && is_space(s[i]) != space {
        lemma_scan(s, i + 1, end, space);
    }
}

proof fn lemma_word_start(s: Seq<char>, from: int, end: int, n: nat)
    requires
        0 <= from <= end <= s.len(),
    ensures
        from <= word_start(s, from, end, n) <= end,
        word_start(s, from, end, n) < end ==> !is_space(s[word_start(s, from, end, n)]),
    decreases n,
{
    if n == 0 {
        lemma_scan(s, from, end, false);
    } else {
        lemma_word_start(s, from, end, (n - 1) as nat);
        let a = word_start(s, from, end, (n - 1) as nat);
        lemma_scan(s, a, end, true);
        lemma_scan(s, scan(s, a, end, true), end, false);
    }
}

/// The words of a stretch of text are what stands between its spaces: the first
/// comes after nothing but spaces, each next one after the last with nothing
/// but spaces between, and a word ends at a space or at the end.
pub proof fn law_words_between_spaces(s: Seq<char>, from: int, end: int, n: nat)
    requires
        0 <= from <= end <= s.len(),
    ensures
        word_at(s, from, end, n) matches Some(w) ==> {
            let a = word_start(s, from, end, n);
            let b = a + w.len();
            &&& from <= a < b <= end
            &&& w == s.subrange(a, b)
            &&& forall|k: int| a <= k < b ==> !is_space(#[trigger] s[k])
            &&& b == end || is_space(s[b])
            &&& forall|k: int| b <= k < word_start(s, from, end, n + 1) ==> is_space(
                #[trigger] s[k],
            )
        },
        forall|k: int| from <= k < word_start(s, from, end, 0) ==> is_space(#[trigger] s[k]),
        word_at(s, from, end, n) is None <==> word_start(s, from, end, n) == end,
{
    lemma_scan(s, from, end, false);
    lemma_word_start(s, from, end, n);
    let a = word_start(s, from, end, n);
    lemma_scan(s, a, end, true);
    let b = scan(s, a, end, true);
    lemma_scan(s, b, end, false);
    if a < end {
        assert(!is_space(s[a]));
        assert(b > a);
    }
}

/// The spaces are those of Unicode: the common ones among them, and no letter
/// or digit.
pub proof fn law_common_spaces()
    ensures
        is_space(' ') && is_space('\t') && is_space('\n') && is_space('\r'),
        !is_space('0') && !is_space('9') && !is_space('a') && !is_space('z') && !is_space('A')
            && !is_space(':') && !is_space('.'),
{
}

/// A line ends at the next line feed, or with the text.
pub proof fn law_line_ends_at_feed(s: Seq<char>, i: int)
    requires
        0 <= i <= s.len(),
    ensures
        i <= line_end(s, i) <= s.len(),
        line_end(s, i) < s.len() ==> s[line_end(s, i)] == '\n',
        forall|k: int| i <= k < line_end(s, i) ==> #[trigger] s[k] != '\n',
    decreases s.len() - i,
{
    if i < s.len() && s[i] != '\n' {
        law_line_ends_at_feed(s, i + 1);
    }
}

/// A line that begins with the label of the total gives the total, one with the
/// label of what is available gives that, each by its second word, and any
/// other line gives nothing; later lines replace earlier ones.
pub proof fn law_lines_give_figures(
    s: Seq<char>,
    i: int,
    total: Seq<char>,
    available: Seq<char>,
)
    requires
        0 <= i < s.len(),
    ensures
        ({
            let end = line_end(s, i);
            let line = s.subrange(i, end);
            let value = match word_at(s, i, end, 1) {
                Some(w) => w,
                None => "0"@,
            };
            let is_total = "MemTotal:"@.is_prefix_of(line);
            let is_available = "MemAvailable:"@.is_prefix_of(line);
            &&& is_total ==> figures(s, i, total, available) == figures(
                s,
                end + 1,
                value,
                available,
            )
            &&& is_available && !is_total ==> figures(s, i, total, available) == figures(
                s,
                end + 1,
                total,
                value,
            )
            &&& !is_total && !is_available ==> figures(s, i, total, available) == figures(
                s,
                end + 1,
                total,
                available,
            )
        }),
{
    law_line_ends_at_feed(s, i);
    let end = line_end(s, i);
    let line = s.subrange(i, end);
    lemma_labelled(s, i, end, "MemTotal:"@);
    lemma_labelled(s, i, end, "MemAvailable:"@);
}

proof fn lemma_labelled(s: Seq<char>, from: int, end: int, label: Seq<char>)
    requires
        0 <= from <= end <= s.len(),
    ensures
        labelled(s, from, end, label) == label.is_prefix_of(s.subrange(from, end)),
{
    let line = s.subrange(from, end);
    if from + label.len() <= end {
        assert(line.subrange(0, label.len() as int) =~= s.subrange(from, from + label.len()));
    }
}

/// A violation tells the use and the limit of the moment, of the whole cluster.
pub proof fn law_violation_tells_the_moment(
    b: RayTelemetryBridge,
    v: MemoryViolation,
    snapshot: TelemetrySnapshot,
    now_ns: u64,
)
    requires
        b.is_violation(v, snapshot, now_ns),
    ensures
        v.timestamp_ns == now_ns,
        v.memory_used_kb == snapshot.memory_used_kb,
        v.memory_limit_kb == snapshot.memory_limit_kb,
        v.worker_id@ == "cluster"@,
        b.violation_count <= u32::MAX ==> v.violation_count == b.violation_count,
{
}

} // verus!
