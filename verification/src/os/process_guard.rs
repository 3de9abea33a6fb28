//! Watch over the processes of a trading system: who may run, and what happens
//! when someone else does.
use crate::text;
use crate::text::{append_u64, same_text};
use crossbeam_channel::{bounded, Receiver, Sender, TrySendError};
use std::collections::HashSet;
use vstd::prelude::*;
use vstd::string::*;

verus! {

broadcast use vstd::std_specs::hash::group_hash_axioms;

/// Maximum number of authorized child processes
pub const MAX_AUTHORIZED_CHILDREN: usize = 50;

/// Polling interval for PID tree monitoring (microseconds)
pub const MONITOR_POLL_INTERVAL_US: u64 = 100;

/// Response timeout for a halt (nanoseconds)
pub const HALT_RESPONSE_TIMEOUT_NS: u64 = 500;

/// Registrations that can wait
pub const REGISTER_CAPACITY: usize = 1024;

/// Halt signals that can wait
pub const HALT_CAPACITY: usize = 16;

/// Scans over which the duration is averaged
pub const SCAN_WINDOW: usize = 100;

/// What came of an attempt to send on a channel.
#[derive(Debug, Clone, Copy, PartialEq, Eq, Structural)]
pub enum SendOutcome {
    Sent,
    Full,
    Disconnected,
}

/// Signal types for emergency halt
#[derive(Debug)]
pub enum HaltSignal {
    /// Unauthorized process detected
    UnauthorizedProcess { pid: u32, name: String },
    /// Process tree corruption detected
    TreeCorruption { details: String },
    /// Manual halt trigger
    ManualTrigger { reason: String },
}

/// Both ends of a bounded channel of registered process numbers. No end leaves
/// the struct, so nothing but the calls below changes what waits in it.
#[verifier::external_body]
pub struct PidChannel {
    tx: Sender<u32>,
    rx: Receiver<u32>,
}

/// The process numbers that wait in a channel, the oldest first.
pub uninterp spec fn waiting_pids(c: PidChannel) -> Seq<u32>;

/// How many process numbers can wait in a channel.
pub uninterp spec fn pid_capacity(c: PidChannel) -> nat;

/// `crossbeam_channel::bounded`: a new channel is empty and holds as many
/// messages as it was made for.
#[verifier::external_body]
fn pid_channel_new(capacity: usize) -> (c: PidChannel)
    requires
        0 < capacity <= 1024,
    ensures
        waiting_pids(c) == Seq::<u32>::empty(),
        pid_capacity(c) == capacity,
{
    let (tx, rx) = bounded(capacity);
    PidChannel { tx, rx }
}

/// `crossbeam_channel::Sender::try_send` on a channel whose receiver lives: a
/// message joins the end where there is room, and is refused as too many where
/// there is none.
#[verifier::external_body]
fn pid_channel_send(c: &mut PidChannel, pid: u32) -> (r: SendOutcome)
    ensures
        pid_capacity(*final(c)) == pid_capacity(*old(c)),
        waiting_pids(*old(c)).len() < pid_capacity(*old(c)) ==> r == SendOutcome::Sent
            && waiting_pids(*final(c)) == waiting_pids(*old(c)).push(pid),
        waiting_pids(*old(c)).len() >= pid_capacity(*old(c)) ==> r == SendOutcome::Full
            && waiting_pids(*final(c)) == waiting_pids(*old(c)),
{
    match c.tx.try_send(pid) {
        Ok(()) => SendOutcome::Sent,
        Err(TrySendError::Full(_)) => SendOutcome::Full,
        Err(TrySendError::Disconnected(_)) => SendOutcome::Disconnected,
    }
}

/// `crossbeam_channel::Receiver::try_recv`: takes the oldest message, none from
/// an empty channel.
#[verifier::external_body]
fn pid_channel_receive(c: &mut PidChannel) -> (r: Option<u32>)
    ensures
        pid_capacity(*final(c)) == pid_capacity(*old(c)),
        waiting_pids(*old(c)).len() == 0 ==> r is None && waiting_pids(*final(c))
            == waiting_pids(*old(c)),
        waiting_pids(*old(c)).len() > 0 ==> r == Some(waiting_pids(*old(c))[0])
            && waiting_pids(*final(c)) == waiting_pids(*old(c)).drop_first(),
{
    c.rx.try_recv().ok()
}

/// Both ends of a bounded channel of halt signals. No end leaves the struct, so
/// nothing but the calls below changes what waits in it.
#[verifier::external_body]
pub struct HaltChannel {
    tx: Sender<HaltSignal>,
    rx: Receiver<HaltSignal>,
}

/// The halt signals that wait in a channel, the oldest first.
pub uninterp spec fn waiting_signals(c: HaltChannel) -> Seq<HaltSignal>;

/// How many halt signals can wait in a channel.
pub uninterp spec fn signal_capacity(c: HaltChannel) -> nat;

/// `crossbeam_channel::bounded`: a new channel is empty and holds as many
/// messages as it was made for.
#[verifier::external_body]
fn halt_channel_new(capacity: usize) -> (c: HaltChannel)
    requires
        0 < capacity <= 1024,
    ensures
        waiting_signals(c) == Seq::<HaltSignal>::empty(),
        signal_capacity(c) == capacity,
{
    let (tx, rx) = bounded(capacity);
    HaltChannel { tx, rx }
}

/// `crossbeam_channel::Sender::try_send` on a channel whose receiver lives: a
/// message joins the end where there is room, and is refused as too many where
/// there is none.
#[verifier::external_body]
fn halt_channel_send(c: &mut HaltChannel, signal: HaltSignal) -> (r: SendOutcome)
    ensures
        signal_capacity(*final(c)) == signal_capacity(*old(c)),
        waiting_signals(*old(c)).len() < signal_capacity(*old(c)) ==> r == SendOutcome::Sent
            && waiting_signals(*final(c)) == waiting_signals(*old(c)).push(signal),
        waiting_signals(*old(c)).len() >= signal_capacity(*old(c)) ==> r == SendOutcome::Full
            && waiting_signals(*final(c)) == waiting_signals(*old(c)),
{
    match c.tx.try_send(signal) {
        Ok(()) => SendOutcome::Sent,
        Err(TrySendError::Full(_)) => SendOutcome::Full,
        Err(TrySendError::Disconnected(_)) => SendOutcome::Disconnected,
    }
}

/// `crossbeam_channel::Receiver::try_recv`: takes the oldest message, none from
/// an empty channel.
#[verifier::external_body]
fn halt_channel_receive(c: &mut HaltChannel) -> (r: Option<HaltSignal>)
    ensures
        signal_capacity(*final(c)) == signal_capacity(*old(c)),
        waiting_signals(*old(c)).len() == 0 ==> r is None && waiting_signals(*final(c))
            == waiting_signals(*old(c)),
        waiting_signals(*old(c)).len() > 0 ==> r == Some(waiting_signals(*old(c))[0])
            && waiting_signals(*final(c)) == waiting_signals(*old(c)).drop_first(),
{
    c.rx.try_recv().ok()
}

/// Statistics tracking for process monitoring
#[derive(Debug, Clone, Copy, PartialEq, Eq, Structural)]
pub struct ProcessGuardStats {
    /// Total scans performed
    pub scan_count: u64,
    /// Violations detected
    pub violations_detected: u64,
    /// False positives (access denied handled gracefully)
    pub access_denied_count: u64,
    /// Average scan duration (nanoseconds)
    pub avg_scan_duration_ns: u64,
    /// Last scan timestamp
    pub last_scan_ts: u64,
}

pub open spec fn no_scans() -> ProcessGuardStats {
    ProcessGuardStats {
        scan_count: 0,
        violations_detected: 0,
        access_denied_count: 0,
        avg_scan_duration_ns: 0,
        last_scan_ts: 0,
    }
}

impl Default for ProcessGuardStats {
    fn default() -> (r: Self)
        ensures
            r == no_scans(),
    {
        ProcessGuardStats {
            scan_count: 0,
            violations_detected: 0,
            access_denied_count: 0,
            avg_scan_duration_ns: 0,
            last_scan_ts: 0,
        }
    }
}

/// Error types for process guard operations
#[derive(Debug)]
pub enum ProcessGuardError {
    OpenProcessFailed { pid: u32, message: String },
    AccessDenied { pid: u32 },
    UnauthorizedProcess { pid: u32, name: String },
    TreeCorruption { details: String },
    ChannelError(String),
}

/// The text of an error.
pub open spec fn error_text(e: ProcessGuardError) -> Seq<char> {
    match e {
        ProcessGuardError::OpenProcessFailed { pid, message } => "Failed to open process "@
            + text::decimal(pid as nat) + ": "@ + message@,
        ProcessGuardError::AccessDenied { pid } => "Access denied for process "@ + text::decimal(
            pid as nat,
        ) + " - restricted system process"@,
        ProcessGuardError::UnauthorizedProcess { pid, name } =>
            "Unauthorized process detected: PID "@ + text::decimal(pid as nat) + ", Name "@ + name@,
        ProcessGuardError::TreeCorruption { details } => "Process tree corruption: "@ + details@,
        ProcessGuardError::ChannelError(message) => "Channel error: "@ + message@,
    }
}

impl ProcessGuardError {
    /// The text of the error
    pub fn message(&self) -> (r: String)
        ensures
            r@ == error_text(*self),
    {
        match self {
            ProcessGuardError::OpenProcessFailed { pid, message } => {
                let mut s: String = "Failed to open process ".to_owned();
                append_u64(&mut s, *pid as u64);
                s.append(": ");
                s.append(message.as_str());
                s
            },
            ProcessGuardError::AccessDenied { pid } => {
                let mut s: String = "Access denied for process ".to_owned();
                append_u64(&mut s, *pid as u64);
                s.append(" - restricted system process");
                s
            },
            ProcessGuardError::UnauthorizedProcess { pid, name } => {
                let mut s: String = "Unauthorized process detected: PID ".to_owned();
                append_u64(&mut s, *pid as u64);
                s.append(", Name ");
                s.append(name.as_str());
                s
            },
            ProcessGuardError::TreeCorruption { details } => {
                let mut s: String = "Process tree corruption: ".to_owned();
                s.append(details.as_str());
                s
            },
            ProcessGuardError::ChannelError(message) => {
                let mut s: String = "Channel error: ".to_owned();
                s.append(message.as_str());
                s
            },
        }
    }
}

/// What the system says of a process.
#[derive(Debug)]
pub enum ProcessProbe {
    /// The process may not be looked at
    Restricted,
    /// The process could not be opened, with the system's error number
    OpenFailed(u32),
    /// The process has no name that could be found out
    Unnamed,
    /// The file name of the program, without its extension
    Named(String),
}

/// A process and what the system says of it.
#[derive(Debug)]
pub struct ProbedProcess {
    pub pid: u32,
    pub probe: ProcessProbe,
}

/// Authorized process names
pub open spec fn name_authorized(name: Seq<char>) -> bool {
    name == "nautilus_core"@ || name == "ray_worker"@ || name == "python"@ || name == "pythonw"@
        || name == "conhost"@ || name == "dllhost"@
}

/// Whether a process name is authorized
pub fn is_authorized_name(name: &str) -> (r: bool)
    ensures
        r == name_authorized(name@),
{
    same_text(name, "nautilus_core") || same_text(name, "ray_worker") || same_text(name, "python")
        || same_text(name, "pythonw") || same_text(name, "conhost") || same_text(name, "dllhost")
}

/// Whether a process passes: a restricted or unnamed one is passed over.
pub open spec fn passes(authorized: Set<u32>, p: ProbedProcess) -> bool {
    match p.probe {
        ProcessProbe::Restricted => true,
        ProcessProbe::OpenFailed(_) => false,
        ProcessProbe::Unnamed => true,
        ProcessProbe::Named(name) => name_authorized(name@) || authorized.contains(p.pid),
    }
}

/// Whether an error is the one that a process that does not pass gives.
pub open spec fn is_error_of(e: ProcessGuardError, p: ProbedProcess) -> bool {
    match p.probe {
        ProcessProbe::OpenFailed(code) => e matches ProcessGuardError::OpenProcessFailed {
            pid,
            message,
        } && pid == p.pid && message@ == "GetLastError: "@ + text::decimal(code as nat),
        ProcessProbe::Named(n) => e matches ProcessGuardError::UnauthorizedProcess { pid, name }
            && pid == p.pid && name@ == n@,
        _ => false,
    }
}

/// The sum of durations.
pub open spec fn duration_sum(s: Seq<u64>) -> int
    decreases s.len(),
{
    if s.len() == 0 {
        0
    } else {
        duration_sum(s.drop_last()) + s.last()
    }
}

/// The authorized processes once registered ones have joined them.
pub open spec fn with_registered(authorized: Set<u32>, registered: Seq<u32>) -> Set<u32> {
    authorized.union(registered.to_set())
}

proof fn lemma_with_one_more(authorized: Set<u32>, registered: Seq<u32>, pid: u32)
    ensures
        with_registered(authorized, registered.push(pid)) == with_registered(
            authorized,
            registered,
        ).insert(pid),
{
    let more = registered.push(pid);
    assert(more.last() == pid);
    assert forall|x: u32|
        more.to_set().contains(x) == (registered.to_set().contains(x) || x == pid) by {
        if registered.contains(x) {
            let i = choose|i: int| 0 <= i < registered.len() && registered[i] == x;
            assert(more[i] == x);
        }
        if more.contains(x) && x != pid {
            let i = choose|i: int| 0 <= i < more.len() && more[i] == x;
            assert(registered[i] == x);
        }
    }
    assert(with_registered(authorized, more) =~= with_registered(authorized, registered).insert(
        pid,
    ));
}

/// The waiting halt signals after a scan: an unauthorized process adds one
/// where there is room.
pub open spec fn signals_after(
    waiting: Seq<HaltSignal>,
    outcome: Result<(), ProcessGuardError>,
) -> Seq<HaltSignal> {
    match outcome {
        Err(ProcessGuardError::UnauthorizedProcess { pid, name }) if waiting.len()
            < HALT_CAPACITY => waiting.push(HaltSignal::UnauthorizedProcess { pid, name }),
        _ => waiting,
    }
}

/// Durations with one more, of which the last ones are kept.
pub open spec fn window_after(s: Seq<u64>, d: u64) -> Seq<u64> {
    let t = s.push(d);
    if t.len() > SCAN_WINDOW {
        t.remove(0)
    } else {
        t
    }
}

/// ProcessGuard - Main watchdog structure
pub struct ProcessGuard {
    /// Parent PID that spawned this guard
    pub parent_pid: u32,
    /// Set of authorized child PIDs
    pub authorized_children: HashSet<u32>,
    /// Channel for PID registration requests
    pub registrations: PidChannel,
    /// Channel for emergency halt signals
    pub halts: HaltChannel,
    /// Running flag
    pub running: bool,
    /// Statistics
    pub stats: ProcessGuardStats,
    /// Durations of the last scans
    pub scan_durations: Vec<u64>,
    /// Trading halt status
    pub trading_halted: bool,
    /// Timestamp of last security violation (nanoseconds)
    pub last_violation_ts: u64,
}

impl ProcessGuard {
    pub open spec fn wf(&self) -> bool {
        &&& self.scan_durations.len() <= SCAN_WINDOW
        &&& pid_capacity(self.registrations) == REGISTER_CAPACITY
        &&& self.pending().len() <= REGISTER_CAPACITY
        &&& signal_capacity(self.halts) == HALT_CAPACITY
        &&& self.signals().len() <= HALT_CAPACITY
    }

    /// The registrations that have not been taken yet, the oldest first.
    pub open spec fn pending(&self) -> Seq<u32> {
        waiting_pids(self.registrations)
    }

    /// The halt signals that wait to be taken, the oldest first.
    pub open spec fn signals(&self) -> Seq<HaltSignal> {
        waiting_signals(self.halts)
    }

    /// A guard that has seen nothing yet.
    pub open spec fn fresh(&self, parent_pid: u32) -> bool {
        &&& self.wf()
        &&& self.parent_pid == parent_pid
        &&& self.authorized_children@ == Set::<u32>::empty()
        &&& self.pending() == Seq::<u32>::empty()
        &&& self.signals() == Seq::<HaltSignal>::empty()
        &&& !self.running
        &&& self.stats == no_scans()
        &&& self.scan_durations.len() == 0
        &&& !self.trading_halted
        &&& self.last_violation_ts == 0
    }

    /// Create a new ProcessGuard instance
    pub fn new(parent_pid: u32) -> (r: Self)
        ensures
            r.fresh(parent_pid),
    {
        ProcessGuard {
            parent_pid,
            authorized_children: HashSet::new(),
            registrations: pid_channel_new(REGISTER_CAPACITY),
            halts: halt_channel_new(HALT_CAPACITY),
            running: false,
            stats: ProcessGuardStats::default(),
            scan_durations: Vec::new(),
            trading_halted: false,
            last_violation_ts: 0,
        }
    }

    /// What a registration is answered for each outcome of sending it.
    pub fn registration_answer(outcome: SendOutcome) -> (r: Result<(), ProcessGuardError>)
        ensures
            r is Ok <==> outcome == SendOutcome::Sent,
            r matches Err(e) ==> (e matches ProcessGuardError::ChannelError(m) && m@ == (if outcome
                == SendOutcome::Full {
                "sending on a full channel"@
            } else {
                "sending on a disconnected channel"@
            })),
    {
        match outcome {
            SendOutcome::Sent => Ok(()),
            SendOutcome::Full => Err(
                ProcessGuardError::ChannelError("sending on a full channel".to_owned()),
            ),
            SendOutcome::Disconnected => Err(
                ProcessGuardError::ChannelError("sending on a disconnected channel".to_owned()),
            ),
        }
    }

    /// Register an authorized child process; refused where as many
    /// registrations wait as the channel holds
    pub fn register_child(&mut self, pid: u32) -> (r: Result<(), ProcessGuardError>)
        requires
            old(self).wf(),
        ensures
            final(self).wf(),
            *final(self) == (ProcessGuard {
                registrations: final(self).registrations,
                ..*old(self)
            }),
            if old(self).pending().len() < REGISTER_CAPACITY {
                r is Ok && final(self).pending() == old(self).pending().push(pid)
            } else {
                &&& r matches Err(ProcessGuardError::ChannelError(m)) && m@
                    == "sending on a full channel"@
                &&& final(self).pending() == old(self).pending()
            },
    {
        let outcome: SendOutcome = pid_channel_send(&mut self.registrations, pid);
        ProcessGuard::registration_answer(outcome)
    }

    /// Takes a registered process into the set of authorized ones.
    pub fn authorize(&mut self, pid: u32)
        ensures
            final(self).authorized_children@ == old(self).authorized_children@.insert(pid),
            *final(self) == (ProcessGuard {
                authorized_children: final(self).authorized_children,
                ..*old(self)
            }),
    {
        let _ = self.authorized_children.insert(pid);
    }

    /// Process pending registrations: all that wait join the authorized
    /// processes, and are handed back in their order
    pub fn absorb_registrations(&mut self) -> (taken: Vec<u32>)
        requires
            old(self).wf(),
        ensures
            final(self).wf(),
            taken@ == old(self).pending(),
            final(self).pending() == Seq::<u32>::empty(),
            final(self).authorized_children@ == with_registered(
                old(self).authorized_children@,
                old(self).pending(),
            ),
            *final(self) == (ProcessGuard {
                authorized_children: final(self).authorized_children,
                registrations: final(self).registrations,
                ..*old(self)
            }),
    {
        let mut taken: Vec<u32> = Vec::new();
        assert(self.authorized_children@ =~= with_registered(
            old(self).authorized_children@,
            taken@,
        ));
        assert(taken@ + self.pending() =~= old(self).pending());
        loop
            invariant
                old(self).wf(),
                self.wf(),
                taken@ + self.pending() == old(self).pending(),
                self.authorized_children@ == with_registered(
                    old(self).authorized_children@,
                    taken@,
                ),
                *self == (ProcessGuard {
                    authorized_children: self.authorized_children,
                    registrations: self.registrations,
                    ..*old(self)
                }),
            decreases self.pending().len(),
        {
            let ghost waiting = self.pending();
            match pid_channel_receive(&mut self.registrations) {
                Some(pid) => {
                    let ghost before = taken@;
                    self.authorize(pid);
                    taken.push(pid);
                    proof {
                        assert(before + waiting =~= taken@ + self.pending());
                        lemma_with_one_more(old(self).authorized_children@, before, pid);
                    }
                },
                None => {
                    assert(taken@ + self.pending() =~= taken@);
                    assert(self.pending() =~= Seq::<u32>::empty());
                    return taken;
                },
            }
        }
    }

    /// Start monitoring; true where it was not running yet
    pub fn start(&mut self) -> (started: bool)
        ensures
            started == !old(self).running,
            *final(self) == (ProcessGuard { running: true, ..*old(self) }),
    {
        if self.running {
            return false;
        }
        self.running = true;
        true
    }

    /// Stop monitoring
    pub fn stop(&mut self)
        ensures
            *final(self) == (ProcessGuard { running: false, ..*old(self) }),
    {
        self.running = false;
    }

    /// Check if trading is halted due to security violation
    pub fn is_trading_halted(&self) -> (r: bool)
        ensures
            r == self.trading_halted,
    {
        self.trading_halted
    }

    /// Get timestamp of last violation
    pub fn last_violation_timestamp(&self) -> (r: u64)
        ensures
            r == self.last_violation_ts,
    {
        self.last_violation_ts
    }

    /// Get current statistics
    pub fn get_stats(&self) -> (r: ProcessGuardStats)
        ensures
            r == self.stats,
    {
        self.stats
    }

    fn judge(&self, p: &ProbedProcess) -> (r: Result<(), ProcessGuardError>)
        ensures
            r is Ok <==> passes(self.authorized_children@, *p),
            r matches Err(e) ==> is_error_of(e, *p),
    {
        match &p.probe {
            ProcessProbe::Restricted => Ok(()),
            ProcessProbe::OpenFailed(code) => {
                let mut message: String = "GetLastError: ".to_owned();
                append_u64(&mut message, *code as u64);
                Err(ProcessGuardError::OpenProcessFailed { pid: p.pid, message })
            },
            ProcessProbe::Unnamed => Ok(()),
            ProcessProbe::Named(name) => {
                if !is_authorized_name(name.as_str()) && !self.authorized_children.contains(
                    &p.pid,
                ) {
                    Err(ProcessGuardError::UnauthorizedProcess { pid: p.pid, name: name.clone() })
                } else {
                    Ok(())
                }
            },
        }
    }

    /// Scan processes for unauthorized ones: the error of the first that does
    /// not pass
    pub fn scan_pid_tree(&self, processes: &Vec<ProbedProcess>) -> (r: Result<
        (),
        ProcessGuardError,
    >)
        ensures
            match r {
                Ok(()) => forall|i: int|
                    0 <= i < processes.len() ==> passes(
                        self.authorized_children@,
                        #[trigger] processes@[i],
                    ),
                Err(e) => exists|i: int|
                    0 <= i < processes.len() && is_error_of(e, #[trigger] processes@[i]) && !passes(
                        self.authorized_children@,
                        processes@[i],
                    ) && forall|j: int|
                        0 <= j < i ==> passes(self.authorized_children@, #[trigger] processes@[j]),
            },
    {
        let mut i: usize = 0;
        while i < processes.len()
            invariant
                i <= processes.len(),
                forall|j: int|
                    0 <= j < i ==> passes(self.authorized_children@, #[trigger] processes@[j]),
            decreases processes.len() - i,
        {
            match self.judge(&processes[i]) {
                Ok(()) => {},
                Err(e) => {
                    return Err(e);
                },
            }
            i = i + 1;
        }
        Ok(())
    }

    /// The counters of a scan can be counted up.
    pub open spec fn counters_open(&self) -> bool {
        self.stats.scan_count < u64::MAX && self.stats.violations_detected < u64::MAX
            && self.stats.access_denied_count < u64::MAX
    }

    /// Takes the result of a scan: counts it, halts trading where an
    /// unauthorized process was found, and keeps the average duration. Returns
    /// whether trading was halted by it.
    pub fn record_scan(
        &mut self,
        outcome: Result<(), ProcessGuardError>,
        now_ns: u64,
        scan_duration_ns: u64,
    ) -> (halted: bool)
        requires
            old(self).wf(),
            old(self).counters_open(),
        ensures
            final(self).wf(),
            ({
                let violation = outcome matches Err(ProcessGuardError::UnauthorizedProcess {
                    pid,
                    name,
                });
                let denied = outcome matches Err(ProcessGuardError::AccessDenied { pid });
                let window = window_after(old(self).scan_durations@, scan_duration_ns);
                &&& halted == violation
                &&& final(self).trading_halted == (old(self).trading_halted || violation)
                &&& final(self).last_violation_ts == (if violation {
                    now_ns
                } else {
                    old(self).last_violation_ts
                })
                &&& final(self).scan_durations@ == window
                &&& final(self).stats == (ProcessGuardStats {
                    scan_count: (old(self).stats.scan_count + (if outcome is Ok {
                        1int
                    } else {
                        0
                    })) as u64,
                    violations_detected: (old(self).stats.violations_detected + (if violation {
                        1int
                    } else {
                        0
                    })) as u64,
                    access_denied_count: (old(self).stats.access_denied_count + (if denied {
                        1int
                    } else {
                        0
                    })) as u64,
                    avg_scan_duration_ns: (duration_sum(window) / (window.len() as int)) as u64,
                    last_scan_ts: now_ns,
                })
            }),
            final(self).parent_pid == old(self).parent_pid,
            final(self).authorized_children == old(self).authorized_children,
            final(self).running == old(self).running,
            final(self).registrations == old(self).registrations,
            final(self).signals() == signals_after(old(self).signals(), outcome),
    {
        let mut halted: bool = false;
        match outcome {
            Ok(()) => {
                self.stats.scan_count = self.stats.scan_count + 1;
            },
            Err(ProcessGuardError::UnauthorizedProcess { pid, name }) => {
                self.stats.violations_detected = self.stats.violations_detected + 1;
                self.last_violation_ts = now_ns;
                let _ = halt_channel_send(
                    &mut self.halts,
                    HaltSignal::UnauthorizedProcess { pid, name },
                );
                self.trading_halted = true;
                halted = true;
            },
            Err(ProcessGuardError::AccessDenied { pid: _ }) => {
                self.stats.access_denied_count = self.stats.access_denied_count + 1;
            },
            Err(_) => {},
        }
        self.scan_durations.push(scan_duration_ns);
        if self.scan_durations.len() > SCAN_WINDOW {
            let _ = self.scan_durations.remove(0);
        }
        self.stats.avg_scan_duration_ns = ProcessGuard::average(&self.scan_durations);
        self.stats.last_scan_ts = now_ns;
        halted
    }

    fn average(durations: &Vec<u64>) -> (r: u64)
        requires
            0 < durations.len() <= SCAN_WINDOW,
        ensures
            r == duration_sum(durations@) / (durations.len() as int),
    {
        let mut sum: u128 = 0;
        let mut i: usize = 0;
        assert(durations@.subrange(0, 0) =~= Seq::<u64>::empty());
        while i < durations.len()
            invariant
                i <= durations.len(),
                durations.len() <= SCAN_WINDOW,
                sum == duration_sum(durations@.subrange(0, i as int)),
                sum <= i * u64::MAX,
            decreases durations.len() - i,
        {
            proof {
                let next = durations@.subrange(0, i + 1);
                assert(next.drop_last() =~= durations@.subrange(0, i as int));
                assert(next.last() == durations@[i as int]);
            }
            sum = sum + durations[i] as u128;
            i = i + 1;
        }
        assert(durations@.subrange(0, i as int) =~= durations@);
        let n: u128 = durations.len() as u128;
        assert(sum / n <= u64::MAX) by (nonlinear_arith)
            requires
                sum <= n * u64::MAX,
                n > 0,
        ;
        (sum / n) as u64
    }

    /// Takes the oldest halt signal that waits
    pub fn next_halt_signal(&mut self) -> (r: Option<HaltSignal>)
        requires
            old(self).wf(),
        ensures
            final(self).wf(),
            *final(self) == (ProcessGuard { halts: final(self).halts, ..*old(self) }),
            if old(self).signals().len() == 0 {
                r is None && final(self).signals() == old(self).signals()
            } else {
                r == Some(old(self).signals()[0]) && final(self).signals()
                    == old(self).signals().drop_first()
            },
    {
        halt_channel_receive(&mut self.halts)
    }
}

/// Builder pattern for ProcessGuard configuration
pub struct ProcessGuardBuilder {
    pub parent_pid: Option<u32>,
    pub max_children: usize,
}

impl ProcessGuardBuilder {
    pub fn new() -> (r: Self)
        ensures
            r == (ProcessGuardBuilder { parent_pid: None, max_children: MAX_AUTHORIZED_CHILDREN }),
    {
        ProcessGuardBuilder { parent_pid: None, max_children: MAX_AUTHORIZED_CHILDREN }
    }

    pub fn parent_pid(self, pid: u32) -> (r: Self)
        ensures
            r == (ProcessGuardBuilder { parent_pid: Some(pid), ..self }),
    {
        ProcessGuardBuilder { parent_pid: Some(pid), max_children: self.max_children }
    }

    pub fn max_children(self, count: usize) -> (r: Self)
        ensures
            r == (ProcessGuardBuilder { max_children: count, ..self }),
    {
        ProcessGuardBuilder { parent_pid: self.parent_pid, max_children: count }
    }

    /// Builds a guard; `own_pid` is the parent where none was named
    pub fn build(self, own_pid: u32) -> (r: Result<ProcessGuard, ProcessGuardError>)
        ensures
            r matches Ok(g) && g.fresh(
                match self.parent_pid {
                    Some(pid) => pid,
                    None => own_pid,
                },
            ),
    {
        let pid: u32 = match self.parent_pid {
            Some(pid) => pid,
            None => own_pid,
        };
        Ok(ProcessGuard::new(pid))
    }
}

impl Default for ProcessGuardBuilder {
    fn default() -> (r: Self)
        ensures
            r == (ProcessGuardBuilder { parent_pid: None, max_children: MAX_AUTHORIZED_CHILDREN }),
    {
        ProcessGuardBuilder::new()
    }
}

/// An authorized process is never taken for an intruder, whatever its name.
pub proof fn law_authorized_passes(authorized: Set<u32>, p: ProbedProcess)
    requires
        authorized.contains(p.pid),
        !(p.probe is OpenFailed),
    ensures
        passes(authorized, p),
{
}

/// A child that was registered is authorized once the pending registrations
/// have been taken, and passes every scan that can look at it.
pub proof fn law_registered_child_passes(
    authorized: Set<u32>,
    pending: Seq<u32>,
    pid: u32,
    later: Seq<u32>,
    p: ProbedProcess,
)
    requires
        p.pid == pid,
        !(p.probe is OpenFailed),
    ensures
        with_registered(authorized, pending.push(pid) + later).contains(pid),
        passes(with_registered(authorized, pending.push(pid) + later), p),
{
    assert((pending.push(pid) + later)[pending.len() as int] == pid);
}

/// Taking registrations takes no authorization away.
pub proof fn law_authorization_lasts(authorized: Set<u32>, pending: Seq<u32>, pid: u32)
    requires
        authorized.contains(pid),
    ensures
        with_registered(authorized, pending).contains(pid),
{
}

/// An unauthorized process leaves a halt signal waiting, and its own where
/// there is room for it.
pub proof fn law_breach_leaves_signal(waiting: Seq<HaltSignal>, pid: u32, name: String)
    requires
        waiting.len() <= HALT_CAPACITY,
    ensures
        ({
            let outcome = Err::<(), ProcessGuardError>(
                ProcessGuardError::UnauthorizedProcess { pid, name },
            );
            let after = signals_after(waiting, outcome);
            &&& 0 < after.len() <= HALT_CAPACITY
            &&& waiting.is_prefix_of(after)
            &&& waiting.len() < HALT_CAPACITY ==> after.last() == (
            HaltSignal::UnauthorizedProcess { pid, name })
        }),
{
    let outcome = Err::<(), ProcessGuardError>(ProcessGuardError::UnauthorizedProcess { pid, name });
    let after = signals_after(waiting, outcome);
    assert(waiting =~= after.subrange(0, waiting.len() as int));
}

/// Processes with a known name or a registered number pass, as do those that
/// the system keeps to itself or that have no name; one that could not be
/// opened does not.
pub proof fn law_who_passes(authorized: Set<u32>, p: ProbedProcess)
    ensures
        p.probe is Restricted ==> passes(authorized, p),
        p.probe is Unnamed ==> passes(authorized, p),
        p.probe is OpenFailed ==> !passes(authorized, p),
        p.probe matches ProcessProbe::Named(name) ==> (passes(authorized, p) <==> authorized.contains(
            p.pid,
        ) || name@ == "nautilus_core"@ || name@ == "ray_worker"@ || name@ == "python"@ || name@
            == "pythonw"@ || name@ == "conhost"@ || name@ == "dllhost"@),
{
}

/// What goes wrong is told of the process that it happened to: one that failed
/// to open with the code of the system, and one that is not known with its name.
pub proof fn law_error_names_process(e: ProcessGuardError, p: ProbedProcess)
    requires
        is_error_of(e, p),
    ensures
        p.probe is OpenFailed || p.probe is Named,
        p.probe is OpenFailed ==> (e matches ProcessGuardError::OpenProcessFailed { pid, message }
            && pid == p.pid),
        p.probe is Named ==> (e matches ProcessGuardError::UnauthorizedProcess { pid, name } && pid
            == p.pid && name@ == p.probe->Named_0@),
{
}

/// Only a process that is not authorized leaves a signal, and none where the
/// signals are full.
pub proof fn law_other_outcomes_leave_no_signal(
    waiting: Seq<HaltSignal>,
    outcome: Result<(), ProcessGuardError>,
)
    ensures
        outcome is Ok ==> signals_after(waiting, outcome) == waiting,
        outcome matches Err(e) ==> (!(e is UnauthorizedProcess) ==> signals_after(waiting, outcome)
            == waiting),
        waiting.len() >= 16 ==> signals_after(waiting, outcome) == waiting,
{
}

/// Scan durations add up one by one, and the newest hundred are kept.
pub proof fn law_scan_durations(s: Seq<u64>, d: u64)
    requires
        s.len() <= 100,
    ensures
        duration_sum(Seq::<u64>::empty()) == 0,
        duration_sum(s.push(d)) == duration_sum(s) + d,
        window_after(s, d).last() == d,
        s.len() < 100 ==> window_after(s, d).drop_last() == s,
        s.len() == 100 ==> window_after(s, d).drop_last() == s.subrange(1, 100),
{
    assert(s.push(d).drop_last() =~= s);
    if s.len() == 100 {
        assert(window_after(s, d).drop_last() =~= s.subrange(1, 100));
    } else {
        assert(window_after(s, d).drop_last() =~= s);
    }
}

/// The text of an error begins with what went wrong.
pub proof fn law_error_texts(e: ProcessGuardError)
    ensures
        ({
            let t = error_text(e);
            &&& e matches ProcessGuardError::OpenProcessFailed { pid, message } ==> (
            "Failed to open process "@ + text::decimal(pid as nat)).is_prefix_of(t)
                && message@.is_suffix_of(t)
            &&& e matches ProcessGuardError::AccessDenied { pid } ==> (
            "Access denied for process "@ + text::decimal(pid as nat)).is_prefix_of(t)
            &&& e matches ProcessGuardError::UnauthorizedProcess { pid, name } ==> (
            "Unauthorized process detected: PID "@ + text::decimal(pid as nat)).is_prefix_of(t)
                && name@.is_suffix_of(t)
            &&& e matches ProcessGuardError::TreeCorruption { details } ==>
                "Process tree corruption: "@.is_prefix_of(t) && details@.is_suffix_of(t)
            &&& e matches ProcessGuardError::ChannelError(message) ==> "Channel error: "@.is_prefix_of(
                t,
            ) && message@.is_suffix_of(t)
        }),
{
    let t = error_text(e);
    match e {
        ProcessGuardError::OpenProcessFailed { pid, message } => {
            let h = "Failed to open process "@ + text::decimal(pid as nat);
            assert(h =~= t.subrange(0, h.len() as int));
            assert(message@ =~= t.subrange(t.len() - message@.len(), t.len() as int));
        },
        ProcessGuardError::AccessDenied { pid } => {
            let h = "Access denied for process "@ + text::decimal(pid as nat);
            assert(h =~= t.subrange(0, h.len() as int));
        },
        ProcessGuardError::UnauthorizedProcess { pid, name } => {
            let h = "Unauthorized process detected: PID "@ + text::decimal(pid as nat);
            assert(h =~= t.subrange(0, h.len() as int));
            assert(name@ =~= t.subrange(t.len() - name@.len(), t.len() as int));
        },
        ProcessGuardError::TreeCorruption { details } => {
            let h = "Process tree corruption: "@;
            assert(h =~= t.subrange(0, h.len() as int));
            assert(details@ =~= t.subrange(t.len() - details@.len(), t.len() as int));
        },
        ProcessGuardError::ChannelError(message) => {
            let h = "Channel error: "@;
            assert(h =~= t.subrange(0, h.len() as int));
            assert(message@ =~= t.subrange(t.len() - message@.len(), t.len() as int));
        },
    }
}

} // verus!
