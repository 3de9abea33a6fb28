//! Shedding of engines while the processor is too hot.
use crate::math;
use vstd::prelude::*;

verus! {

/// Maximum number of sheddable engines
pub const MAX_SHEDDABLE_ENGINES: usize = 8;

/// Temperature threshold for shedding (hundredths of a degree Celsius)
pub const TEMP_THRESHOLD_FP: u64 = 8500;

/// Temperature hysteresis (prevent rapid on/off cycling)
pub const TEMP_HYSTERESIS_FP: u64 = 500;

/// Temperature from which medium priority engines are shed
pub const HIGH_TEMP_FP: u64 = 9000;

/// Temperature from which high priority engines are shed
pub const EXTREME_TEMP_FP: u64 = 9500;

/// Engine priority levels
#[derive(Debug, Clone, Copy, PartialEq, Eq, Structural)]
pub enum EnginePriority {
    /// Never shed
    Critical,
    /// Shed only at extreme temperatures
    High,
    /// Shed at high temperatures
    Medium,
    /// First to shed
    Low,
}

impl EnginePriority {
    /// The place of the priority, the most important first.
    pub open spec fn rank(self) -> int {
        match self {
            EnginePriority::Critical => 0,
            EnginePriority::High => 1,
            EnginePriority::Medium => 2,
            EnginePriority::Low => 3,
        }
    }

    fn index(self) -> (r: u8)
        ensures
            r == self.rank(),
    {
        match self {
            EnginePriority::Critical => 0,
            EnginePriority::High => 1,
            EnginePriority::Medium => 2,
            EnginePriority::Low => 3,
        }
    }
}

/// Sheddable engine info with Sharpe ratio
#[derive(Debug, Clone, Copy, PartialEq, Eq, Structural)]
pub struct SheddableEngine {
    pub symbol_idx: u8,
    pub priority: EnginePriority,
    /// Rolling Sharpe ratio (fixed-point)
    pub sharpe_ratio_fp: i64,
    /// Current PnL (micro-USD)
    pub current_pnl_micro: i64,
    /// Last update timestamp
    pub last_update_ms: u64,
    /// Whether currently shed
    pub is_shed: bool,
}

/// Whether a priority may be shed at a temperature.
pub open spec fn sheddable_at(p: EnginePriority, temp_fp: u64) -> bool {
    match p {
        EnginePriority::Critical => false,
        EnginePriority::High => temp_fp >= EXTREME_TEMP_FP,
        EnginePriority::Medium => temp_fp >= HIGH_TEMP_FP,
        EnginePriority::Low => true,
    }
}

/// Whether a slot holds an engine that may be shed at a temperature.
pub open spec fn is_candidate(e: Option<SheddableEngine>, temp_fp: u64) -> bool {
    e matches Some(x) && !x.is_shed && sheddable_at(x.priority, temp_fp)
}

/// Whether an engine is shed before another: it is less important, or as
/// important with a lower Sharpe ratio.
pub open spec fn sheds_before(a: SheddableEngine, b: SheddableEngine) -> bool {
    a.priority.rank() > b.priority.rank() || (a.priority.rank() == b.priority.rank()
        && a.sharpe_ratio_fp < b.sharpe_ratio_fp)
}

/// The engine among the first `n` that is shed next, if any.
pub open spec fn next_to_shed(
    engines: Seq<Option<SheddableEngine>>,
    temp_fp: u64,
    n: int,
) -> Option<int>
    decreases n,
{
    if n <= 0 {
        None
    } else {
        let best = next_to_shed(engines, temp_fp, n - 1);
        if is_candidate(engines[n - 1], temp_fp) {
            match best {
                Some(b) => if sheds_before(engines[n - 1]->0, engines[b]->0) {
                    Some(n - 1)
                } else {
                    best
                },
                None => Some(n - 1),
            }
        } else {
            best
        }
    }
}

/// What a shedder holds of its engines.
pub struct ShedState {
    pub engines: Seq<Option<SheddableEngine>>,
    pub shed_count: u8,
    pub events: u64,
    pub last_shed_ms: u64,
    pub paused: Seq<u8>,
}

/// The state after the engine in a slot is shed.
pub open spec fn shed_slot(st: ShedState, i: int, now_ms: u64) -> ShedState {
    ShedState {
        engines: st.engines.update(
            i,
            Some(SheddableEngine { is_shed: true, ..st.engines[i]->0 }),
        ),
        shed_count: st.shed_count.wrapping_add(1),
        events: st.events.wrapping_add(1),
        last_shed_ms: now_ms,
        paused: st.paused.push(i as u8),
    }
}

/// The state after the next engine is shed.
pub open spec fn shed_next(st: ShedState, temp_fp: u64, now_ms: u64) -> ShedState {
    match next_to_shed(st.engines, temp_fp, MAX_SHEDDABLE_ENGINES as int) {
        Some(i) => shed_slot(st, i, now_ms),
        None => st,
    }
}

/// The state after up to `n` engines are shed, one after the other.
pub open spec fn shed_times(st: ShedState, temp_fp: u64, now_ms: u64, n: nat) -> ShedState
    decreases n,
{
    if n == 0 {
        st
    } else {
        shed_next(shed_times(st, temp_fp, now_ms, (n - 1) as nat), temp_fp, now_ms)
    }
}

/// The state after all engines that may be shed at a temperature are shed.
pub open spec fn shed_all(st: ShedState, temp_fp: u64, now_ms: u64) -> ShedState {
    shed_times(st, temp_fp, now_ms, MAX_SHEDDABLE_ENGINES as nat)
}

/// The state after the first `n` slots are shed in an emergency.
pub open spec fn emergency(st: ShedState, n: int) -> ShedState
    decreases n,
{
    if n <= 0 {
        st
    } else {
        let before = emergency(st, n - 1);
        if is_candidate(before.engines[n - 1], EXTREME_TEMP_FP) {
            ShedState {
                engines: before.engines.update(
                    n - 1,
                    Some(SheddableEngine { is_shed: true, ..before.engines[n - 1]->0 }),
                ),
                shed_count: before.shed_count.wrapping_add(1),
                paused: before.paused.push((n - 1) as u8),
                ..before
            }
        } else {
            before
        }
    }
}

/// Engines of which none is shed.
pub open spec fn restored(engines: Seq<Option<SheddableEngine>>) -> Seq<Option<SheddableEngine>> {
    Seq::new(
        engines.len(),
        |i: int|
            match engines[i] {
                Some(e) => Some(SheddableEngine { is_shed: false, ..e }),
                None => None,
            },
    )
}

/// Thermal shedding state
pub struct ThermalShedder {
    /// Current CPU temperature (hundredths of a degree)
    pub current_temp_fp: u64,
    /// Peak temperature recorded
    pub peak_temp_fp: u64,
    /// Shedding active flag
    pub shedding_active: bool,
    /// Temperature at which shedding started (for hysteresis)
    pub shed_start_temp_fp: u64,
    /// Sheddable engines, by symbol index
    pub engines: Vec<Option<SheddableEngine>>,
    /// Number of currently shed engines
    pub shed_count: u8,
    /// Total shed events count
    pub total_shed_events: u64,
    /// Last shed timestamp
    pub last_shed_time_ms: u64,
    /// Symbols whose workers are to be paused and that nobody was told of yet
    pub paused: Vec<u8>,
}

impl ThermalShedder {
    pub open spec fn wf(&self) -> bool {
        self.engines.len() == MAX_SHEDDABLE_ENGINES
    }

    pub open spec fn state(&self) -> ShedState {
        ShedState {
            engines: self.engines@,
            shed_count: self.shed_count,
            events: self.total_shed_events,
            last_shed_ms: self.last_shed_time_ms,
            paused: self.paused@,
        }
    }

    /// Create a new thermal shedder
    pub fn new() -> (r: Self)
        ensures
            r.wf(),
            forall|i: int| 0 <= i < MAX_SHEDDABLE_ENGINES ==> #[trigger] r.engines@[i] is None,
            r.current_temp_fp == 0,
            r.peak_temp_fp == 0,
            !r.shedding_active,
            r.shed_start_temp_fp == 0,
            r.shed_count == 0,
            r.total_shed_events == 0,
            r.last_shed_time_ms == 0,
            r.paused.len() == 0,
    {
        let mut engines: Vec<Option<SheddableEngine>> = Vec::new();
        while engines.len() < MAX_SHEDDABLE_ENGINES
            invariant
                engines.len() <= MAX_SHEDDABLE_ENGINES,
                forall|i: int| 0 <= i < engines.len() ==> #[trigger] engines@[i] is None,
            decreases MAX_SHEDDABLE_ENGINES - engines.len(),
        {
            engines.push(None);
        }
        ThermalShedder {
            current_temp_fp: 0,
            peak_temp_fp: 0,
            shedding_active: false,
            shed_start_temp_fp: 0,
            engines,
            shed_count: 0,
            total_shed_events: 0,
            last_shed_time_ms: 0,
            paused: Vec::new(),
        }
    }

    /// Update CPU temperature reading, in hundredths of a degree
    pub fn update_temperature(&mut self, temp_fp: u64, now_ms: u64)
        requires
            old(self).wf(),
        ensures
            final(self).wf(),
            final(self).current_temp_fp == temp_fp,
            final(self).peak_temp_fp == math::max_int(
                old(self).peak_temp_fp as int,
                temp_fp as int,
            ),
            if !old(self).shedding_active && temp_fp >= TEMP_THRESHOLD_FP {
                &&& final(self).shedding_active
                &&& final(self).shed_start_temp_fp == temp_fp
                &&& final(self).state() == shed_next(old(self).state(), temp_fp, now_ms)
            } else if old(self).shedding_active && temp_fp <= math::max_int(
                old(self).shed_start_temp_fp - TEMP_HYSTERESIS_FP,
                0,
            ) {
                &&& !final(self).shedding_active
                &&& final(self).shed_start_temp_fp == old(self).shed_start_temp_fp
                &&& final(self).state() == (ShedState {
                    engines: restored(old(self).engines@),
                    shed_count: 0,
                    ..old(self).state()
                })
            } else if old(self).shedding_active {
                &&& final(self).shedding_active
                &&& final(self).shed_start_temp_fp == old(self).shed_start_temp_fp
                &&& final(self).state() == shed_all(old(self).state(), temp_fp, now_ms)
            } else {
                &&& !final(self).shedding_active
                &&& final(self).shed_start_temp_fp == old(self).shed_start_temp_fp
                &&& final(self).state() == old(self).state()
            },
    {
        self.current_temp_fp = temp_fp;
        if temp_fp > self.peak_temp_fp {
            self.peak_temp_fp = temp_fp;
        }
        self.evaluate_shedding(now_ms);
    }

    /// Register an engine for potential shedding
    pub fn register_engine(&mut self, engine: SheddableEngine)
        requires
            old(self).wf(),
        ensures
            final(self).wf(),
            final(self).engines@ == (if engine.symbol_idx < MAX_SHEDDABLE_ENGINES {
                old(self).engines@.update(engine.symbol_idx as int, Some(engine))
            } else {
                old(self).engines@
            }),
            *final(self) == (ThermalShedder { engines: final(self).engines, ..*old(self) }),
    {
        let idx: usize = engine.symbol_idx as usize;
        if idx >= MAX_SHEDDABLE_ENGINES {
            return;
        }
        self.engines.set(idx, Some(engine));
    }

    /// Update engine Sharpe ratio
    pub fn update_engine_sharpe(
        &mut self,
        symbol_idx: u8,
        sharpe_fp: i64,
        pnl_micro: i64,
        now_ms: u64,
    )
        requires
            old(self).wf(),
        ensures
            final(self).wf(),
            final(self).engines@ == (if symbol_idx < MAX_SHEDDABLE_ENGINES && old(self).engines@[symbol_idx as int] is Some {
                old(self).engines@.update(
                    symbol_idx as int,
                    Some(
                        SheddableEngine {
                            sharpe_ratio_fp: sharpe_fp,
                            current_pnl_micro: pnl_micro,
                            last_update_ms: now_ms,
                            ..old(self).engines@[symbol_idx as int]->0
                        },
                    ),
                )
            } else {
                old(self).engines@
            }),
            *final(self) == (ThermalShedder { engines: final(self).engines, ..*old(self) }),
    {
        let idx: usize = symbol_idx as usize;
        if idx >= MAX_SHEDDABLE_ENGINES {
            return;
        }
        match self.engines[idx] {
            Some(e) => {
                let mut engine: SheddableEngine = e;
                engine.sharpe_ratio_fp = sharpe_fp;
                engine.current_pnl_micro = pnl_micro;
                engine.last_update_ms = now_ms;
                self.engines.set(idx, Some(engine));
            },
            None => {},
        }
    }

    /// Evaluate whether to shed or restore engines
    fn evaluate_shedding(&mut self, now_ms: u64)
        requires
            old(self).wf(),
        ensures
            final(self).wf(),
            final(self).current_temp_fp == old(self).current_temp_fp,
            final(self).peak_temp_fp == old(self).peak_temp_fp,
            ({
                let temp_fp = old(self).current_temp_fp;
                if !old(self).shedding_active && temp_fp >= TEMP_THRESHOLD_FP {
                    &&& final(self).shedding_active
                    &&& final(self).shed_start_temp_fp == temp_fp
                    &&& final(self).state() == shed_next(old(self).state(), temp_fp, now_ms)
                } else if old(self).shedding_active && temp_fp <= math::max_int(
                    old(self).shed_start_temp_fp - TEMP_HYSTERESIS_FP,
                    0,
                ) {
                    &&& !final(self).shedding_active
                    &&& final(self).shed_start_temp_fp == old(self).shed_start_temp_fp
                    &&& final(self).state() == (ShedState {
                        engines: restored(old(self).engines@),
                        shed_count: 0,
                        ..old(self).state()
                    })
                } else if old(self).shedding_active {
                    &&& final(self).shedding_active
                    &&& final(self).shed_start_temp_fp == old(self).shed_start_temp_fp
                    &&& final(self).state() == shed_all(old(self).state(), temp_fp, now_ms)
                } else {
                    *final(self) == *old(self)
                }
            }),
    {
        let current_temp: u64 = self.current_temp_fp;
        let was_shedding: bool = self.shedding_active;
        if !was_shedding && current_temp >= TEMP_THRESHOLD_FP {
            self.shedding_active = true;
            self.shed_start_temp_fp = current_temp;
            self.shed_lowest_priority(current_temp, now_ms);
        } else if was_shedding {
            let restore_threshold: u64 = self.shed_start_temp_fp.saturating_sub(
                TEMP_HYSTERESIS_FP,
            );
            if current_temp <= restore_threshold {
                self.restore_all();
            } else {
                self.maybe_shed_more(current_temp, now_ms);
            }
        }
    }

    /// Shed the lowest priority engine, and of those the one with the lowest
    /// Sharpe ratio
    fn shed_lowest_priority(&mut self, temp_fp: u64, now_ms: u64)
        requires
            old(self).wf(),
        ensures
            final(self).wf(),
            final(self).state() == shed_next(old(self).state(), temp_fp, now_ms),
            final(self).current_temp_fp == old(self).current_temp_fp,
            final(self).peak_temp_fp == old(self).peak_temp_fp,
            final(self).shedding_active == old(self).shedding_active,
            final(self).shed_start_temp_fp == old(self).shed_start_temp_fp,
    {
        let mut best: Option<usize> = None;
        let mut i: usize = 0;
        while i < MAX_SHEDDABLE_ENGINES
            invariant
                self.wf(),
                *self == *old(self),
                i <= MAX_SHEDDABLE_ENGINES,
                next_to_shed(self.engines@, temp_fp, i as int) == (match best {
                    Some(b) => Some(b as int),
                    None => None::<int>,
                }),
                best matches Some(b) ==> b < i && is_candidate(self.engines@[b as int], temp_fp),
            decreases MAX_SHEDDABLE_ENGINES - i,
        {
            match self.engines[i] {
                Some(e) => {
                    let open: bool = match e.priority {
                        EnginePriority::Critical => false,
                        EnginePriority::High => temp_fp >= EXTREME_TEMP_FP,
                        EnginePriority::Medium => temp_fp >= HIGH_TEMP_FP,
                        EnginePriority::Low => true,
                    };
                    if !e.is_shed && open {
                        match best {
                            Some(b) => {
                                match self.engines[b] {
                                    Some(x) => {
                                        let er: u8 = e.priority.index();
                                        let xr: u8 = x.priority.index();
                                        if er > xr || (er == xr && e.sharpe_ratio_fp
                                            < x.sharpe_ratio_fp) {
                                            best = Some(i);
                                        }
                                    },
                                    None => {},
                                }
                            },
                            None => {
                                best = Some(i);
                            },
                        }
                    }
                },
                None => {},
            }
            i = i + 1;
        }
        match best {
            Some(b) => self.shed_engine(b, now_ms),
            None => {},
        }
    }

    /// Shed a specific engine
    fn shed_engine(&mut self, idx: usize, now_ms: u64)
        requires
            old(self).wf(),
            idx < MAX_SHEDDABLE_ENGINES,
            old(self).engines@[idx as int] is Some,
        ensures
            final(self).wf(),
            final(self).state() == shed_slot(old(self).state(), idx as int, now_ms),
            final(self).current_temp_fp == old(self).current_temp_fp,
            final(self).peak_temp_fp == old(self).peak_temp_fp,
            final(self).shedding_active == old(self).shedding_active,
            final(self).shed_start_temp_fp == old(self).shed_start_temp_fp,
    {
        match self.engines[idx] {
            Some(e) => {
                let mut engine: SheddableEngine = e;
                engine.is_shed = true;
                self.engines.set(idx, Some(engine));
            },
            None => {},
        }
        self.paused.push(idx as u8);
        self.shed_count = self.shed_count.wrapping_add(1);
        self.total_shed_events = self.total_shed_events.wrapping_add(1);
        self.last_shed_time_ms = now_ms;
    }

    /// Shed what the temperature calls for
    fn maybe_shed_more(&mut self, current_temp: u64, now_ms: u64)
        requires
            old(self).wf(),
        ensures
            final(self).wf(),
            final(self).state() == shed_all(old(self).state(), current_temp, now_ms),
            final(self).current_temp_fp == old(self).current_temp_fp,
            final(self).peak_temp_fp == old(self).peak_temp_fp,
            final(self).shedding_active == old(self).shedding_active,
            final(self).shed_start_temp_fp == old(self).shed_start_temp_fp,
    {
        let mut n: usize = 0;
        while n < MAX_SHEDDABLE_ENGINES
            invariant
                self.wf(),
                n <= MAX_SHEDDABLE_ENGINES,
                self.state() == shed_times(old(self).state(), current_temp, now_ms, n as nat),
                self.current_temp_fp == old(self).current_temp_fp,
                self.peak_temp_fp == old(self).peak_temp_fp,
                self.shedding_active == old(self).shedding_active,
                self.shed_start_temp_fp == old(self).shed_start_temp_fp,
            decreases MAX_SHEDDABLE_ENGINES - n,
        {
            self.shed_lowest_priority(current_temp, now_ms);
            n = n + 1;
        }
    }

    /// Restore all shed engines
    fn restore_all(&mut self)
        requires
            old(self).wf(),
        ensures
            final(self).wf(),
            final(self).engines@ == restored(old(self).engines@),
            *final(self) == (ThermalShedder {
                engines: final(self).engines,
                shedding_active: false,
                shed_count: 0,
                ..*old(self)
            }),
    {
        self.shedding_active = false;
        let ghost before = self.engines@;
        let mut i: usize = 0;
        while i < MAX_SHEDDABLE_ENGINES
            invariant
                i <= MAX_SHEDDABLE_ENGINES,
                self.engines.len() == MAX_SHEDDABLE_ENGINES,
                before.len() == MAX_SHEDDABLE_ENGINES,
                before == old(self).engines@,
                forall|k: int|
                    0 <= k < MAX_SHEDDABLE_ENGINES ==> #[trigger] self.engines@[k] == (if k < i {
                        restored(before)[k]
                    } else {
                        before[k]
                    }),
                *self == (ThermalShedder {
                    engines: self.engines,
                    shedding_active: false,
                    ..*old(self)
                }),
            decreases MAX_SHEDDABLE_ENGINES - i,
        {
            match self.engines[i] {
                Some(e) => {
                    let mut engine: SheddableEngine = e;
                    engine.is_shed = false;
                    self.engines.set(i, Some(engine));
                },
                None => {},
            }
            i = i + 1;
        }
        assert(self.engines@ =~= restored(before));
        self.shed_count = 0;
    }

    /// Check if a specific engine is shed
    pub fn is_engine_shed(&self, symbol_idx: u8) -> (r: bool)
        requires
            self.wf(),
        ensures
            r == (symbol_idx < MAX_SHEDDABLE_ENGINES && (self.engines@[symbol_idx as int] matches Some(
                e,
            ) && e.is_shed)),
    {
        let idx: usize = symbol_idx as usize;
        if idx >= MAX_SHEDDABLE_ENGINES {
            return false;
        }
        match self.engines[idx] {
            Some(e) => e.is_shed,
            None => false,
        }
    }

    /// Get current temperature, in hundredths of a degree
    pub fn get_temperature(&self) -> (r: u64)
        ensures
            r == self.current_temp_fp,
    {
        self.current_temp_fp
    }

    /// Get peak temperature, in hundredths of a degree
    pub fn get_peak_temperature(&self) -> (r: u64)
        ensures
            r == self.peak_temp_fp,
    {
        self.peak_temp_fp
    }

    /// Check if shedding is active
    pub fn is_shedding_active(&self) -> (r: bool)
        ensures
            r == self.shedding_active,
    {
        self.shedding_active
    }

    /// Get number of shed engines
    pub fn get_shed_count(&self) -> (r: u8)
        ensures
            r == self.shed_count,
    {
        self.shed_count
    }

    /// Get total shed events
    pub fn get_total_shed_events(&self) -> (r: u64)
        ensures
            r == self.total_shed_events,
    {
        self.total_shed_events
    }

    /// Hands out the symbols whose workers are to be paused.
    pub fn take_paused(&mut self) -> (r: Vec<u8>)
        ensures
            r@ == old(self).paused@,
            final(self).paused.len() == 0,
            *final(self) == (ThermalShedder { paused: final(self).paused, ..*old(self) }),
    {
        let mut r: Vec<u8> = Vec::new();
        std::mem::swap(&mut r, &mut self.paused);
        r
    }

    /// Emergency shed all non-critical engines immediately
    pub fn emergency_shed_all(&mut self, now_ms: u64)
        requires
            old(self).wf(),
        ensures
            final(self).wf(),
            final(self).shedding_active,
            ({
                let shed = emergency(old(self).state(), MAX_SHEDDABLE_ENGINES as int);
                final(self).state() == (ShedState {
                    events: shed.events.wrapping_add(1),
                    last_shed_ms: now_ms,
                    ..shed
                })
            }),
            final(self).current_temp_fp == old(self).current_temp_fp,
            final(self).peak_temp_fp == old(self).peak_temp_fp,
            final(self).shed_start_temp_fp == old(self).shed_start_temp_fp,
    {
        let mut i: usize = 0;
        while i < MAX_SHEDDABLE_ENGINES
            invariant
                self.wf(),
                i <= MAX_SHEDDABLE_ENGINES,
                self.state() == emergency(old(self).state(), i as int),
                self.current_temp_fp == old(self).current_temp_fp,
                self.peak_temp_fp == old(self).peak_temp_fp,
                self.shed_start_temp_fp == old(self).shed_start_temp_fp,
            decreases MAX_SHEDDABLE_ENGINES - i,
        {
            match self.engines[i] {
                Some(e) => {
                    if e.priority != EnginePriority::Critical && !e.is_shed {
                        let mut engine: SheddableEngine = e;
                        engine.is_shed = true;
                        self.engines.set(i, Some(engine));
                        self.shed_count = self.shed_count.wrapping_add(1);
                        self.paused.push(i as u8);
                    }
                },
                None => {},
            }
            i = i + 1;
        }
        self.shedding_active = true;
        self.total_shed_events = self.total_shed_events.wrapping_add(1);
        self.last_shed_time_ms = now_ms;
    }
}

impl Default for ThermalShedder {
    fn default() -> (r: Self)
        ensures
            r.wf(),
            forall|i: int| 0 <= i < MAX_SHEDDABLE_ENGINES ==> #[trigger] r.engines@[i] is None,
            !r.shedding_active,
            r.shed_count == 0,
            r.total_shed_events == 0,
            r.current_temp_fp == 0,
            r.peak_temp_fp == 0,
    {
        ThermalShedder::new()
    }
}

/// The engine that is shed next may be shed, and no other that may be shed
/// comes before it.
proof fn lemma_next(engines: Seq<Option<SheddableEngine>>, temp_fp: u64, n: int)
    requires
        0 <= n <= engines.len(),
    ensures
        match next_to_shed(engines, temp_fp, n) {
            Some(b) => 0 <= b < n && is_candidate(engines[b], temp_fp) && forall|i: int|
                0 <= i < n && is_candidate(#[trigger] engines[i], temp_fp) ==> !sheds_before(
                    engines[i]->0,
                    engines[b]->0,
                ),
            None => forall|i: int| 0 <= i < n ==> !is_candidate(#[trigger] engines[i], temp_fp),
        },
    decreases n,
{
    if n > 0 {
        lemma_next(engines, temp_fp, n - 1);
    }
}

/// Of the engines that may be shed at a temperature, the least important goes
/// first, and of those the one with the lowest Sharpe ratio.
pub proof fn law_lowest_shed_first(engines: Seq<Option<SheddableEngine>>, temp_fp: u64)
    requires
        engines.len() == MAX_SHEDDABLE_ENGINES,
    ensures
        match next_to_shed(engines, temp_fp, MAX_SHEDDABLE_ENGINES as int) {
            Some(b) => 0 <= b < MAX_SHEDDABLE_ENGINES && is_candidate(engines[b], temp_fp)
                && forall|i: int|
                0 <= i < MAX_SHEDDABLE_ENGINES && is_candidate(#[trigger] engines[i], temp_fp)
                    ==> !sheds_before(engines[i]->0, engines[b]->0),
            None => forall|i: int|
                0 <= i < MAX_SHEDDABLE_ENGINES ==> !is_candidate(#[trigger] engines[i], temp_fp),
        },
{
    lemma_next(engines, temp_fp, MAX_SHEDDABLE_ENGINES as int);
}

/// No temperature sheds a critical engine: shedding leaves its slot as it is.
pub proof fn law_critical_never_shed(
    st: ShedState,
    temp_fp: u64,
    now_ms: u64,
    n: nat,
    i: int,
)
    requires
        st.engines.len() == MAX_SHEDDABLE_ENGINES,
        0 <= i < MAX_SHEDDABLE_ENGINES,
        st.engines[i] matches Some(e) && e.priority == EnginePriority::Critical,
    ensures
        shed_times(st, temp_fp, now_ms, n).engines.len() == MAX_SHEDDABLE_ENGINES,
        shed_times(st, temp_fp, now_ms, n).engines[i] == st.engines[i],
    decreases n,
{
    if n > 0 {
        law_critical_never_shed(st, temp_fp, now_ms, (n - 1) as nat, i);
        let before = shed_times(st, temp_fp, now_ms, (n - 1) as nat);
        lemma_next(before.engines, temp_fp, MAX_SHEDDABLE_ENGINES as int);
    }
}

/// An emergency sheds every engine that is not critical, and no critical one.
pub proof fn law_emergency(st: ShedState, n: int)
    requires
        st.engines.len() == MAX_SHEDDABLE_ENGINES,
        0 <= n <= MAX_SHEDDABLE_ENGINES,
    ensures
        emergency(st, n).engines.len() == MAX_SHEDDABLE_ENGINES,
        forall|i: int|
            0 <= i < MAX_SHEDDABLE_ENGINES ==> #[trigger] emergency(st, n).engines[i] == (match st.engines[i] {
                Some(e) => if i < n && e.priority != EnginePriority::Critical {
                    Some(SheddableEngine { is_shed: true, ..e })
                } else {
                    Some(e)
                },
                None => None,
            }),
    decreases n,
{
    if n > 0 {
        law_emergency(st, n - 1);
    }
}

/// How many of the slots hold a shed engine.
pub open spec fn number_shed(engines: Seq<Option<SheddableEngine>>) -> nat
    decreases engines.len(),
{
    if engines.len() == 0 {
        0
    } else {
        number_shed(engines.drop_last()) + (if engines.last() matches Some(e) && e.is_shed {
            1nat
        } else {
            0
        })
    }
}

/// The count is the number of engines that are shed.
pub open spec fn counts_shed(st: ShedState) -> bool {
    &&& st.engines.len() == MAX_SHEDDABLE_ENGINES
    &&& st.shed_count == number_shed(st.engines)
}

proof fn lemma_number_shed_update(
    engines: Seq<Option<SheddableEngine>>,
    i: int,
    e: Option<SheddableEngine>,
)
    requires
        0 <= i < engines.len(),
    ensures
        number_shed(engines) <= engines.len(),
        number_shed(engines.update(i, e)) <= engines.len(),
        number_shed(engines.update(i, e)) == number_shed(engines) + (if e matches Some(x)
            && x.is_shed {
            1int
        } else {
            0
        }) - (if engines[i] matches Some(x) && x.is_shed {
            1int
        } else {
            0
        }),
    decreases engines.len(),
{
    if i == engines.len() - 1 {
        assert(engines.update(i, e).drop_last() =~= engines.drop_last());
        lemma_number_shed_bound(engines.drop_last());
    } else {
        lemma_number_shed_update(engines.drop_last(), i, e);
        assert(engines.update(i, e).drop_last() =~= engines.drop_last().update(i, e));
    }
}

proof fn lemma_number_shed_bound(engines: Seq<Option<SheddableEngine>>)
    ensures
        number_shed(engines) <= engines.len(),
    decreases engines.len(),
{
    if engines.len() > 0 {
        lemma_number_shed_bound(engines.drop_last());
    }
}

/// Shedding keeps the count right: where it is the number of engines that are
/// shed, it still is after any number of engines more.
pub proof fn law_shedding_counts(st: ShedState, temp_fp: u64, now_ms: u64, n: nat)
    requires
        counts_shed(st),
    ensures
        counts_shed(shed_times(st, temp_fp, now_ms, n)),
    decreases n,
{
    if n > 0 {
        law_shedding_counts(st, temp_fp, now_ms, (n - 1) as nat);
        let before = shed_times(st, temp_fp, now_ms, (n - 1) as nat);
        lemma_next(before.engines, temp_fp, MAX_SHEDDABLE_ENGINES as int);
        match next_to_shed(before.engines, temp_fp, MAX_SHEDDABLE_ENGINES as int) {
            Some(i) => {
                lemma_number_shed_update(
                    before.engines,
                    i,
                    Some(SheddableEngine { is_shed: true, ..before.engines[i]->0 }),
                );
            },
            None => {},
        }
    }
}

/// An emergency keeps the count right.
pub proof fn law_emergency_counts(st: ShedState, n: int)
    requires
        counts_shed(st),
        0 <= n <= MAX_SHEDDABLE_ENGINES,
    ensures
        counts_shed(emergency(st, n)),
    decreases n,
{
    if n > 0 {
        law_emergency_counts(st, n - 1);
        let before = emergency(st, n - 1);
        lemma_number_shed_update(
            before.engines,
            n - 1,
            Some(SheddableEngine { is_shed: true, ..before.engines[n - 1]->0 }),
        );
    }
}

/// After the engines are restored none is shed.
pub proof fn law_restored_counts(engines: Seq<Option<SheddableEngine>>)
    ensures
        number_shed(restored(engines)) == 0,
    decreases engines.len(),
{
    if engines.len() > 0 {
        law_restored_counts(engines.drop_last());
        assert(restored(engines).drop_last() =~= restored(engines.drop_last()));
    }
}

/// An engine put in a slot, or given new figures, leaves the number of shed
/// engines as it is where it is shed exactly if the slot's last one was.
pub proof fn law_replacing_keeps_the_count(
    engines: Seq<Option<SheddableEngine>>,
    i: int,
    e: SheddableEngine,
)
    requires
        0 <= i < engines.len(),
        e.is_shed == (engines[i] matches Some(x) && x.is_shed),
    ensures
        number_shed(engines.update(i, Some(e))) == number_shed(engines),
{
    lemma_number_shed_update(engines, i, Some(e));
}

/// Low priorities may be shed at once, medium ones from ninety degrees on, high
/// ones from ninety-five, and critical ones never; the hotter it is, the more
/// may be.
pub proof fn law_sheddable_by_temperature(p: EnginePriority, temp_fp: u64, hotter_fp: u64)
    ensures
        sheddable_at(EnginePriority::Low, temp_fp),
        sheddable_at(EnginePriority::Medium, temp_fp) <==> temp_fp >= 9000,
        sheddable_at(EnginePriority::High, temp_fp) <==> temp_fp >= 9500,
        !sheddable_at(EnginePriority::Critical, temp_fp),
        hotter_fp >= temp_fp && sheddable_at(p, temp_fp) ==> sheddable_at(p, hotter_fp),
{
}

/// Of two engines the less important is shed before the other, and of equally
/// important ones that with the lower Sharpe ratio.
pub proof fn law_shed_order_of_two(a: SheddableEngine, b: SheddableEngine)
    ensures
        EnginePriority::Critical.rank() < EnginePriority::High.rank(),
        EnginePriority::High.rank() < EnginePriority::Medium.rank(),
        EnginePriority::Medium.rank() < EnginePriority::Low.rank(),
        a.priority.rank() > b.priority.rank() ==> sheds_before(a, b) && !sheds_before(b, a),
        a.priority == b.priority ==> (sheds_before(a, b) <==> a.sharpe_ratio_fp
            < b.sharpe_ratio_fp),
{
}

/// An engine that is shed is marked so and told of, counts once, and no other
/// engine changes.
pub proof fn law_shedding_marks_one(st: ShedState, i: int, now_ms: u64, k: int)
    requires
        0 <= i < st.engines.len() <= 256,
        st.engines[i] is Some,
        0 <= k < st.engines.len(),
        st.shed_count < u8::MAX,
        st.events < u64::MAX,
    ensures
        ({
            let after = shed_slot(st, i, now_ms);
            &&& after.engines[i] is Some && after.engines[i]->0.is_shed
            &&& after.engines[i]->0.priority == st.engines[i]->0.priority
            &&& after.engines[i]->0.sharpe_ratio_fp == st.engines[i]->0.sharpe_ratio_fp
            &&& k != i ==> after.engines[k] == st.engines[k]
            &&& after.shed_count == st.shed_count + 1
            &&& after.events == st.events + 1
            &&& after.last_shed_ms == now_ms
            &&& after.paused.last() == i
            &&& after.paused.drop_last() == st.paused
        }),
{
    assert(shed_slot(st, i, now_ms).paused.drop_last() =~= st.paused);
}

/// Restoring makes every engine run again and changes nothing else of it.
pub proof fn law_restoring_unmarks_all(engines: Seq<Option<SheddableEngine>>, i: int)
    requires
        0 <= i < engines.len(),
    ensures
        restored(engines).len() == engines.len(),
        engines[i] is None ==> restored(engines)[i] is None,
        engines[i] matches Some(e) ==> (restored(engines)[i] matches Some(r) && !r.is_shed
            && r.priority == e.priority && r.sharpe_ratio_fp == e.sharpe_ratio_fp && r.symbol_idx
            == e.symbol_idx),
{
}

} // verus!
