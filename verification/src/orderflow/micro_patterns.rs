//! Finite state machines that recognise micro-structure patterns such as
//! stop-runs and absorption.
use crate::math;
use crate::math::magnitude;
use vstd::prelude::*;

verus! {

/// Pattern types detected by the FSM.
#[derive(Debug, Clone, Copy, PartialEq, Eq, Structural)]
pub enum PatternType {
    NoPattern,
    StopRun,
    Absorption,
    LiquidityGrab,
    Fakeout,
}

/// State machine states for pattern detection.
#[derive(Debug, Clone, Copy, PartialEq, Eq, Structural)]
pub enum FsmState {
    Idle,
    Building,
    Triggered,
    Confirmed,
    Exhausted,
}

impl FsmState {
    pub open spec fn code(self) -> u8 {
        match self {
            FsmState::Idle => 0,
            FsmState::Building => 1,
            FsmState::Triggered => 2,
            FsmState::Confirmed => 3,
            FsmState::Exhausted => 4,
        }
    }

    /// The state with the given code; other codes read as idle.
    pub fn from_u8(v: u8) -> (r: Self)
        ensures
            v <= 4 ==> r.code() == v,
            v > 4 ==> r == FsmState::Idle,
    {
        match v {
            0 => FsmState::Idle,
            1 => FsmState::Building,
            2 => FsmState::Triggered,
            3 => FsmState::Confirmed,
            4 => FsmState::Exhausted,
            _ => FsmState::Idle,
        }
    }
}

impl PatternType {
    pub open spec fn code(self) -> u8 {
        match self {
            PatternType::NoPattern => 0,
            PatternType::StopRun => 1,
            PatternType::Absorption => 2,
            PatternType::LiquidityGrab => 3,
            PatternType::Fakeout => 4,
        }
    }

    /// The pattern with the given code; other codes read as none.
    pub fn from_u8(v: u8) -> (r: Self)
        ensures
            v <= 4 ==> r.code() == v,
            v > 4 ==> r == PatternType::NoPattern,
    {
        match v {
            1 => PatternType::StopRun,
            2 => PatternType::Absorption,
            3 => PatternType::LiquidityGrab,
            4 => PatternType::Fakeout,
            _ => PatternType::NoPattern,
        }
    }
}

/// Configuration for pattern detection thresholds.
#[derive(Debug, Clone, Copy, PartialEq, Eq, Structural)]
pub struct PatternConfig {
    /// Minimum price movement for stop-run (in ticks)
    pub stop_run_ticks: u32,
    /// Minimum volume for absorption detection
    pub absorption_volume: u64,
    /// Time window for pattern completion (nanoseconds)
    pub time_window_ns: u64,
    /// Confirmation threshold (number of confirming events)
    pub confirmation_count: u32,
}

impl Default for PatternConfig {
    fn default() -> (r: Self)
        ensures
            r == (PatternConfig {
                stop_run_ticks: 5,
                absorption_volume: 10000,
                time_window_ns: 100_000_000,
                confirmation_count: 3,
            }),
    {
        PatternConfig {
            stop_run_ticks: 5,
            absorption_volume: 10000,
            time_window_ns: 100_000_000,
            confirmation_count: 3,
        }
    }
}

/// Signal strength on confirmation.
pub const CONFIRMED_STRENGTH: u8 = 80;

/// A single pattern FSM.
#[derive(Debug, Clone, Copy, PartialEq, Eq, Structural)]
pub struct PatternFsm {
    pub state: FsmState,
    /// Pattern type being tracked
    pub pattern_type: PatternType,
    /// Start timestamp of the pattern
    pub start_ts_ns: u64,
    /// Last update timestamp
    pub last_ts_ns: u64,
    /// Price at pattern start
    pub start_price: u64,
    pub current_price: u64,
    pub accumulated_volume: u64,
    /// Event counter for confirmation
    pub event_count: u64,
    /// Signal strength (0-100)
    pub signal_strength: u8,
}

/// A tick as the machines take it.
pub struct PatternTick {
    pub price: u64,
    pub volume: u64,
    pub timestamp_ns: u64,
}

/// Nanoseconds from `start` to `now`, zero where the clock ran backwards.
pub open spec fn elapsed(start: u64, now: u64) -> int {
    if now >= start {
        now - start
    } else {
        0
    }
}

/// The distance of two prices read as signed words.
pub open spec fn price_distance(a: u64, b: u64) -> int {
    math::abs_int((a as i64) - (b as i64))
}

impl PatternFsm {
    pub open spec fn idle() -> PatternFsm {
        PatternFsm {
            state: FsmState::Idle,
            pattern_type: PatternType::NoPattern,
            start_ts_ns: 0,
            last_ts_ns: 0,
            start_price: 0,
            current_price: 0,
            accumulated_volume: 0,
            event_count: 0,
            signal_strength: 0,
        }
    }

    /// Back to idle; the prices last seen are kept.
    pub open spec fn cleared(self) -> PatternFsm {
        PatternFsm {
            start_price: self.start_price,
            current_price: self.current_price,
            ..PatternFsm::idle()
        }
    }

    /// One tick while idle. Volume is gathered from a first tick on, for as
    /// long as the window lasts; half the absorption volume starts a pattern.
    pub open spec fn started(self, price: u64, volume: u64, now: u64, config: PatternConfig)
        -> PatternFsm {
        let fresh = self.event_count == 0 || elapsed(self.start_ts_ns, now)
            > config.time_window_ns;
        let gathered = PatternFsm {
            start_ts_ns: if fresh {
                now
            } else {
                self.start_ts_ns
            },
            last_ts_ns: now,
            start_price: if fresh {
                price
            } else {
                self.start_price
            },
            current_price: price,
            accumulated_volume: if fresh {
                volume
            } else {
                math::min_int(self.accumulated_volume + volume, u64::MAX as int) as u64
            },
            event_count: if fresh {
                1
            } else {
                self.event_count.wrapping_add(1)
            },
            ..self
        };
        if gathered.accumulated_volume >= config.absorption_volume / 2 {
            PatternFsm {
                state: FsmState::Building,
                pattern_type: PatternType::Absorption,
                ..gathered
            }
        } else {
            gathered
        }
    }

    /// Whole ticks (of a hundred price units) between the start and `price`.
    pub open spec fn ticks_from_start(self, price: u64) -> int {
        math::abs_int(price - self.start_price) / 100
    }

    /// One tick while building: a far move is a stop-run, much volume on a
    /// small move is absorption, and a pattern older than the window is dropped.
    /// Events are counted anew from the trigger.
    pub open spec fn built(self, price: u64, volume: u64, now: u64, config: PatternConfig)
        -> PatternFsm {
        let ticks = self.ticks_from_start(price);
        let grown = PatternFsm {
            current_price: price,
            accumulated_volume: self.accumulated_volume.wrapping_add(volume),
            event_count: self.event_count.wrapping_add(1),
            last_ts_ns: now,
            ..self
        };
        if ticks >= config.stop_run_ticks {
            PatternFsm {
                state: FsmState::Triggered,
                pattern_type: PatternType::StopRun,
                event_count: 0,
                ..grown
            }
        } else if grown.accumulated_volume >= config.absorption_volume && ticks
            < config.stop_run_ticks / 2 {
            PatternFsm {
                state: FsmState::Triggered,
                pattern_type: PatternType::Absorption,
                event_count: 0,
                ..grown
            }
        } else if elapsed(self.start_ts_ns, now) > config.time_window_ns {
            grown.cleared()
        } else {
            grown
        }
    }

    /// Whether a tick confirms a triggered pattern: a stop-run by a price that
    /// has turned back from where it triggered, any other by every tick.
    pub open spec fn confirms(self, price: u64) -> bool {
        self.pattern_type == PatternType::StopRun ==> math::abs_int(price - self.start_price)
            < math::abs_int(self.current_price - self.start_price)
    }

    /// One tick while triggered: enough confirming events confirm the pattern.
    pub open spec fn checked(self, price: u64, now: u64, config: PatternConfig) -> PatternFsm {
        let confirming = self.confirms(price);
        let counted = PatternFsm {
            event_count: if confirming {
                self.event_count.wrapping_add(1)
            } else {
                self.event_count
            },
            last_ts_ns: now,
            ..self
        };
        if confirming && counted.event_count >= config.confirmation_count {
            PatternFsm {
                state: FsmState::Confirmed,
                signal_strength: CONFIRMED_STRENGTH,
                ..counted
            }
        } else {
            counted
        }
    }

    /// One tick while confirmed: a price that came back more than half way
    /// exhausts the pattern.
    pub open spec fn worn(self, price: u64) -> PatternFsm {
        if price_distance(price, self.start_price) < price_distance(
            self.current_price,
            self.start_price,
        ) / 2 {
            PatternFsm { state: FsmState::Exhausted, signal_strength: 0, ..self }
        } else {
            self
        }
    }

    /// The machine after one tick.
    pub open spec fn after_tick(self, price: u64, volume: u64, now: u64, config: PatternConfig)
        -> PatternFsm {
        match self.state {
            FsmState::Idle => self.started(price, volume, now, config),
            FsmState::Building => self.built(price, volume, now, config),
            FsmState::Triggered => self.checked(price, now, config),
            FsmState::Confirmed => self.worn(price),
            FsmState::Exhausted => if elapsed(self.last_ts_ns, now) > config.time_window_ns {
                self.cleared()
            } else {
                self
            },
        }
    }

    /// The signal given by one tick: only the tick that confirms gives one.
    pub open spec fn tick_signal(self, price: u64, volume: u64, now: u64, config: PatternConfig)
        -> Option<(PatternType, u8)> {
        if self.state == FsmState::Triggered && self.checked(price, now, config).state
            == FsmState::Confirmed {
            Some((self.pattern_type, CONFIRMED_STRENGTH))
        } else {
            None
        }
    }

    /// The distances that a confirmed machine compares fit a signed word.
    pub open spec fn accepts(self, price: u64) -> bool {
        self.state == FsmState::Confirmed ==> {
            &&& i64::MIN < (price as i64) - (self.start_price as i64) <= i64::MAX
            &&& i64::MIN < (self.current_price as i64) - (self.start_price as i64) <= i64::MAX
        }
    }

    /// A machine that has triggered tracks one of the two patterns that can.
    pub open spec fn wf(self) -> bool {
        self.state == FsmState::Triggered || self.state == FsmState::Confirmed
            ==> self.pattern_type == PatternType::StopRun || self.pattern_type
            == PatternType::Absorption
    }

    /// The machine after a run of ticks.
    pub open spec fn after_all(self, ticks: Seq<PatternTick>, config: PatternConfig) -> PatternFsm
        decreases ticks.len(),
    {
        if ticks.len() == 0 {
            self
        } else {
            let t = ticks.last();
            self.after_all(ticks.drop_last(), config).after_tick(
                t.price,
                t.volume,
                t.timestamp_ns,
                config,
            )
        }
    }

    /// Create a new pattern FSM.
    pub fn new() -> (r: Self)
        ensures
            r == PatternFsm::idle(),
            r.wf(),
    {
        PatternFsm {
            state: FsmState::Idle,
            pattern_type: PatternType::NoPattern,
            start_ts_ns: 0,
            last_ts_ns: 0,
            start_price: 0,
            current_price: 0,
            accumulated_volume: 0,
            event_count: 0,
            signal_strength: 0,
        }
    }

    /// Reset the FSM to idle state.
    pub fn reset(&mut self)
        ensures
            *final(self) == old(self).cleared(),
            final(self).wf(),
    {
        self.state = FsmState::Idle;
        self.pattern_type = PatternType::NoPattern;
        self.start_ts_ns = 0;
        self.last_ts_ns = 0;
        self.accumulated_volume = 0;
        self.event_count = 0;
        self.signal_strength = 0;
    }

    /// Process a tick and attempt state transition.
    pub fn process_tick(
        &mut self,
        price: u64,
        volume: u64,
        timestamp_ns: u64,
        config: &PatternConfig,
    ) -> (r: Option<(PatternType, u8)>)
        requires
            old(self).wf(),
            old(self).accepts(price),
        ensures
            final(self).wf(),
            *final(self) == old(self).after_tick(price, volume, timestamp_ns, *config),
            r == old(self).tick_signal(price, volume, timestamp_ns, *config),
    {
        match self.state {
            FsmState::Idle => {
                self.try_start_pattern(price, volume, timestamp_ns, config);
                None
            },
            FsmState::Building => {
                self.update_building_state(price, volume, timestamp_ns, config);
                None
            },
            FsmState::Triggered => self.check_confirmation(price, timestamp_ns, config),
            FsmState::Confirmed => {
                self.check_exhaustion(price);
                None
            },
            FsmState::Exhausted => {
                if timestamp_ns.saturating_sub(self.last_ts_ns) > config.time_window_ns {
                    self.reset();
                }
                None
            },
        }
    }

    /// Try to start a new pattern detection.
    fn try_start_pattern(
        &mut self,
        price: u64,
        volume: u64,
        timestamp_ns: u64,
        config: &PatternConfig,
    )
        ensures
            *final(self) == old(self).started(price, volume, timestamp_ns, *config),
    {
        if self.event_count == 0 || timestamp_ns.saturating_sub(self.start_ts_ns)
            > config.time_window_ns {
            self.start_ts_ns = timestamp_ns;
            self.start_price = price;
            self.accumulated_volume = volume;
            self.event_count = 1;
        } else {
            self.accumulated_volume = self.accumulated_volume.saturating_add(volume);
            self.event_count = self.event_count.wrapping_add(1);
        }
        self.last_ts_ns = timestamp_ns;
        self.current_price = price;
        if self.accumulated_volume >= config.absorption_volume / 2 {
            self.state = FsmState::Building;
            self.pattern_type = PatternType::Absorption;
        }
    }

    /// Update state while building pattern.
    fn update_building_state(
        &mut self,
        price: u64,
        volume: u64,
        timestamp_ns: u64,
        config: &PatternConfig,
    )
        ensures
            *final(self) == old(self).built(price, volume, timestamp_ns, *config),
    {
        let price_diff: u64 = Self::distance(price, self.start_price);
        self.current_price = price;
        self.accumulated_volume = self.accumulated_volume.wrapping_add(volume);
        self.event_count = self.event_count.wrapping_add(1);
        self.last_ts_ns = timestamp_ns;
        let ticks_moved: u64 = price_diff / 100;
        if ticks_moved >= config.stop_run_ticks as u64 {
            self.state = FsmState::Triggered;
            self.pattern_type = PatternType::StopRun;
            self.event_count = 0;
            return;
        }
        if self.accumulated_volume >= config.absorption_volume && ticks_moved
            < (config.stop_run_ticks / 2) as u64 {
            self.state = FsmState::Triggered;
            self.pattern_type = PatternType::Absorption;
            self.event_count = 0;
            return;
        }
        if timestamp_ns.saturating_sub(self.start_ts_ns) > config.time_window_ns {
            self.reset();
        }
    }

    /// How far a price is from another.
    fn distance(a: u64, b: u64) -> (r: u64)
        ensures
            r == math::abs_int(a - b),
    {
        if a > b {
            a - b
        } else {
            b - a
        }
    }

    /// Check for pattern confirmation.
    fn check_confirmation(&mut self, price: u64, timestamp_ns: u64, config: &PatternConfig) -> (r:
        Option<(PatternType, u8)>)
        ensures
            *final(self) == old(self).checked(price, timestamp_ns, *config),
            r == (if old(self).confirms(price) && old(self).checked(
                price,
                timestamp_ns,
                *config,
            ).event_count >= config.confirmation_count {
                Some((old(self).pattern_type, CONFIRMED_STRENGTH))
            } else {
                None
            }),
    {
        let confirming: bool = self.pattern_type != PatternType::StopRun || Self::distance(
            price,
            self.start_price,
        ) < Self::distance(self.current_price, self.start_price);
        self.last_ts_ns = timestamp_ns;
        if confirming {
            self.event_count = self.event_count.wrapping_add(1);
            if self.event_count >= config.confirmation_count as u64 {
                self.state = FsmState::Confirmed;
                self.signal_strength = CONFIRMED_STRENGTH;
                return Some((self.pattern_type, CONFIRMED_STRENGTH));
            }
        }
        None
    }

    /// Check for pattern exhaustion (signal decay).
    fn check_exhaustion(&mut self, price: u64)
        requires
            i64::MIN < (price as i64) - (old(self).start_price as i64) <= i64::MAX,
            i64::MIN < (old(self).current_price as i64) - (old(self).start_price as i64)
                <= i64::MAX,
        ensures
            *final(self) == old(self).worn(price),
    {
        let moved: u64 = magnitude(price as i64 - self.start_price as i64);
        let reached: u64 = magnitude(self.current_price as i64 - self.start_price as i64);
        if moved < reached / 2 {
            self.state = FsmState::Exhausted;
            self.signal_strength = 0;
        }
    }

    /// Get current state.
    pub fn get_state(&self) -> (r: FsmState)
        ensures
            r == self.state,
    {
        self.state
    }

    /// Get current signal strength.
    pub fn get_signal_strength(&self) -> (r: u8)
        ensures
            r == self.signal_strength,
    {
        self.signal_strength
    }
}

impl Default for PatternFsm {
    fn default() -> (r: Self)
        ensures
            r == PatternFsm::idle(),
    {
        PatternFsm::new()
    }
}

/// The signals of a row of machines on one tick, in the machines' order.
pub open spec fn row_signals(
    fsms: Seq<PatternFsm>,
    price: u64,
    volume: u64,
    now: u64,
    config: PatternConfig,
) -> Seq<(PatternType, u8)>
    decreases fsms.len(),
{
    if fsms.len() == 0 {
        Seq::empty()
    } else {
        let head = row_signals(fsms.drop_last(), price, volume, now, config);
        match fsms.last().tick_signal(price, volume, now, config) {
            Some(s) => head.push(s),
            None => head,
        }
    }
}

/// A row of machines after one tick, which each of them sees.
pub open spec fn row_after(
    fsms: Seq<PatternFsm>,
    price: u64,
    volume: u64,
    now: u64,
    config: PatternConfig,
) -> Seq<PatternFsm> {
    fsms.map_values(|m: PatternFsm| m.after_tick(price, volume, now, config))
}

/// A row of machines after a run of ticks.
pub open spec fn row_after_all(
    fsms: Seq<PatternFsm>,
    ticks: Seq<PatternTick>,
    config: PatternConfig,
) -> Seq<PatternFsm>
    decreases ticks.len(),
{
    if ticks.len() == 0 {
        fsms
    } else {
        let t = ticks.last();
        row_after(
            row_after_all(fsms, ticks.drop_last(), config),
            t.price,
            t.volume,
            t.timestamp_ns,
            config,
        )
    }
}

/// Manager for multiple parallel pattern FSMs.
pub struct PatternManager {
    /// Four patterns tracked in parallel
    pub fsms: Vec<PatternFsm>,
    pub active_index: u8,
}

impl PatternManager {
    pub open spec fn wf(&self) -> bool {
        &&& self.fsms.len() == 4
        &&& forall|i: int| 0 <= i < self.fsms.len() ==> (#[trigger] self.fsms@[i]).wf()
    }

    pub fn new() -> (r: Self)
        ensures
            r.wf(),
            forall|i: int| 0 <= i < 4 ==> #[trigger] r.fsms@[i] == PatternFsm::idle(),
            r.active_index == 0,
    {
        let mut fsms: Vec<PatternFsm> = Vec::with_capacity(4);
        fsms.push(PatternFsm::new());
        fsms.push(PatternFsm::new());
        fsms.push(PatternFsm::new());
        fsms.push(PatternFsm::new());
        PatternManager { fsms, active_index: 0 }
    }

    /// Process a tick through all active FSMs.
    pub fn process_tick(
        &mut self,
        price: u64,
        volume: u64,
        timestamp_ns: u64,
        config: &PatternConfig,
    ) -> (signals: Vec<(PatternType, u8)>)
        requires
            old(self).wf(),
            forall|i: int|
                0 <= i < old(self).fsms.len() ==> (#[trigger] old(self).fsms@[i]).accepts(price),
        ensures
            final(self).wf(),
            final(self).fsms@ == row_after(
                old(self).fsms@,
                price,
                volume,
                timestamp_ns,
                *config,
            ),
            signals@ == row_signals(old(self).fsms@, price, volume, timestamp_ns, *config),
            final(self).active_index == old(self).active_index,
    {
        let mut signals: Vec<(PatternType, u8)> = Vec::with_capacity(4);
        let ghost row = self.fsms@;
        let n: usize = self.fsms.len();
        let mut i: usize = 0;
        proof {
            assert(row.subrange(0, 0) =~= Seq::<PatternFsm>::empty());
        }
        while i < n
            invariant
                i <= n,
                n == row.len(),
                self.fsms.len() == n,
                self.active_index == old(self).active_index,
                forall|k: int| 0 <= k < n ==> (#[trigger] row[k]).accepts(price),
                forall|k: int| 0 <= k < n ==> (#[trigger] row[k]).wf(),
                forall|k: int| 0 <= k < i ==> (#[trigger] self.fsms@[k]).wf(),
                forall|k: int|
                    0 <= k < i ==> #[trigger] self.fsms@[k] == row[k].after_tick(
                        price,
                        volume,
                        timestamp_ns,
                        *config,
                    ),
                forall|k: int| i <= k < n ==> #[trigger] self.fsms@[k] == row[k],
                signals@ == row_signals(
                    row.subrange(0, i as int),
                    price,
                    volume,
                    timestamp_ns,
                    *config,
                ),
            decreases n - i,
        {
            let mut fsm: PatternFsm = self.fsms[i];
            let found: Option<(PatternType, u8)> = fsm.process_tick(
                price,
                volume,
                timestamp_ns,
                config,
            );
            self.fsms.set(i, fsm);
            proof {
                let next = row.subrange(0, i + 1);
                assert(next.drop_last() =~= row.subrange(0, i as int));
                assert(next.last() == row[i as int]);
            }
            match found {
                Some(signal) => {
                    signals.push(signal);
                },
                None => {},
            }
            i = i + 1;
        }
        proof {
            assert(row.subrange(0, n as int) =~= row);
            assert(self.fsms@ =~= row_after(row, price, volume, timestamp_ns, *config));
        }
        signals
    }

    /// The next machine for new pattern tracking, handed out in turn.
    pub fn get_available_fsm(&mut self) -> (r: &PatternFsm)
        requires
            old(self).wf(),
        ensures
            *r == old(self).fsms@[(old(self).active_index % 4) as int],
            final(self).fsms == old(self).fsms,
            final(self).active_index == old(self).active_index.wrapping_add(1),
    {
        let idx: u8 = self.active_index % 4;
        self.active_index = self.active_index.wrapping_add(1);
        &self.fsms[idx as usize]
    }
}

impl Default for PatternManager {
    fn default() -> (r: Self)
        ensures
            r.wf(),
            forall|i: int| 0 <= i < 4 ==> #[trigger] r.fsms@[i] == PatternFsm::idle(),
            r.active_index == 0,
    {
        PatternManager::new()
    }
}

/// A machine moves only along the pattern's life: idle, building, triggered,
/// confirmed, exhausted, with a way back to idle from building and exhausted.
pub proof fn law_states_follow_the_cycle(
    m: PatternFsm,
    price: u64,
    volume: u64,
    now: u64,
    config: PatternConfig,
)
    ensures
        ({
            let n = m.after_tick(price, volume, now, config).state;
            match m.state {
                FsmState::Idle => n == FsmState::Idle || n == FsmState::Building,
                FsmState::Building => n == FsmState::Building || n == FsmState::Triggered || n
                    == FsmState::Idle,
                FsmState::Triggered => n == FsmState::Triggered || n == FsmState::Confirmed,
                FsmState::Confirmed => n == FsmState::Confirmed || n == FsmState::Exhausted,
                FsmState::Exhausted => n == FsmState::Exhausted || n == FsmState::Idle,
            }
        }),
{
}

/// A signal is given exactly by the tick that confirms, and the machine then
/// carries the confirmed strength.
pub proof fn law_signal_iff_confirmed(
    m: PatternFsm,
    price: u64,
    volume: u64,
    now: u64,
    config: PatternConfig,
)
    requires
        m.wf(),
    ensures
        m.tick_signal(price, volume, now, config) is Some <==> (m.state == FsmState::Triggered
            && m.after_tick(price, volume, now, config).state == FsmState::Confirmed),
        m.tick_signal(price, volume, now, config) matches Some((p, strength)) ==> strength
            == CONFIRMED_STRENGTH && (p == PatternType::StopRun || p == PatternType::Absorption),
        m.tick_signal(price, volume, now, config) is Some ==> m.after_tick(
            price,
            volume,
            now,
            config,
        ).signal_strength == CONFIRMED_STRENGTH,
{
}

/// A machine that has triggered tracks a stop-run or an absorption, after any
/// run of ticks.
pub proof fn law_triggered_tracks_pattern(
    m: PatternFsm,
    ticks: Seq<PatternTick>,
    config: PatternConfig,
)
    requires
        m.wf(),
    ensures
        m.after_all(ticks, config).wf(),
    decreases ticks.len(),
{
    if ticks.len() > 0 {
        law_triggered_tracks_pattern(m, ticks.drop_last(), config);
    }
}

/// Machines that start alike see every tick alike: after any run each is what
/// one machine alone would be, and the next tick gives the signal of that one
/// from every machine, or none.
pub proof fn law_row_follows_one(
    m: PatternFsm,
    n: nat,
    ticks: Seq<PatternTick>,
    next: PatternTick,
    config: PatternConfig,
)
    ensures
        ({
            let row = row_after_all(Seq::new(n, |i: int| m), ticks, config);
            let one = m.after_all(ticks, config);
            let signals = row_signals(row, next.price, next.volume, next.timestamp_ns, config);
            &&& row == Seq::new(n, |i: int| one)
            &&& match one.tick_signal(next.price, next.volume, next.timestamp_ns, config) {
                None => signals == Seq::<(PatternType, u8)>::empty(),
                Some(s) => signals == Seq::new(n, |i: int| s),
            }
        }),
    decreases ticks.len(),
{
    let one = m.after_all(ticks, config);
    let row = row_after_all(Seq::new(n, |i: int| m), ticks, config);
    if ticks.len() > 0 {
        law_row_follows_one(m, n, ticks.drop_last(), next, config);
    }
    assert(row =~= Seq::new(n, |i: int| one));
    lemma_equal_row_signals(one, n, next, config);
}

proof fn lemma_equal_row_signals(
    one: PatternFsm,
    n: nat,
    next: PatternTick,
    config: PatternConfig,
)
    ensures
        ({
            let row = Seq::new(n, |i: int| one);
            let signals = row_signals(row, next.price, next.volume, next.timestamp_ns, config);
            match one.tick_signal(next.price, next.volume, next.timestamp_ns, config) {
                None => signals == Seq::<(PatternType, u8)>::empty(),
                Some(s) => signals == Seq::new(n, |i: int| s),
            }
        }),
    decreases n,
{
    let row = Seq::new(n, |i: int| one);
    let signals = row_signals(row, next.price, next.volume, next.timestamp_ns, config);
    if n > 0 {
        let fewer = (n - 1) as nat;
        lemma_equal_row_signals(one, fewer, next, config);
        assert(row.drop_last() =~= Seq::new(fewer, |i: int| one));
    }
    match one.tick_signal(next.price, next.volume, next.timestamp_ns, config) {
        None => {
            assert(signals =~= Seq::<(PatternType, u8)>::empty());
        },
        Some(s) => {
            assert(signals =~= Seq::new(n, |i: int| s));
        },
    }
}

/// A price that keeps running does not confirm a stop-run: the machine stays
/// triggered and gives no signal.
pub proof fn law_running_price_confirms_nothing(
    m: PatternFsm,
    price: u64,
    volume: u64,
    now: u64,
    config: PatternConfig,
)
    requires
        m.state == FsmState::Triggered,
        m.pattern_type == PatternType::StopRun,
        math::abs_int(price - m.start_price) >= math::abs_int(m.current_price - m.start_price),
    ensures
        m.after_tick(price, volume, now, config).state == FsmState::Triggered,
        m.tick_signal(price, volume, now, config) is None,
{
}

/// Every state and every pattern has a code of its own, in their order.
pub proof fn law_codes_follow_the_order()
    ensures
        FsmState::Idle.code() == 0,
        FsmState::Building.code() == 1,
        FsmState::Triggered.code() == 2,
        FsmState::Confirmed.code() == 3,
        FsmState::Exhausted.code() == 4,
        PatternType::NoPattern.code() == 0,
        PatternType::StopRun.code() == 1,
        PatternType::Absorption.code() == 2,
        PatternType::LiquidityGrab.code() == 3,
        PatternType::Fakeout.code() == 4,
{
}

/// An idle machine gathers volume as long as the window lasts and then anew,
/// from the price at which it began; once half the absorption volume is there a
/// pattern builds up.
pub proof fn law_volume_builds_a_pattern(
    m: PatternFsm,
    price: u64,
    volume: u64,
    now: u64,
    config: PatternConfig,
)
    requires
        m.state == FsmState::Idle,
        m.event_count < u64::MAX,
        m.accumulated_volume + volume <= u64::MAX,
    ensures
        ({
            let n = m.after_tick(price, volume, now, config);
            let fresh = m.event_count == 0 || now > m.start_ts_ns + config.time_window_ns;
            let gathered = if fresh {
                volume as int
            } else {
                m.accumulated_volume + volume
            };
            &&& n.accumulated_volume == gathered
            &&& n.start_price == (if fresh {
                price
            } else {
                m.start_price
            })
            &&& n.start_ts_ns == (if fresh {
                now
            } else {
                m.start_ts_ns
            })
            &&& n.event_count == (if fresh {
                1int
            } else {
                m.event_count + 1
            })
            &&& n.current_price == price
            &&& n.last_ts_ns == now
            &&& n.state == FsmState::Building <==> 2 * gathered + 1 >= config.absorption_volume
            &&& n.state == FsmState::Building ==> n.pattern_type == PatternType::Absorption
        }),
{
}

/// A pattern that builds up turns into a stop-run once the price has moved by
/// the ticks of one, each of a hundred units, into an absorption once the whole
/// volume is there and the price has moved by less than half as many, and is
/// given up once the window is over. The events that confirm are counted from
/// there on.
pub proof fn law_building_pattern_triggers(
    m: PatternFsm,
    price: u64,
    volume: u64,
    now: u64,
    config: PatternConfig,
)
    requires
        m.state == FsmState::Building,
        m.accumulated_volume + volume <= u64::MAX,
    ensures
        ({
            let n = m.after_tick(price, volume, now, config);
            let moved = math::max_int(price - m.start_price, m.start_price - price);
            let ran = moved >= 100 * config.stop_run_ticks;
            let absorbed = m.accumulated_volume + volume >= config.absorption_volume && moved < 100
                * (config.stop_run_ticks / 2);
            let over = now > m.start_ts_ns + config.time_window_ns;
            &&& ran ==> n.state == FsmState::Triggered && n.pattern_type == PatternType::StopRun
            &&& !ran && absorbed ==> n.state == FsmState::Triggered && n.pattern_type
                == PatternType::Absorption
            &&& ran || absorbed ==> n.event_count == 0 && n.current_price == price && n.start_price
                == m.start_price
            &&& !ran && !absorbed && over ==> n.state == FsmState::Idle && n.event_count == 0
                && n.accumulated_volume == 0 && n.signal_strength == 0 && n.pattern_type
                == PatternType::NoPattern
            &&& !ran && !absorbed && !over ==> n.state == FsmState::Building
                && n.accumulated_volume == m.accumulated_volume + volume && n.pattern_type
                == m.pattern_type
        }),
{
}

/// A triggered pattern is confirmed by as many confirming ticks as the
/// configuration asks for: any tick confirms an absorption, and one nearer to
/// the start than the trigger was confirms a stop-run. The signal is then
/// eighty of a hundred.
pub proof fn law_confirming_ticks_confirm(
    m: PatternFsm,
    price: u64,
    volume: u64,
    now: u64,
    config: PatternConfig,
)
    requires
        m.state == FsmState::Triggered,
        m.event_count < u64::MAX,
    ensures
        ({
            let n = m.after_tick(price, volume, now, config);
            let moved = math::max_int(price - m.start_price, m.start_price - price);
            let reached = math::max_int(
                m.current_price - m.start_price,
                m.start_price - m.current_price,
            );
            let confirming = m.pattern_type != PatternType::StopRun || moved < reached;
            &&& n.event_count == m.event_count + (if confirming {
                1int
            } else {
                0
            })
            &&& n.state == FsmState::Confirmed <==> confirming && m.event_count + 1
                >= config.confirmation_count
            &&& n.state == FsmState::Confirmed ==> n.signal_strength == 80
            &&& n.state != FsmState::Confirmed ==> n.signal_strength == m.signal_strength
            &&& n.pattern_type == m.pattern_type
            &&& m.tick_signal(price, volume, now, config) == (if n.state == FsmState::Confirmed {
                Some((m.pattern_type, 80u8))
            } else {
                None
            })
        }),
{
}

/// A confirmed pattern is exhausted once the price is back to less than half of
/// the way from the start, and loses its signal; an exhausted one is cleared
/// once the window is over.
pub proof fn law_confirmed_pattern_wears_off(
    m: PatternFsm,
    price: u64,
    volume: u64,
    now: u64,
    config: PatternConfig,
)
    requires
        m.start_price <= i64::MAX,
        m.current_price <= i64::MAX,
        price <= i64::MAX,
    ensures
        ({
            let n = m.after_tick(price, volume, now, config);
            let moved = math::max_int(price - m.start_price, m.start_price - price);
            let reached = math::max_int(
                m.current_price - m.start_price,
                m.start_price - m.current_price,
            );
            &&& m.state == FsmState::Confirmed ==> (n.state == FsmState::Exhausted <==> 2 * (moved
                + 1) <= reached)
            &&& m.state == FsmState::Confirmed && n.state == FsmState::Exhausted
                ==> n.signal_strength == 0
            &&& m.state == FsmState::Confirmed && n.state == FsmState::Confirmed ==> n == m
            &&& m.state == FsmState::Exhausted ==> (n.state == FsmState::Idle <==> now
                > m.last_ts_ns + config.time_window_ns)
            &&& m.state == FsmState::Exhausted && n.state == FsmState::Idle ==> n.event_count == 0
                && n.accumulated_volume == 0 && n.signal_strength == 0
            &&& m.state == FsmState::Exhausted && n.state != FsmState::Idle ==> n == m
        }),
{
}

} // verus!
