//! Decisions of the master event loop.
use vstd::prelude::*;

verus! {

/// Maximum allowed RAM usage in bytes (8GB)
pub const MAX_RAM_BYTES: u64 = 8_589_934_592;

/// Ticks between two synchronizations of state
pub const SYNC_INTERVAL: u64 = 1000;

/// Master orchestrator state
pub struct MasterOrchestrator {
    /// Flag indicating if the system is running
    pub running: bool,
    /// Global tick counter
    pub tick_counter: u64,
}

/// What wakes the loop.
#[derive(Debug, Clone, Copy, PartialEq, Eq, Structural)]
pub enum LoopEvent {
    /// The interval has passed; with the bytes that the arena uses
    Tick(u64),
    /// Shutdown was signalled
    Shutdown,
}

/// What the loop does next.
#[derive(Debug, Clone, Copy, PartialEq, Eq, Structural)]
pub enum LoopAction {
    /// Process a tick, with or without a state sync and a defragmentation
    Process { tick: u64, sync_state: bool, defragment: bool },
    /// Leave the loop
    Leave,
}

impl MasterOrchestrator {
    /// Create a new master orchestrator
    pub fn new() -> (r: Self)
        ensures
            r == (MasterOrchestrator { running: false, tick_counter: 0 }),
    {
        MasterOrchestrator { running: false, tick_counter: 0 }
    }

    /// Validate memory bounds before the loop starts
    pub fn initialize(&self, arena_used_bytes: u64) -> (r: Result<(), &'static str>)
        ensures
            match r {
                Ok(()) => arena_used_bytes <= MAX_RAM_BYTES,
                Err(e) => arena_used_bytes > MAX_RAM_BYTES && e@
                    == "Memory limit exceeded at initialization"@,
            },
    {
        if arena_used_bytes > MAX_RAM_BYTES {
            return Err("Memory limit exceeded at initialization");
        }
        Ok(())
    }

    /// Enter the event loop
    pub fn run(&mut self)
        ensures
            *final(self) == (MasterOrchestrator { running: true, ..*old(self) }),
    {
        self.running = true;
    }

    /// What the loop does on an event. It is left on a shutdown signal, and
    /// before any tick once the system no longer runs.
    pub fn on_event(&mut self, event: LoopEvent) -> (r: LoopAction)
        ensures
            match event {
                LoopEvent::Tick(used) if old(self).running => {
                    &&& r == (LoopAction::Process {
                        tick: old(self).tick_counter,
                        sync_state: old(self).tick_counter % SYNC_INTERVAL == 0,
                        defragment: used > MAX_RAM_BYTES,
                    })
                    &&& *final(self) == (MasterOrchestrator {
                        tick_counter: old(self).tick_counter.wrapping_add(1),
                        ..*old(self)
                    })
                },
                _ => r == LoopAction::Leave && *final(self) == *old(self),
            },
    {
        if !self.running {
            return LoopAction::Leave;
        }
        match event {
            LoopEvent::Tick(used) => {
                let tick: u64 = self.tick_counter;
                self.tick_counter = tick.wrapping_add(1);
                LoopAction::Process {
                    tick,
                    sync_state: self.process_tick(tick),
                    defragment: used > MAX_RAM_BYTES,
                }
            },
            LoopEvent::Shutdown => LoopAction::Leave,
        }
    }

    /// Process a single tick: whether state is synchronized on it
    fn process_tick(&self, tick: u64) -> (sync_state: bool)
        ensures
            sync_state == (tick % SYNC_INTERVAL == 0),
    {
        tick % SYNC_INTERVAL == 0
    }

    /// Signal shutdown to all components
    pub fn shutdown(&mut self)
        ensures
            *final(self) == (MasterOrchestrator { running: false, ..*old(self) }),
    {
        self.running = false;
    }

    /// Get current tick count
    pub fn get_tick(&self) -> (r: u64)
        ensures
            r == self.tick_counter,
    {
        self.tick_counter
    }
}

} // verus!
