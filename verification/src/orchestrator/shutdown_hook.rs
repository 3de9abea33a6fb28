//! Decisions of a graceful shutdown: how often orders are cancelled, and what
//! the shutdown is reported as.
use vstd::prelude::*;

verus! {

/// Maximum time allowed for graceful shutdown (milliseconds)
pub const SHUTDOWN_TIMEOUT_MS: u64 = 5000;

/// Time that each phase of a shutdown may take (milliseconds)
pub const PHASE_TIMEOUT_MS: u64 = 2000;

/// Attempts at cancelling the open orders
pub const CANCEL_ATTEMPTS: u32 = 3;

/// Cancellation result
#[derive(Debug)]
pub struct ShutdownResult {
    pub orders_cancelled: u32,
    pub events_flushed: u32,
    pub success: bool,
    pub error_message: Option<String>,
}

/// The text of an error message, if there is one.
pub open spec fn message_text(m: Option<String>) -> Option<Seq<char>> {
    match m {
        Some(s) => Some(s@),
        None => None,
    }
}

/// Graceful shutdown handler
pub struct ShutdownHook {
    /// Flag indicating shutdown in progress
    pub shutting_down: bool,
}

impl ShutdownHook {
    /// Create a new shutdown hook
    pub fn new() -> (r: Self)
        ensures
            !r.shutting_down,
    {
        ShutdownHook { shutting_down: false }
    }

    /// Begins the shutdown sequence: nothing, or the result for a shutdown that
    /// is in progress already
    pub fn begin_shutdown(&mut self) -> (r: Option<ShutdownResult>)
        ensures
            final(self).shutting_down,
            match r {
                Some(result) => {
                    &&& old(self).shutting_down
                    &&& result.orders_cancelled == 0
                    &&& result.events_flushed == 0
                    &&& !result.success
                    &&& message_text(result.error_message) == Some("Shutdown already in progress"@)
                },
                None => !old(self).shutting_down,
            },
    {
        if self.shutting_down {
            return Some(
                ShutdownResult {
                    orders_cancelled: 0,
                    events_flushed: 0,
                    success: false,
                    error_message: Some("Shutdown already in progress".to_owned()),
                },
            );
        }
        self.shutting_down = true;
        None
    }

    /// The result of a shutdown sequence: the orders cancelled and the events
    /// flushed, each nothing where the phase timed out, and the time it took
    pub fn execute_shutdown(cancelled: Option<u32>, flushed: Option<u32>, elapsed_ns: u64) -> (r:
        ShutdownResult)
        ensures
            r.orders_cancelled == (match cancelled {
                Some(n) => n,
                None => 0,
            }),
            r.events_flushed == (match flushed {
                Some(n) => n,
                None => 0,
            }),
            r.success == (elapsed_ns <= SHUTDOWN_TIMEOUT_MS * 1_000_000),
            message_text(r.error_message) == (if cancelled is None {
                Some("Order cancellation timeout"@)
            } else if flushed is None {
                Some("Event flush timeout"@)
            } else {
                None
            }),
    {
        let mut result: ShutdownResult = ShutdownResult {
            orders_cancelled: 0,
            events_flushed: 0,
            success: true,
            error_message: None,
        };
        match cancelled {
            Some(n) => {
                result.orders_cancelled = n;
            },
            None => {
                result.error_message = Some("Order cancellation timeout".to_owned());
            },
        }
        match flushed {
            Some(n) => {
                result.events_flushed = n;
            },
            None => {
                if result.error_message.is_none() {
                    result.error_message = Some("Event flush timeout".to_owned());
                }
            },
        }
        if elapsed_ns > SHUTDOWN_TIMEOUT_MS * 1_000_000 {
            result.success = false;
        }
        result
    }

    /// Check if shutdown is in progress
    pub fn is_shutting_down(&self) -> (r: bool)
        ensures
            r == self.shutting_down,
    {
        self.shutting_down
    }
}

/// What came of an attempt at cancelling the open orders.
#[derive(Debug, Clone, Copy, PartialEq, Eq, Structural)]
pub enum CancelEvent {
    /// The rate limit leaves no room for a request
    RateLimited,
    /// So many orders were cancelled
    Cancelled(u32),
    /// The request failed
    Failed,
}

/// What is done after an attempt: a wait, and then another attempt or none.
#[derive(Debug, Clone, Copy, PartialEq, Eq, Structural)]
pub struct CancelAction {
    pub wait_ms: u64,
    pub finished: bool,
}

/// The attempts at cancelling the open orders
pub struct CancelAttempts {
    pub attempt: u32,
    pub cancelled_count: u32,
}

impl CancelAttempts {
    pub open spec fn wf(&self) -> bool {
        self.attempt <= CANCEL_ATTEMPTS
    }

    pub fn new() -> (r: Self)
        ensures
            r == (CancelAttempts { attempt: 0, cancelled_count: 0 }),
            r.wf(),
    {
        CancelAttempts { attempt: 0, cancelled_count: 0 }
    }

    /// What is done after an attempt. A rate limit delays by 100 ms, a failure
    /// by 50 ms more each time and not after the last attempt.
    pub fn cancel_all_orders(&mut self, event: CancelEvent) -> (r: CancelAction)
        requires
            old(self).attempt < CANCEL_ATTEMPTS,
            old(self).cancelled_count == 0,
        ensures
            final(self).wf(),
            final(self).attempt == old(self).attempt + 1,
            final(self).cancelled_count == (match event {
                CancelEvent::Cancelled(n) => n,
                _ => 0,
            }),
            r == (match event {
                CancelEvent::RateLimited => CancelAction {
                    wait_ms: 100,
                    finished: final(self).attempt == CANCEL_ATTEMPTS,
                },
                CancelEvent::Cancelled(_) => CancelAction { wait_ms: 0, finished: true },
                CancelEvent::Failed => CancelAction {
                    wait_ms: if old(self).attempt < CANCEL_ATTEMPTS - 1 {
                        (50 * (old(self).attempt + 1)) as u64
                    } else {
                        0
                    },
                    finished: final(self).attempt == CANCEL_ATTEMPTS,
                },
            }),
    {
        let attempt: u32 = self.attempt;
        self.attempt = attempt + 1;
        let last: bool = self.attempt == CANCEL_ATTEMPTS;
        match event {
            CancelEvent::RateLimited => CancelAction { wait_ms: 100, finished: last },
            CancelEvent::Cancelled(count) => {
                self.cancelled_count = count;
                CancelAction { wait_ms: 0, finished: true }
            },
            CancelEvent::Failed => {
                if attempt < CANCEL_ATTEMPTS - 1 {
                    CancelAction { wait_ms: 50 * (attempt as u64 + 1), finished: last }
                } else {
                    CancelAction { wait_ms: 0, finished: last }
                }
            },
        }
    }
}

} // verus!
