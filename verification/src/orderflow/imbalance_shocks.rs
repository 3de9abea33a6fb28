//! The sliding window of order-book events behind the shock intensity.
use std::collections::VecDeque;
use vstd::prelude::*;

verus! {

/// Window length: five seconds.
pub const MAX_WINDOW_NS: u64 = 5_000_000_000;

/// When an event happened and what it was (0 = cancellation, 1 = aggressive
/// buy, 2 = aggressive sell).
#[derive(Debug, Clone, Copy, PartialEq, Eq, Structural)]
pub struct WindowEvent {
    pub timestamp_ns: u64,
    pub event_type: u8,
}

/// How many events at the front lie before the cutoff.
pub open spec fn stale_prefix(events: Seq<WindowEvent>, cutoff: int) -> nat
    decreases events.len(),
{
    if events.len() == 0 || events[0].timestamp_ns >= cutoff {
        0
    } else {
        1 + stale_prefix(events.subrange(1, events.len() as int), cutoff)
    }
}

/// The events that are left once the stale ones at the front are gone.
pub open spec fn pruned(events: Seq<WindowEvent>, cutoff: int) -> Seq<WindowEvent> {
    events.subrange(stale_prefix(events, cutoff) as int, events.len() as int)
}

pub open spec fn cutoff_at(now_ns: u64, window_ns: u64) -> int {
    if now_ns >= window_ns {
        now_ns - window_ns
    } else {
        0
    }
}

proof fn lemma_stale_prefix(events: Seq<WindowEvent>, cutoff: int)
    ensures
        stale_prefix(events, cutoff) <= events.len(),
    decreases events.len(),
{
    if events.len() > 0 && events[0].timestamp_ns < cutoff {
        lemma_stale_prefix(events.subrange(1, events.len() as int), cutoff);
    }
}

/// Recent events, oldest first, with the time of the last one.
pub struct EventWindow {
    pub events: VecDeque<WindowEvent>,
    pub last_timestamp_ns: u64,
    pub max_window_ns: u64,
}

impl EventWindow {
    pub fn new() -> (r: Self)
        ensures
            r.events@ == Seq::<WindowEvent>::empty(),
            r.last_timestamp_ns == 0,
            r.max_window_ns == MAX_WINDOW_NS,
    {
        EventWindow {
            events: VecDeque::with_capacity(1000),
            last_timestamp_ns: 0,
            max_window_ns: MAX_WINDOW_NS,
        }
    }

    /// Records an event, drops those that have left the window, and tells the
    /// nanoseconds since the event before it (zero for the first).
    pub fn add_event(&mut self, timestamp_ns: u64, event_type: u8) -> (elapsed_ns: u64)
        requires
            old(self).events.len() < usize::MAX,
        ensures
            elapsed_ns == (if old(self).last_timestamp_ns == 0 || timestamp_ns < old(self).last_timestamp_ns {
                0
            } else {
                timestamp_ns - old(self).last_timestamp_ns
            }),
            final(self).events@ == pruned(
                old(self).events@.push(WindowEvent { timestamp_ns, event_type }),
                cutoff_at(timestamp_ns, old(self).max_window_ns),
            ),
            final(self).last_timestamp_ns == timestamp_ns,
            final(self).max_window_ns == old(self).max_window_ns,
    {
        if self.last_timestamp_ns == 0 {
            self.last_timestamp_ns = timestamp_ns;
        }
        let elapsed: u64 = timestamp_ns.saturating_sub(self.last_timestamp_ns);
        self.events.push_back(WindowEvent { timestamp_ns, event_type });
        self.prune_old_events(timestamp_ns);
        self.last_timestamp_ns = timestamp_ns;
        elapsed
    }

    /// Prune events older than the maximum window.
    pub fn prune_old_events(&mut self, current_ts: u64)
        ensures
            final(self).events@ == pruned(
                old(self).events@,
                cutoff_at(current_ts, old(self).max_window_ns),
            ),
            final(self).last_timestamp_ns == old(self).last_timestamp_ns,
            final(self).max_window_ns == old(self).max_window_ns,
    {
        let cutoff: u64 = current_ts.saturating_sub(self.max_window_ns);
        let ghost all = self.events@;
        let ghost mut gone: int = 0;
        proof {
            assert(all.subrange(0, all.len() as int) =~= all);
            lemma_stale_prefix(all, cutoff as int);
        }
        while self.events.len() > 0 && self.events[0].timestamp_ns < cutoff
            invariant
                0 <= gone <= all.len(),
                self.events@ == all.subrange(gone, all.len() as int),
                stale_prefix(all, cutoff as int) == gone + stale_prefix(
                    self.events@,
                    cutoff as int,
                ),
                self.last_timestamp_ns == old(self).last_timestamp_ns,
                self.max_window_ns == old(self).max_window_ns,
            decreases self.events.len(),
        {
            let ghost before = self.events@;
            let _ = self.events.pop_front();
            proof {
                gone = gone + 1;
                assert(self.events@ =~= before.subrange(1, before.len() as int));
                assert(self.events@ =~= all.subrange(gone, all.len() as int));
            }
        }
    }

    /// Get the number of recent events in the window.
    pub fn get_event_count(&self) -> (r: usize)
        ensures
            r == self.events@.len(),
    {
        self.events.len()
    }

    /// Forgets the events; the time of the last one is kept.
    pub fn reset(&mut self)
        ensures
            final(self).events@ == Seq::<WindowEvent>::empty(),
            final(self).last_timestamp_ns == old(self).last_timestamp_ns,
            final(self).max_window_ns == old(self).max_window_ns,
    {
        self.events.clear();
    }
}

/// With timestamps in order, pruning keeps exactly the events inside the window.
pub proof fn law_window_holds_recent_events(events: Seq<WindowEvent>, cutoff: int)
    requires
        forall|i: int, j: int|
            0 <= i <= j < events.len() ==> (#[trigger] events[i]).timestamp_ns
                <= (#[trigger] events[j]).timestamp_ns,
    ensures
        forall|i: int|
            0 <= i < pruned(events, cutoff).len() ==> (#[trigger] pruned(
                events,
                cutoff,
            )[i]).timestamp_ns >= cutoff,
        forall|i: int|
            0 <= i < events.len() && (#[trigger] events[i]).timestamp_ns >= cutoff ==> i
                >= stale_prefix(events, cutoff),
    decreases events.len(),
{
    lemma_stale_prefix(events, cutoff);
    if events.len() > 0 && events[0].timestamp_ns < cutoff {
        let rest = events.subrange(1, events.len() as int);
        law_window_holds_recent_events(rest, cutoff);
        assert(pruned(events, cutoff) =~= pruned(rest, cutoff));
        assert forall|i: int|
            0 <= i < events.len() && (#[trigger] events[i]).timestamp_ns >= cutoff implies i
            >= stale_prefix(events, cutoff) by {
            assert(i > 0);
            assert(rest[i - 1] == events[i]);
        }
    } else {
        assert(pruned(events, cutoff) =~= events);
    }
}

/// The window reaches back by its length from now, and to the beginning of time
/// at most.
pub proof fn law_window_reaches_back(now_ns: u64, window_ns: u64)
    ensures
        cutoff_at(now_ns, window_ns) >= 0,
        now_ns >= window_ns ==> cutoff_at(now_ns, window_ns) + window_ns == now_ns,
        now_ns < window_ns ==> cutoff_at(now_ns, window_ns) == 0,
{
}

/// What is left of a window is its end, in the same order, from the first event
/// on that is recent enough.
pub proof fn law_pruning_drops_only_the_stale(events: Seq<WindowEvent>, cutoff: int)
    ensures
        stale_prefix(events, cutoff) <= events.len(),
        ({
            let n = events.len() - pruned(events, cutoff).len();
            &&& 0 <= n <= events.len()
            &&& pruned(events, cutoff) == events.subrange(n, events.len() as int)
            &&& n < events.len() ==> events[n].timestamp_ns >= cutoff
            &&& forall|i: int| 0 <= i < n ==> (#[trigger] events[i]).timestamp_ns < cutoff
        }),
    decreases events.len(),
{
    if events.len() > 0 && events[0].timestamp_ns < cutoff {
        let rest = events.subrange(1, events.len() as int);
        law_pruning_drops_only_the_stale(rest, cutoff);
        let n = stale_prefix(rest, cutoff) as int;
        assert(0 <= n <= rest.len());
        assert(pruned(rest, cutoff) =~= rest.subrange(n, rest.len() as int));
        assert(pruned(events, cutoff) =~= events.subrange(n + 1, events.len() as int));
        assert forall|i: int| 0 <= i < n + 1 implies (#[trigger] events[i]).timestamp_ns
            < cutoff by {
            if i > 0 {
                assert(rest[i - 1] == events[i]);
            }
        }
        if n < rest.len() {
            assert(rest[n] == events[n + 1]);
        }
    }
}

} // verus!
