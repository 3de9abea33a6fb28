//! Bookkeeping for cooperative fibers.
use crate::math;
use vstd::prelude::*;

verus! {

/// Most fibers that a scheduler holds
pub const FIBER_LIMIT: usize = 256;

/// Fiber state enumeration
#[derive(Debug, Clone, Copy, PartialEq, Eq, Structural)]
pub enum FiberState {
    Ready,
    Running,
    Yielded,
    Completed,
}

/// Fiber control block
#[derive(Debug, Clone, Copy, PartialEq, Eq, Structural)]
pub struct FiberControlBlock {
    /// Fiber handle of the system; zero stands for none
    pub handle: u64,
    /// Fiber ID
    pub id: u64,
    /// Current state
    pub state: FiberState,
    /// Stack size in bytes
    pub stack_size: usize,
    /// Creation timestamp (nanoseconds)
    pub created_ns: u64,
    /// Last switch timestamp (nanoseconds)
    pub last_switch_ns: u64,
    /// Total switches count
    pub switch_count: u64,
    /// Active flag
    pub active: bool,
    /// User data
    pub user_data: u64,
}

impl FiberControlBlock {
    pub open spec fn fresh(id: u64, stack_size: usize) -> FiberControlBlock {
        FiberControlBlock {
            handle: 0,
            id,
            state: FiberState::Ready,
            stack_size,
            created_ns: 0,
            last_switch_ns: 0,
            switch_count: 0,
            active: false,
            user_data: 0,
        }
    }

    /// Create new fiber control block
    pub fn new(id: u64, stack_size: usize) -> (r: Self)
        ensures
            r == FiberControlBlock::fresh(id, stack_size),
    {
        FiberControlBlock {
            handle: 0,
            id,
            state: FiberState::Ready,
            stack_size,
            created_ns: 0,
            last_switch_ns: 0,
            switch_count: 0,
            active: false,
            user_data: 0,
        }
    }

    /// Get current switch count
    pub fn get_switch_count(&self) -> (r: u64)
        ensures
            r == self.switch_count,
    {
        self.switch_count
    }

    /// Check if fiber is active
    pub fn is_active(&self) -> (r: bool)
        ensures
            r == self.active,
    {
        self.active
    }
}

/// Fiber statistics
#[derive(Debug, Clone, Copy, PartialEq, Eq, Structural)]
pub struct FiberStats {
    pub fiber_count: u64,
    pub max_fibers: usize,
    pub total_switches: u64,
    pub running: bool,
}

/// Fiber scheduler with bounded capacity
pub struct FiberScheduler {
    /// Maximum fibers allowed
    pub max_fibers: usize,
    /// Main thread fiber (converted from thread)
    pub main_fiber: u64,
    /// Current running fiber
    pub current_fiber: Option<u64>,
    /// Fiber storage
    pub fibers: Vec<FiberControlBlock>,
    /// Next fiber ID counter
    pub next_fiber_id: u64,
    /// Scheduler active flag
    pub running: bool,
    /// Total context switches
    pub total_switches: u64,
}

/// Where the fiber with an id stands, from `i` on, or the number of fibers.
pub open spec fn fiber_place(fibers: Seq<FiberControlBlock>, id: u64, i: int) -> int
    decreases fibers.len() - i,
{
    if i >= fibers.len() {
        fibers.len() as int
    } else if fibers[i].id == id {
        i
    } else {
        fiber_place(fibers, id, i + 1)
    }
}

proof fn lemma_fiber_place(fibers: Seq<FiberControlBlock>, id: u64, i: int)
    requires
        0 <= i <= fibers.len(),
    ensures
        i <= fiber_place(fibers, id, i) <= fibers.len(),
        fiber_place(fibers, id, i) < fibers.len() ==> fibers[fiber_place(fibers, id, i)].id == id,
        forall|j: int| i <= j < fiber_place(fibers, id, i) ==> (#[trigger] fibers[j]).id != id,
    decreases fibers.len() - i,
{
    if i < fibers.len() && fibers[i].id != id {
        lemma_fiber_place(fibers, id, i + 1);
    }
}

/// Fibers in which the one with an id has yielded.
pub open spec fn yielded(fibers: Seq<FiberControlBlock>, id: Option<u64>) -> Seq<
    FiberControlBlock,
> {
    match id {
        Some(k) => {
            let p = fiber_place(fibers, k, 0);
            if p < fibers.len() {
                fibers.update(p, FiberControlBlock { state: FiberState::Yielded, ..fibers[p] })
            } else {
                fibers
            }
        },
        None => fibers,
    }
}

impl FiberScheduler {
    pub open spec fn wf(&self) -> bool {
        &&& self.max_fibers <= FIBER_LIMIT
        &&& self.fibers.len() <= self.max_fibers
    }

    /// Create new fiber scheduler
    pub fn new(max_fibers: usize) -> (r: Self)
        ensures
            r.wf(),
            r.max_fibers == math::min_int(max_fibers as int, FIBER_LIMIT as int),
            r.fibers.len() == 0,
            r.main_fiber == 0,
            r.current_fiber is None,
            r.next_fiber_id == 1,
            !r.running,
            r.total_switches == 0,
    {
        FiberScheduler {
            max_fibers: if max_fibers < FIBER_LIMIT {
                max_fibers
            } else {
                FIBER_LIMIT
            },
            main_fiber: 0,
            current_fiber: None,
            fibers: Vec::new(),
            next_fiber_id: 1,
            running: false,
            total_switches: 0,
        }
    }

    /// Initialize scheduler with the fiber that the thread was converted to;
    /// zero where the conversion failed
    pub fn initialize(&mut self, main_fiber: u64) -> (r: Result<(), &'static str>)
        ensures
            match r {
                Ok(()) => main_fiber != 0 && *final(self) == (FiberScheduler {
                    main_fiber,
                    running: true,
                    ..*old(self)
                }),
                Err(e) => main_fiber == 0 && e@ == "Failed to convert thread to fiber"@ && *final(self) == (FiberScheduler { main_fiber: 0, ..*old(self) }),
            },
    {
        self.main_fiber = main_fiber;
        if main_fiber == 0 {
            return Err("Failed to convert thread to fiber");
        }
        self.running = true;
        Ok(())
    }

    /// Whether one more fiber may be created.
    pub fn has_capacity(&self) -> (r: bool)
        ensures
            r == (self.fibers.len() < self.max_fibers),
    {
        self.fibers.len() < self.max_fibers
    }

    /// Create a new fiber. `handle` is what the system gave for it; zero where
    /// it gave none
    pub fn create_fiber(&mut self, stack_size: usize, user_data: u64, handle: u64) -> (r: Option<
        u64,
    >)
        requires
            old(self).wf(),
        ensures
            final(self).wf(),
            if old(self).fibers.len() >= old(self).max_fibers {
                r is None && *final(self) == *old(self)
            } else {
                &&& final(self).next_fiber_id == old(self).next_fiber_id.wrapping_add(1)
                &&& r == (if handle == 0 {
                    None
                } else {
                    Some(old(self).next_fiber_id)
                })
                &&& final(self).fibers@ == (if handle == 0 {
                    old(self).fibers@
                } else {
                    old(self).fibers@.push(
                        FiberControlBlock {
                            handle,
                            user_data,
                            active: true,
                            ..FiberControlBlock::fresh(old(self).next_fiber_id, stack_size)
                        },
                    )
                })
            },
            *final(self) == (FiberScheduler {
                next_fiber_id: final(self).next_fiber_id,
                fibers: final(self).fibers,
                ..*old(self)
            }),
    {
        if self.fibers.len() >= self.max_fibers {
            return None;
        }
        let fiber_id: u64 = self.next_fiber_id;
        self.next_fiber_id = fiber_id.wrapping_add(1);
        if handle == 0 {
            return None;
        }
        let mut fcb: FiberControlBlock = FiberControlBlock::new(fiber_id, stack_size);
        fcb.handle = handle;
        fcb.user_data = user_data;
        fcb.active = true;
        self.fibers.push(fcb);
        Some(fiber_id)
    }

    /// Find fiber by ID
    fn find_fiber(&self, fiber_id: u64) -> (r: usize)
        ensures
            r == fiber_place(self.fibers@, fiber_id, 0),
            r <= self.fibers.len(),
    {
        let mut i: usize = 0;
        while i < self.fibers.len()
            invariant
                i <= self.fibers.len(),
                fiber_place(self.fibers@, fiber_id, 0) == fiber_place(
                    self.fibers@,
                    fiber_id,
                    i as int,
                ),
            decreases self.fibers.len() - i,
        {
            if self.fibers[i].id == fiber_id {
                return i;
            }
            i = i + 1;
        }
        i
    }

    fn mark_yielded(&mut self)
        requires
            old(self).wf(),
        ensures
            final(self).wf(),
            final(self).fibers@ == yielded(old(self).fibers@, old(self).current_fiber),
            final(self).fibers.len() == old(self).fibers.len(),
            forall|i: int|
                0 <= i < old(self).fibers.len() ==> (#[trigger] final(self).fibers@[i]).handle
                    == old(self).fibers@[i].handle,
            *final(self) == (FiberScheduler { fibers: final(self).fibers, ..*old(self) }),
    {
        match self.current_fiber {
            Some(id) => {
                let p: usize = self.find_fiber(id);
                if p < self.fibers.len() {
                    let mut fcb: FiberControlBlock = self.fibers[p];
                    fcb.state = FiberState::Yielded;
                    self.fibers.set(p, fcb);
                }
            },
            None => {},
        }
    }

    /// Switch to specified fiber: the handle to switch to, where there is such
    /// a fiber
    pub fn switch_to(&mut self, fiber_id: u64, now_ns: u64) -> (r: Option<u64>)
        requires
            old(self).wf(),
        ensures
            final(self).wf(),
            ({
                let p = fiber_place(old(self).fibers@, fiber_id, 0);
                if p < old(self).fibers.len() {
                    let rest = yielded(old(self).fibers@, old(self).current_fiber);
                    &&& r == Some(old(self).fibers@[p].handle)
                    &&& final(self).fibers@ == rest.update(
                        p,
                        FiberControlBlock {
                            state: FiberState::Running,
                            last_switch_ns: now_ns,
                            switch_count: rest[p].switch_count.wrapping_add(1),
                            ..rest[p]
                        },
                    )
                    &&& final(self).current_fiber == Some(fiber_id)
                    &&& final(self).total_switches == old(self).total_switches.wrapping_add(1)
                } else {
                    r is None && *final(self) == *old(self)
                }
            }),
            *final(self) == (FiberScheduler {
                fibers: final(self).fibers,
                current_fiber: final(self).current_fiber,
                total_switches: final(self).total_switches,
                ..*old(self)
            }),
    {
        let p: usize = self.find_fiber(fiber_id);
        if p >= self.fibers.len() {
            return None;
        }
        self.mark_yielded();
        let mut fcb: FiberControlBlock = self.fibers[p];
        fcb.state = FiberState::Running;
        fcb.last_switch_ns = now_ns;
        fcb.switch_count = fcb.switch_count.wrapping_add(1);
        self.fibers.set(p, fcb);
        self.current_fiber = Some(fiber_id);
        self.total_switches = self.total_switches.wrapping_add(1);
        Some(fcb.handle)
    }

    /// Yield execution back to scheduler: the handle of the main fiber, where a
    /// fiber is running
    pub fn yield_execution(&mut self) -> (r: Option<u64>)
        requires
            old(self).wf(),
        ensures
            final(self).wf(),
            r == (if old(self).current_fiber is Some {
                Some(old(self).main_fiber)
            } else {
                None
            }),
            final(self).fibers@ == yielded(old(self).fibers@, old(self).current_fiber),
            *final(self) == (FiberScheduler { fibers: final(self).fibers, ..*old(self) }),
    {
        self.mark_yielded();
        match self.current_fiber {
            Some(_) => Some(self.main_fiber),
            None => None,
        }
    }

    /// Delete a fiber and free resources
    pub fn delete_fiber(&mut self, fiber_id: u64) -> (r: bool)
        requires
            old(self).wf(),
        ensures
            final(self).wf(),
            ({
                let p = fiber_place(old(self).fibers@, fiber_id, 0);
                &&& r == (p < old(self).fibers.len())
                &&& final(self).fibers@ == (if r {
                    old(self).fibers@.remove(p)
                } else {
                    old(self).fibers@
                })
                &&& final(self).current_fiber == (if r && old(self).current_fiber == Some(
                    fiber_id,
                ) {
                    None
                } else {
                    old(self).current_fiber
                })
            }),
            *final(self) == (FiberScheduler {
                fibers: final(self).fibers,
                current_fiber: final(self).current_fiber,
                ..*old(self)
            }),
    {
        let p: usize = self.find_fiber(fiber_id);
        if p >= self.fibers.len() {
            return false;
        }
        let _ = self.fibers.remove(p);
        match self.current_fiber {
            Some(id) => {
                if id == fiber_id {
                    self.current_fiber = None;
                }
            },
            None => {},
        }
        true
    }

    /// Get scheduler statistics
    pub fn get_stats(&self) -> (r: FiberStats)
        ensures
            r == (FiberStats {
                fiber_count: self.fibers.len() as u64,
                max_fibers: self.max_fibers,
                total_switches: self.total_switches,
                running: self.running,
            }),
    {
        FiberStats {
            fiber_count: self.fibers.len() as u64,
            max_fibers: self.max_fibers,
            total_switches: self.total_switches,
            running: self.running,
        }
    }

    /// Shutdown scheduler; all fibers are deleted
    pub fn shutdown(&mut self)
        requires
            old(self).wf(),
        ensures
            final(self).wf(),
            final(self).fibers.len() == 0,
            *final(self) == (FiberScheduler {
                running: false,
                fibers: final(self).fibers,
                current_fiber: None,
                ..*old(self)
            }),
    {
        self.running = false;
        self.fibers = Vec::new();
        self.current_fiber = None;
    }
}

/// A fiber that was just created can be found, last of all, where its number
/// was not in use.
pub proof fn law_created_fiber_found(fibers: Seq<FiberControlBlock>, new: FiberControlBlock)
    requires
        fiber_place(fibers, new.id, 0) == fibers.len(),
    ensures
        fiber_place(fibers.push(new), new.id, 0) == fibers.len(),
{
    lemma_fiber_place(fibers, new.id, 0);
    lemma_fiber_place(fibers.push(new), new.id, 0);
    let p = fiber_place(fibers.push(new), new.id, 0);
    if p < fibers.len() {
        assert(fibers.push(new)[p] == fibers[p]);
    } else if p == fibers.len() + 1 {
        assert(fibers.push(new)[fibers.len() as int].id == new.id);
    }
}

/// A fiber is the first of its number, or the end where there is none.
pub proof fn law_first_fiber_of_number(fibers: Seq<FiberControlBlock>, id: u64, i: int)
    requires
        0 <= i <= fibers.len(),
    ensures
        i <= fiber_place(fibers, id, i) <= fibers.len(),
        fiber_place(fibers, id, i) < fibers.len() ==> fibers[fiber_place(fibers, id, i)].id == id,
        forall|k: int| i <= k < fiber_place(fibers, id, i) ==> (#[trigger] fibers[k]).id != id,
    decreases fibers.len() - i,
{
    if i < fibers.len() && fibers[i].id != id {
        law_first_fiber_of_number(fibers, id, i + 1);
    }
}

/// A fiber that yields changes its state alone, and no other fiber does.
pub proof fn law_yield_changes_one_state(fibers: Seq<FiberControlBlock>, id: u64, k: int)
    requires
        0 <= k < fibers.len(),
    ensures
        ({
            let after = yielded(fibers, Some(id));
            let p = fiber_place(fibers, id, 0);
            &&& after.len() == fibers.len()
            &&& k != p ==> after[k] == fibers[k]
            &&& k == p ==> after[k].state == FiberState::Yielded && after[k].id == fibers[k].id
                && after[k].switch_count == fibers[k].switch_count && after[k].stack_size
                == fibers[k].stack_size && after[k].active == fibers[k].active
            &&& yielded(fibers, None) == fibers
        }),
{
    law_first_fiber_of_number(fibers, id, 0);
}

/// A new fiber is ready, not active, and has never run.
pub proof fn law_new_fiber(id: u64, stack_size: usize)
    ensures
        ({
            let f = FiberControlBlock::fresh(id, stack_size);
            &&& f.id == id
            &&& f.stack_size == stack_size
            &&& f.state == FiberState::Ready
            &&& !f.active
            &&& f.switch_count == 0
        }),
{
}

} // verus!
