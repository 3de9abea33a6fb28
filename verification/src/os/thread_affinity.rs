//! Exclusive assignment of performance cores to threads.
use vstd::prelude::*;

verus! {

/// Represents a CPU core affinity configuration
#[derive(Debug, Clone, Copy, PartialEq, Eq, Structural)]
pub struct CoreAffinity {
    /// Logical processor ID
    pub core_id: usize,
    /// NUMA node
    pub numa_node: usize,
    /// Core type: true = P-core (Performance), false = E-core (Efficiency)
    pub is_p_core: bool,
}

/// Thread affinity manager
pub struct ThreadAffinityManager {
    /// Which cores are available for pinning
    pub p_core_mask: Vec<bool>,
    /// Flag indicating if the manager is initialized
    pub initialized: bool,
    /// Maximum number of cores supported
    pub max_cores: usize,
}

/// The first available core from `i` on, or the number of cores.
pub open spec fn first_free(mask: Seq<bool>, i: int) -> int
    decreases mask.len() - i,
{
    if i >= mask.len() {
        mask.len() as int
    } else if mask[i] {
        i
    } else {
        first_free(mask, i + 1)
    }
}

proof fn lemma_first_free(mask: Seq<bool>, i: int)
    requires
        0 <= i <= mask.len(),
    ensures
        i <= first_free(mask, i) <= mask.len(),
        first_free(mask, i) < mask.len() ==> mask[first_free(mask, i)],
        forall|j: int| i <= j < first_free(mask, i) ==> !#[trigger] mask[j],
    decreases mask.len() - i,
{
    if i < mask.len() && !mask[i] {
        lemma_first_free(mask, i + 1);
    }
}

impl ThreadAffinityManager {
    pub open spec fn wf(&self) -> bool {
        self.p_core_mask.len() == self.max_cores
    }

    /// Create a new thread affinity manager
    pub fn new() -> (r: Self)
        ensures
            r.wf(),
            r.max_cores == 8,
            forall|i: int| 0 <= i < 8 ==> #[trigger] r.p_core_mask@[i],
            !r.initialized,
    {
        let max_cores: usize = 8;
        let mut mask: Vec<bool> = Vec::new();
        while mask.len() < max_cores
            invariant
                mask.len() <= max_cores,
                forall|i: int| 0 <= i < mask.len() ==> #[trigger] mask@[i],
            decreases max_cores - mask.len(),
        {
            mask.push(true);
        }
        ThreadAffinityManager { p_core_mask: mask, initialized: false, max_cores }
    }

    /// Initialize the affinity manager
    pub fn initialize(&mut self) -> (r: Result<(), &'static str>)
        ensures
            match r {
                Ok(()) => !old(self).initialized && *final(self) == (ThreadAffinityManager {
                    initialized: true,
                    ..*old(self)
                }),
                Err(e) => old(self).initialized && e@ == "ThreadAffinityManager already initialized"@
                    && *final(self) == *old(self),
            },
    {
        if self.initialized {
            return Err("ThreadAffinityManager already initialized");
        }
        self.initialized = true;
        Ok(())
    }

    /// What a claim on a core is refused with.
    pub open spec fn refusal(&self, core_id: usize) -> Option<Seq<char>> {
        if !self.initialized {
            Some("ThreadAffinityManager not initialized"@)
        } else if core_id >= self.max_cores {
            Some("Core ID out of range"@)
        } else if !self.p_core_mask@[core_id as int] {
            Some("Core already assigned to another thread"@)
        } else {
            None
        }
    }

    /// Takes a core for a thread that is to be pinned to it.
    pub fn claim_core(&mut self, core_id: usize) -> (r: Result<(), &'static str>)
        requires
            old(self).wf(),
        ensures
            final(self).wf(),
            final(self).initialized == old(self).initialized,
            final(self).max_cores == old(self).max_cores,
            match r {
                Ok(()) => old(self).refusal(core_id) is None && final(self).p_core_mask@ == old(self).p_core_mask@.update(core_id as int, false),
                Err(e) => old(self).refusal(core_id) == Some(e@) && final(self).p_core_mask@ == old(self).p_core_mask@,
            },
    {
        if !self.initialized {
            return Err("ThreadAffinityManager not initialized");
        }
        if core_id >= self.max_cores {
            return Err("Core ID out of range");
        }
        if !self.p_core_mask[core_id] {
            return Err("Core already assigned to another thread");
        }
        self.p_core_mask.set(core_id, false);
        Ok(())
    }

    /// Ends the pinning of a thread to a claimed core: where the system did not
    /// set the affinity, the core is available again.
    pub fn finish_pin(&mut self, core_id: usize, affinity_set: bool) -> (r: Result<
        (),
        &'static str,
    >)
        requires
            old(self).wf(),
            core_id < old(self).max_cores,
        ensures
            final(self).wf(),
            final(self).initialized == old(self).initialized,
            final(self).max_cores == old(self).max_cores,
            match r {
                Ok(()) => affinity_set && final(self).p_core_mask@ == old(self).p_core_mask@,
                Err(e) => !affinity_set && e@ == "Failed to set thread affinity via Windows API"@
                    && final(self).p_core_mask@ == old(self).p_core_mask@.update(
                    core_id as int,
                    true,
                ),
            },
    {
        if !affinity_set {
            self.p_core_mask.set(core_id, true);
            return Err("Failed to set thread affinity via Windows API");
        }
        Ok(())
    }

    /// Pin the current thread to a specific P-core. `affinity_set` is whether
    /// the system sets the affinity.
    pub fn pin_current_thread_to_core(&mut self, core_id: usize, affinity_set: bool) -> (r: Result<
        (),
        &'static str,
    >)
        requires
            old(self).wf(),
        ensures
            final(self).wf(),
            final(self).initialized == old(self).initialized,
            final(self).max_cores == old(self).max_cores,
            match r {
                Ok(()) => old(self).refusal(core_id) is None && affinity_set && final(self).p_core_mask@ == old(self).p_core_mask@.update(core_id as int, false),
                Err(e) => final(self).p_core_mask@ == old(self).p_core_mask@ && (match old(self).refusal(core_id) {
                    Some(text) => e@ == text,
                    None => !affinity_set && e@
                        == "Failed to set thread affinity via Windows API"@,
                }),
            },
    {
        match self.claim_core(core_id) {
            Ok(()) => {},
            Err(e) => {
                return Err(e);
            },
        }
        let r: Result<(), &'static str> = self.finish_pin(core_id, affinity_set);
        assert(old(self).p_core_mask@.update(core_id as int, false).update(core_id as int, true)
            =~= old(self).p_core_mask@);
        r
    }

    /// Reserve a P-core for a specific trading strategy
    ///
    /// Returns the core ID if successful, or None if no cores available
    pub fn reserve_p_core(&mut self) -> (r: Option<usize>)
        requires
            old(self).wf(),
        ensures
            final(self).wf(),
            final(self).initialized == old(self).initialized,
            final(self).max_cores == old(self).max_cores,
            ({
                let free = first_free(old(self).p_core_mask@, 0);
                if free < old(self).max_cores {
                    r == Some(free as usize) && final(self).p_core_mask@ == old(self).p_core_mask@.update(free, false)
                } else {
                    r is None && final(self).p_core_mask@ == old(self).p_core_mask@
                }
            }),
    {
        let mut core_id: usize = 0;
        while core_id < self.max_cores
            invariant
                self.wf(),
                *self == *old(self),
                core_id <= self.max_cores,
                first_free(self.p_core_mask@, 0) == first_free(
                    self.p_core_mask@,
                    core_id as int,
                ),
            decreases self.max_cores - core_id,
        {
            if self.p_core_mask[core_id] {
                self.p_core_mask.set(core_id, false);
                return Some(core_id);
            }
            core_id = core_id + 1;
        }
        None
    }

    /// Release a previously reserved core
    pub fn release_core(&mut self, core_id: usize)
        requires
            old(self).wf(),
        ensures
            final(self).wf(),
            final(self).initialized == old(self).initialized,
            final(self).max_cores == old(self).max_cores,
            final(self).p_core_mask@ == (if core_id < old(self).max_cores {
                old(self).p_core_mask@.update(core_id as int, true)
            } else {
                old(self).p_core_mask@
            }),
    {
        if core_id < self.max_cores {
            self.p_core_mask.set(core_id, true);
        }
    }

    /// A handle for a thread that pins itself, with a manager of its own
    pub fn clone_affinity_for_thread(&self, core_id: usize) -> (r: Result<
        ThreadLocalAffinity,
        &'static str,
    >)
        requires
            self.wf(),
        ensures
            match r {
                Ok(a) => self.initialized && a.core_id == core_id && a.manager.wf()
                    && a.manager.p_core_mask@ == self.p_core_mask@ && a.manager.initialized
                    && a.manager.max_cores == self.max_cores,
                Err(e) => !self.initialized && e@ == "Manager not initialized"@,
            },
    {
        if !self.initialized {
            return Err("Manager not initialized");
        }
        let mut mask: Vec<bool> = Vec::new();
        let mut i: usize = 0;
        while i < self.p_core_mask.len()
            invariant
                i <= self.p_core_mask.len(),
                mask@ == self.p_core_mask@.subrange(0, i as int),
            decreases self.p_core_mask.len() - i,
        {
            mask.push(self.p_core_mask[i]);
            i = i + 1;
            assert(mask@ =~= self.p_core_mask@.subrange(0, i as int));
        }
        assert(mask@ =~= self.p_core_mask@);
        Ok(
            ThreadLocalAffinity {
                core_id,
                manager: ThreadAffinityManager {
                    p_core_mask: mask,
                    initialized: true,
                    max_cores: self.max_cores,
                },
            },
        )
    }
}

/// Affinity handle for thread-local use
pub struct ThreadLocalAffinity {
    pub core_id: usize,
    pub manager: ThreadAffinityManager,
}

impl ThreadLocalAffinity {
    pub fn pin_current_thread(&mut self, affinity_set: bool) -> (r: Result<(), &'static str>)
        requires
            old(self).manager.wf(),
        ensures
            final(self).manager.wf(),
            final(self).core_id == old(self).core_id,
            r is Ok <==> old(self).manager.refusal(old(self).core_id) is None && affinity_set,
            r matches Err(e) ==> (match old(self).manager.refusal(old(self).core_id) {
                Some(text) => e@ == text,
                None => e@ == "Failed to set thread affinity via Windows API"@,
            }),
            final(self).manager.p_core_mask@ == (if r is Ok {
                old(self).manager.p_core_mask@.update(old(self).core_id as int, false)
            } else {
                old(self).manager.p_core_mask@
            }),
    {
        self.manager.pin_current_thread_to_core(self.core_id, affinity_set)
    }
}

/// A core is never given out twice: the one that a reservation takes was
/// available before it and is not after it.
pub proof fn law_reservation_exclusive(mask: Seq<bool>)
    ensures
        ({
            let core = first_free(mask, 0);
            core < mask.len() ==> mask[core] && !mask.update(core, false)[core] && first_free(
                mask.update(core, false),
                0,
            ) != core
        }),
{
    lemma_first_free(mask, 0);
    let core = first_free(mask, 0);
    if core < mask.len() {
        lemma_first_free(mask.update(core, false), 0);
    }
}

/// Releasing a reserved core makes the cores as available as before.
pub proof fn law_release_undoes_reservation(mask: Seq<bool>)
    requires
        first_free(mask, 0) < mask.len(),
    ensures
        mask.update(first_free(mask, 0), false).update(first_free(mask, 0), true) == mask,
{
    lemma_first_free(mask, 0);
    assert(mask.update(first_free(mask, 0), false).update(first_free(mask, 0), true) =~= mask);
}

/// The core that is given out is the first that is free.
pub proof fn law_first_free_core(mask: Seq<bool>, i: int)
    requires
        0 <= i <= mask.len(),
    ensures
        i <= first_free(mask, i) <= mask.len(),
        first_free(mask, i) < mask.len() ==> mask[first_free(mask, i)],
        forall|k: int| i <= k < first_free(mask, i) ==> !#[trigger] mask[k],
    decreases mask.len() - i,
{
    if i < mask.len() && !mask[i] {
        law_first_free_core(mask, i + 1);
    }
}

/// A core is given exactly where the manager is ready and the core exists and
/// is free.
pub proof fn law_refused_cores(m: ThreadAffinityManager, core_id: usize)
    ensures
        m.refusal(core_id) is None <==> m.initialized && core_id < m.max_cores
            && m.p_core_mask@[core_id as int],
        !m.initialized ==> m.refusal(core_id) == Some("ThreadAffinityManager not initialized"@),
        m.initialized && core_id >= m.max_cores ==> m.refusal(core_id) == Some(
            "Core ID out of range"@,
        ),
        m.initialized && core_id < m.max_cores && !m.p_core_mask@[core_id as int] ==> m.refusal(
            core_id,
        ) == Some("Core already assigned to another thread"@),
{
}

} // verus!
