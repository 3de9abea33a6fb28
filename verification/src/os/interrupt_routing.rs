//! Steering of device interrupts away from the cores of the hot path.
use vstd::prelude::*;

verus! {

/// Represents a logical processor group and number
#[derive(Debug, Clone, Copy, PartialEq, Eq, Structural)]
pub struct ProcessorAffinity {
    pub group: u16,
    pub core_id: usize,
    pub logical_processor: usize,
}

/// A device and the processors that its interrupts may go to.
pub struct DeviceAffinity {
    pub device_id: String,
    pub allowed: Vec<ProcessorAffinity>,
}

/// Interrupt steering manager for isolating critical cores
pub struct InterruptRouter {
    /// Reserved cores (Core 0 and 1)
    pub reserved_cores: Vec<usize>,
    /// Devices that are steered
    pub device_affinity_map: Vec<DeviceAffinity>,
    /// Flag indicating if routing is active
    pub is_active: bool,
    /// Total available logical processors
    pub total_processors: usize,
}

/// The processors of a machine without the reserved ones, in order.
pub open spec fn unreserved(reserved: Seq<usize>, total: int, n: nat) -> Seq<ProcessorAffinity>
    decreases n,
{
    if n == 0 {
        Seq::empty()
    } else {
        let i = (n - 1) as int;
        let rest = unreserved(reserved, total, i as nat);
        if reserved.contains(i as usize) {
            rest
        } else {
            rest.push(
                ProcessorAffinity {
                    group: 0,
                    core_id: (i % (total / 2)) as usize,
                    logical_processor: i as usize,
                },
            )
        }
    }
}

/// Steered interrupts never reach a reserved core.
pub proof fn law_reserved_isolated(reserved: Seq<usize>, total: int, n: nat)
    requires
        n <= usize::MAX,
    ensures
        forall|k: int|
            0 <= k < unreserved(reserved, total, n).len() ==> !reserved.contains(
                (#[trigger] unreserved(reserved, total, n)[k]).logical_processor,
            ),
    decreases n,
{
    if n > 0 {
        let rest = unreserved(reserved, total, (n - 1) as nat);
        law_reserved_isolated(reserved, total, (n - 1) as nat);
        let all = unreserved(reserved, total, n);
        assert forall|k: int| 0 <= k < all.len() implies !reserved.contains(
            (#[trigger] all[k]).logical_processor,
        ) by {
            if k < rest.len() {
                assert(all[k] == rest[k]);
            }
        }
    }
}

/// The names of the devices that are steered.
pub open spec fn device_names() -> Seq<Seq<char>> {
    seq!["NVMe_Controller_0"@, "USB_Root_Hub"@, "Audio_Controller"@, "Integrated_Graphics"@]
}

impl InterruptRouter {
    pub open spec fn wf(&self) -> bool {
        &&& self.reserved_cores@ == seq![0usize, 1usize]
        &&& forall|d: int|
            0 <= d < self.device_affinity_map.len() ==> (
            #[trigger] self.device_affinity_map@[d]).allowed@ == unreserved(
                self.reserved_cores@,
                self.total_processors as int,
                self.total_processors as nat,
            )
    }

    /// Create a new interrupt router
    pub fn new(total_processors: usize) -> (r: Self)
        ensures
            r.wf(),
            r.device_affinity_map.len() == 0,
            !r.is_active,
            r.total_processors == total_processors,
    {
        let mut reserved_cores: Vec<usize> = Vec::new();
        reserved_cores.push(0);
        reserved_cores.push(1);
        assert(reserved_cores@ =~= seq![0usize, 1usize]);
        InterruptRouter {
            reserved_cores,
            device_affinity_map: Vec::new(),
            is_active: false,
            total_processors,
        }
    }

    /// Initialize the router. Must be called with Admin privileges.
    pub fn initialize(&mut self, is_admin: bool) -> (r: Result<(), String>)
        requires
            old(self).wf(),
        ensures
            final(self).wf(),
            final(self).total_processors == old(self).total_processors,
            final(self).reserved_cores == old(self).reserved_cores,
            match r {
                Ok(()) => {
                    &&& is_admin
                    &&& final(self).is_active
                    &&& final(self).device_affinity_map.len() == 4
                    &&& forall|d: int|
                        0 <= d < 4 ==> (#[trigger] final(self).device_affinity_map@[d]).device_id@
                            == device_names()[d]
                },
                Err(e) => {
                    &&& !is_admin
                    &&& e@ == "Interrupt routing requires Administrator privileges"@
                    &&& *final(self) == *old(self)
                },
            },
    {
        if !is_admin {
            return Err("Interrupt routing requires Administrator privileges".to_owned());
        }
        let devices: Vec<String> = self.enumerate_non_essential_devices();
        let mut map: Vec<DeviceAffinity> = Vec::new();
        let mut d: usize = 0;
        while d < devices.len()
            invariant
                self.wf(),
                *self == *old(self),
                devices.len() == 4,
                forall|k: int| 0 <= k < 4 ==> (#[trigger] devices@[k])@ == device_names()[k],
                d <= devices.len(),
                map.len() == d,
                forall|k: int|
                    0 <= k < d ==> (#[trigger] map@[k]).device_id@ == device_names()[k]
                        && map@[k].allowed@ == unreserved(
                        self.reserved_cores@,
                        self.total_processors as int,
                        self.total_processors as nat,
                    ),
            decreases devices.len() - d,
        {
            let allowed: Vec<ProcessorAffinity> = self.steer_interrupts();
            map.push(DeviceAffinity { device_id: devices[d].clone(), allowed });
            d = d + 1;
        }
        self.device_affinity_map = map;
        self.is_active = true;
        Ok(())
    }

    /// Enumerate devices that are NOT the trading NIC
    fn enumerate_non_essential_devices(&self) -> (r: Vec<String>)
        ensures
            r.len() == 4,
            forall|k: int| 0 <= k < 4 ==> (#[trigger] r@[k])@ == device_names()[k],
    {
        let mut devices: Vec<String> = Vec::new();
        devices.push("NVMe_Controller_0".to_owned());
        devices.push("USB_Root_Hub".to_owned());
        devices.push("Audio_Controller".to_owned());
        devices.push("Integrated_Graphics".to_owned());
        devices
    }

    /// The processors that a device's interrupts may go to: all except reserved
    fn steer_interrupts(&self) -> (r: Vec<ProcessorAffinity>)
        requires
            self.wf(),
        ensures
            r@ == unreserved(
                self.reserved_cores@,
                self.total_processors as int,
                self.total_processors as nat,
            ),
    {
        let mut allowed: Vec<ProcessorAffinity> = Vec::new();
        let mut i: usize = 0;
        while i < self.total_processors
            invariant
                self.wf(),
                i <= self.total_processors,
                allowed@ == unreserved(
                    self.reserved_cores@,
                    self.total_processors as int,
                    i as nat,
                ),
            decreases self.total_processors - i,
        {
            let reserved: bool = self.is_reserved(i);
            if !reserved {
                proof {
                    assert(seq![0usize, 1usize].contains(0usize)) by {
                        assert(seq![0usize, 1usize][0] == 0);
                    }
                    assert(seq![0usize, 1usize].contains(1usize)) by {
                        assert(seq![0usize, 1usize][1] == 1);
                    }
                    assert(i >= 2);
                }
                let half: usize = self.total_processors / 2;
                allowed.push(
                    ProcessorAffinity { group: 0, core_id: i % half, logical_processor: i },
                );
            }
            i = i + 1;
        }
        allowed
    }

    fn is_reserved(&self, core: usize) -> (r: bool)
        ensures
            r == self.reserved_cores@.contains(core),
    {
        let mut k: usize = 0;
        while k < self.reserved_cores.len()
            invariant
                k <= self.reserved_cores.len(),
                forall|j: int| 0 <= j < k ==> #[trigger] self.reserved_cores@[j] != core,
            decreases self.reserved_cores.len() - k,
        {
            if self.reserved_cores[k] == core {
                return true;
            }
            k = k + 1;
        }
        false
    }

    /// No processor that a device may interrupt is reserved.
    pub open spec fn isolated(&self) -> bool {
        forall|d: int, k: int|
            0 <= d < self.device_affinity_map.len() && 0 <= k
                < self.device_affinity_map@[d].allowed.len() ==> !self.reserved_cores@.contains(
                (#[trigger] self.device_affinity_map@[d].allowed@[k]).logical_processor,
            )
    }

    /// Verify that no interrupts are routed to reserved cores, as holds of every
    /// router that steers its devices by its own rule
    pub fn verify_isolation(&self) -> (r: bool)
        ensures
            r == self.isolated(),
            self.wf() ==> r,
    {
        proof {
            if self.wf() {
                law_reserved_isolated(
                    self.reserved_cores@,
                    self.total_processors as int,
                    self.total_processors as nat,
                );
            }
        }
        let mut d: usize = 0;
        while d < self.device_affinity_map.len()
            invariant
                d <= self.device_affinity_map.len(),
                self.wf() ==> self.isolated(),
                forall|e: int, k: int|
                    0 <= e < d && 0 <= k < self.device_affinity_map@[e].allowed.len()
                        ==> !self.reserved_cores@.contains(
                        (#[trigger] self.device_affinity_map@[e].allowed@[k]).logical_processor,
                    ),
            decreases self.device_affinity_map.len() - d,
        {
            let ghost list = self.device_affinity_map@[d as int].allowed@;
            let mut k: usize = 0;
            while k < self.device_affinity_map[d].allowed.len()
                invariant
                    d < self.device_affinity_map.len(),
                    list == self.device_affinity_map@[d as int].allowed@,
                    k <= list.len(),
                    self.wf() ==> self.isolated(),
                    forall|j: int|
                        0 <= j < k ==> !self.reserved_cores@.contains(
                            (#[trigger] list[j]).logical_processor,
                        ),
                decreases list.len() - k,
            {
                let processor: usize = self.device_affinity_map[d].allowed[k].logical_processor;
                if self.is_reserved(processor) {
                    assert(self.device_affinity_map@[d as int].allowed@[k as int].logical_processor
                        == processor);
                    return false;
                }
                k = k + 1;
            }
            d = d + 1;
        }
        true
    }

    /// Restore default interrupt routing (call on shutdown)
    pub fn restore_defaults(&mut self)
        requires
            old(self).wf(),
        ensures
            final(self).wf(),
            final(self).device_affinity_map.len() == 0,
            !final(self).is_active,
            final(self).total_processors == old(self).total_processors,
            final(self).reserved_cores == old(self).reserved_cores,
    {
        self.device_affinity_map = Vec::new();
        self.is_active = false;
    }
}

/// Interrupts may go to exactly the processors that are not reserved, in their
/// order; two processors share a core at half the distance of all.
pub proof fn law_unreserved_are_allowed(reserved: Seq<usize>, total: int, n: nat, x: int)
    requires
        n <= usize::MAX,
        total >= 2,
        0 <= x < n,
    ensures
        ({
            let u = unreserved(reserved, total, n);
            &&& !reserved.contains(x as usize) <==> exists|k: int|
                0 <= k < u.len() && (#[trigger] u[k]).logical_processor == x
            &&& forall|k: int|
                0 <= k < u.len() ==> (#[trigger] u[k]).logical_processor < n && u[k].group == 0
                    && u[k].core_id == u[k].logical_processor as int % (total / 2)
            &&& forall|i: int, j: int|
                0 <= i < j < u.len() ==> (#[trigger] u[i]).logical_processor < (
                #[trigger] u[j]).logical_processor
        }),
    decreases n,
{
    let u = unreserved(reserved, total, n);
    let i = n - 1;
    let rest = unreserved(reserved, total, i as nat);
    lemma_unreserved_order(reserved, total, n);
    if x < i {
        law_unreserved_are_allowed(reserved, total, i as nat, x);
        if !reserved.contains(x as usize) {
            let k = choose|k: int|
                0 <= k < rest.len() && (#[trigger] rest[k]).logical_processor == x;
            assert(u[k].logical_processor == x);
        } else if exists|k: int| 0 <= k < u.len() && (#[trigger] u[k]).logical_processor == x {
            let k = choose|k: int| 0 <= k < u.len() && (#[trigger] u[k]).logical_processor == x;
            if k < rest.len() {
                assert(rest[k].logical_processor == x);
            }
        }
    } else {
        if !reserved.contains(x as usize) {
            assert(u[u.len() - 1].logical_processor == x);
        } else if exists|k: int| 0 <= k < u.len() && (#[trigger] u[k]).logical_processor == x {
            lemma_unreserved_order(reserved, total, i as nat);
        }
    }
}

proof fn lemma_unreserved_order(reserved: Seq<usize>, total: int, n: nat)
    requires
        n <= usize::MAX,
        total >= 2,
    ensures
        ({
            let u = unreserved(reserved, total, n);
            &&& forall|k: int|
                0 <= k < u.len() ==> (#[trigger] u[k]).logical_processor < n && u[k].group == 0
                    && u[k].core_id == u[k].logical_processor as int % (total / 2)
            &&& forall|i: int, j: int|
                0 <= i < j < u.len() ==> (#[trigger] u[i]).logical_processor < (
                #[trigger] u[j]).logical_processor
        }),
    decreases n,
{
    if n > 0 {
        let i = n - 1;
        lemma_unreserved_order(reserved, total, i as nat);
        let h = total / 2;
        vstd::arithmetic::div_mod::lemma_mod_bound(i, h);
        assert(i % h <= i) by {
            vstd::arithmetic::div_mod::lemma_mod_decreases(i as nat, h as nat);
        }
        let u = unreserved(reserved, total, n);
        let rest = unreserved(reserved, total, i as nat);
        assert forall|k: int| 0 <= k < u.len() implies (#[trigger] u[k]).logical_processor < n
            && u[k].group == 0 && u[k].core_id == u[k].logical_processor as int % (total / 2) by {
            if k < rest.len() {
                assert(u[k] == rest[k]);
            }
        }
        assert forall|a: int, b: int| 0 <= a < b < u.len() implies (
        #[trigger] u[a]).logical_processor < (#[trigger] u[b]).logical_processor by {
            assert(u[a] == rest[a]);
            if b < rest.len() {
                assert(u[b] == rest[b]);
            }
        }
    }
}

} // verus!
