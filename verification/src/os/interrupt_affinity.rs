//! Assignment of network adapter interrupts to a core of their own.
use crate::text;
use crate::text::contains;
use vstd::prelude::*;

verus! {

/// Represents a network adapter with affinity configuration
#[derive(Debug)]
pub struct NetworkAdapter {
    /// Device instance ID
    pub instance_id: String,
    /// MAC address
    pub mac_address: [u8; 6],
    /// Current interrupt affinity mask
    pub affinity_mask: u32,
    /// Adapter name
    pub adapter_name: String,
}

/// Network adapter affinity manager
pub struct InterruptAffinityManager {
    /// Primary NIC handle
    pub primary_nic_handle: u32,
    /// Dedicated core for NIC interrupts (separate from trading cores)
    pub nic_interrupt_core: u32,
    /// Initialization flag
    pub initialized: bool,
}

/// Whether an adapter name is one of a known maker.
pub open spec fn known_maker(name: Seq<char>) -> bool {
    text::has_part(name, "Intel"@) || text::has_part(name, "Realtek"@) || text::has_part(
        name,
        "Killer"@,
    )
}

/// Whether a MAC address starts like those of exchange infrastructure.
pub open spec fn known_prefix(mac: Seq<u8>) -> bool {
    let p = (mac[0], mac[1], mac[2]);
    p == (0x02u8, 0x00u8, 0x00u8) || p == (0x00u8, 0x16u8, 0x3Eu8) || p == (
        0x00u8,
        0x50u8,
        0x56u8,
    ) || p == (0x00u8, 0x1Au8, 0x2Bu8) || p == (0x52u8, 0x54u8, 0x00u8)
}

/// Whether an adapter is the first of those that pass a test on their names.
pub open spec fn is_primary(adapters: Seq<NetworkAdapter>, i: int) -> bool {
    &&& 0 <= i < adapters.len()
    &&& if known_maker(adapters[i].adapter_name@) {
        forall|j: int|
            0 <= j < i ==> !known_maker((#[trigger] adapters[j]).adapter_name@)
    } else {
        i == 0 && forall|j: int|
            0 <= j < adapters.len() ==> !known_maker((#[trigger] adapters[j]).adapter_name@)
    }
}

impl InterruptAffinityManager {
    /// Create a new interrupt affinity manager
    pub fn new() -> (r: Self)
        ensures
            r == (InterruptAffinityManager {
                primary_nic_handle: 0,
                nic_interrupt_core: 7,
                initialized: false,
            }),
    {
        InterruptAffinityManager { primary_nic_handle: 0, nic_interrupt_core: 7, initialized: false }
    }

    /// The adapter for feed traffic: the first of a known maker, or else the
    /// first of all.
    pub fn find_primary(adapters: &Vec<NetworkAdapter>) -> (r: Option<usize>)
        ensures
            match r {
                Some(i) => is_primary(adapters@, i as int),
                None => adapters.len() == 0,
            },
    {
        let mut i: usize = 0;
        while i < adapters.len()
            invariant
                i <= adapters.len(),
                forall|j: int|
                    0 <= j < i ==> !known_maker((#[trigger] adapters@[j]).adapter_name@),
            decreases adapters.len() - i,
        {
            let name: &str = adapters[i].adapter_name.as_str();
            if contains(name, "Intel") || contains(name, "Realtek") || contains(name, "Killer") {
                return Some(i);
            }
            i = i + 1;
        }
        if adapters.len() > 0 {
            Some(0)
        } else {
            None
        }
    }

    /// Initialize the manager and detect available NICs
    pub fn initialize(&mut self) -> (r: Result<(), &'static str>)
        ensures
            match r {
                Ok(()) => !old(self).initialized && *final(self) == (InterruptAffinityManager {
                    primary_nic_handle: 1,
                    initialized: true,
                    ..*old(self)
                }),
                Err(e) => old(self).initialized && e@
                    == "InterruptAffinityManager already initialized"@ && *final(self) == *old(self),
            },
    {
        if self.initialized {
            return Err("InterruptAffinityManager already initialized");
        }
        let adapters: Vec<NetworkAdapter> = self.enumerate_network_adapters()?;
        match InterruptAffinityManager::find_primary(&adapters) {
            Some(_) => {},
            None => {
                return Err("No suitable network adapter found");
            },
        }
        self.primary_nic_handle = 1;
        self.initialized = true;
        Ok(())
    }

    /// Enumerate all network adapters on the system
    pub fn enumerate_network_adapters(&self) -> (r: Result<Vec<NetworkAdapter>, &'static str>)
        ensures
            r matches Ok(v) && v.len() == 1 && v@[0].instance_id@ == "PCI\\VEN_8086&DEV_153A"@
                && v@[0].mac_address@ == seq![0x00u8, 0x1A, 0x2B, 0x3C, 0x4D, 0x5E]
                && v@[0].affinity_mask == 0xFF && v@[0].adapter_name@
                == "Intel(R) Ethernet Connection I217-LM"@,
    {
        let mut adapters: Vec<NetworkAdapter> = Vec::with_capacity(4);
        let mac_address: [u8; 6] = [0x00, 0x1A, 0x2B, 0x3C, 0x4D, 0x5E];
        assert(mac_address@ =~= seq![0x00u8, 0x1A, 0x2B, 0x3C, 0x4D, 0x5E]);
        adapters.push(
            NetworkAdapter {
                instance_id: "PCI\\VEN_8086&DEV_153A".to_owned(),
                mac_address,
                affinity_mask: 0xFF,
                adapter_name: "Intel(R) Ethernet Connection I217-LM".to_owned(),
            },
        );
        Ok(adapters)
    }

    /// What a request to move the interrupts is refused with.
    pub open spec fn refusal(&self, core_id: u32) -> Option<Seq<char>> {
        if !self.initialized {
            Some("InterruptAffinityManager not initialized"@)
        } else if self.primary_nic_handle == 0 {
            Some("Primary NIC not identified"@)
        } else if core_id > 63 {
            Some("Core ID out of valid range (0-63)"@)
        } else {
            None
        }
    }

    /// Set interrupt affinity for the primary NIC
    pub fn set_nic_interrupt_affinity(&mut self, core_id: u32) -> (r: Result<(), &'static str>)
        ensures
            match r {
                Ok(()) => old(self).refusal(core_id) is None && *final(self)
                    == (InterruptAffinityManager { nic_interrupt_core: core_id, ..*old(self) }),
                Err(e) => old(self).refusal(core_id) == Some(e@) && *final(self) == *old(self),
            },
    {
        if !self.initialized {
            return Err("InterruptAffinityManager not initialized");
        }
        if self.primary_nic_handle == 0 {
            return Err("Primary NIC not identified");
        }
        if core_id > 63 {
            return Err("Core ID out of valid range (0-63)");
        }
        self.nic_interrupt_core = core_id;
        Ok(())
    }

    /// Get the current NIC interrupt core assignment
    pub fn get_nic_interrupt_core(&self) -> (r: u32)
        ensures
            r == self.nic_interrupt_core,
    {
        self.nic_interrupt_core
    }

    /// Identify the feed adapter by MAC address prefix: the first that has one
    pub fn identify_binance_adapter<'a>(&self, adapters: &'a Vec<NetworkAdapter>) -> (r: Option<
        &'a NetworkAdapter,
    >)
        ensures
            match r {
                Some(a) => exists|i: int|
                    0 <= i < adapters.len() && *a == #[trigger] adapters@[i] && known_prefix(
                        adapters@[i].mac_address@,
                    ) && forall|j: int|
                        0 <= j < i ==> !known_prefix((#[trigger] adapters@[j]).mac_address@),
                None => forall|j: int|
                    0 <= j < adapters.len() ==> !known_prefix(
                        (#[trigger] adapters@[j]).mac_address@,
                    ),
            },
    {
        let mut i: usize = 0;
        while i < adapters.len()
            invariant
                i <= adapters.len(),
                forall|j: int|
                    0 <= j < i ==> !known_prefix((#[trigger] adapters@[j]).mac_address@),
            decreases adapters.len() - i,
        {
            let mac: [u8; 6] = adapters[i].mac_address;
            let a: u8 = mac[0];
            let b: u8 = mac[1];
            let c: u8 = mac[2];
            if (a == 0x02 && b == 0x00 && c == 0x00) || (a == 0x00 && b == 0x16 && c == 0x3E) || (a
                == 0x00 && b == 0x50 && c == 0x56) || (a == 0x00 && b == 0x1A && c == 0x2B) || (a
                == 0x52 && b == 0x54 && c == 0x00) {
                return Some(&adapters[i]);
            }
            i = i + 1;
        }
        None
    }

    /// Reset interrupt affinity to default (all cores)
    pub fn reset_affinity(&mut self) -> (r: Result<(), &'static str>)
        ensures
            match r {
                Ok(()) => old(self).initialized && *final(self) == (InterruptAffinityManager {
                    nic_interrupt_core: 0xFF,
                    ..*old(self)
                }),
                Err(e) => !old(self).initialized && e@
                    == "InterruptAffinityManager not initialized"@ && *final(self) == *old(self),
            },
    {
        if !self.initialized {
            return Err("InterruptAffinityManager not initialized");
        }
        self.nic_interrupt_core = 0xFF;
        Ok(())
    }
}

/// An adapter list has one primary adapter, unless it is empty.
pub proof fn law_one_primary(adapters: Seq<NetworkAdapter>, a: int, b: int)
    requires
        is_primary(adapters, a),
        is_primary(adapters, b),
    ensures
        a == b,
{
}

/// The primary adapter is the first of a known maker, and the first of all
/// where none is.
pub proof fn law_primary_adapter(adapters: Seq<NetworkAdapter>, i: int)
    requires
        is_primary(adapters, i),
    ensures
        0 <= i < adapters.len(),
        forall|j: int| 0 <= j < i ==> !known_maker((#[trigger] adapters[j]).adapter_name@),
        !known_maker(adapters[i].adapter_name@) ==> i == 0 && forall|j: int|
            0 <= j < adapters.len() ==> !known_maker((#[trigger] adapters[j]).adapter_name@),
{
}

/// A core is refused before the adapter is known and where its number is above
/// sixty-three, for the first of these reasons.
pub proof fn law_refused_cores(m: InterruptAffinityManager, core_id: u32)
    ensures
        m.refusal(core_id) is None <==> m.initialized && m.primary_nic_handle != 0 && core_id < 64,
        !m.initialized ==> m.refusal(core_id) == Some("InterruptAffinityManager not initialized"@),
        m.initialized && m.primary_nic_handle == 0 ==> m.refusal(core_id) == Some(
            "Primary NIC not identified"@,
        ),
        m.initialized && m.primary_nic_handle != 0 && core_id >= 64 ==> m.refusal(core_id) == Some(
            "Core ID out of valid range (0-63)"@,
        ),
{
}

/// Names and addresses of known makers.
pub proof fn law_known_makers(name: Seq<char>, mac: Seq<u8>)
    requires
        mac.len() >= 3,
    ensures
        text::has_part(name, "Intel"@) ==> known_maker(name),
        text::has_part(name, "Realtek"@) ==> known_maker(name),
        text::has_part(name, "Killer"@) ==> known_maker(name),
        known_maker(name) ==> text::has_part(name, "Intel"@) || text::has_part(name, "Realtek"@)
            || text::has_part(name, "Killer"@),
        known_prefix(mac) <==> {
            let p = mac[0] * 0x1_0000 + mac[1] * 0x100 + mac[2];
            p == 0x02_0000 || p == 0x00_163E || p == 0x00_5056 || p == 0x00_1A2B || p == 0x52_5400
        },
{
}

} // verus!
