//! Power settings for steady execution speed, as registry values.
use vstd::prelude::*;

verus! {

/// Power setting values
#[derive(Debug, Clone, Copy, PartialEq, Eq, Structural)]
pub struct PowerSettings {
    /// Core parking (100 percent means never park)
    pub core_parking_min: u32,
    pub core_parking_max: u32,
    /// Processor performance boost enabled
    pub processor_boost_mode: u32,
    /// Disable idle states (C0 only)
    pub idle_disable: u32,
    /// Processor state in percent
    pub proc_state_min: u32,
    pub proc_state_max: u32,
    /// Thermal throttling
    pub thermal_policy: u32,
}

impl Default for PowerSettings {
    fn default() -> (r: Self)
        ensures
            r == (PowerSettings {
                core_parking_min: 100,
                core_parking_max: 100,
                processor_boost_mode: 2,
                idle_disable: 1,
                proc_state_min: 100,
                proc_state_max: 100,
                thermal_policy: 0,
            }),
    {
        PowerSettings {
            core_parking_min: 100,
            core_parking_max: 100,
            processor_boost_mode: 2,
            idle_disable: 1,
            proc_state_min: 100,
            proc_state_max: 100,
            thermal_policy: 0,
        }
    }
}

/// What came of writing the power scheme to the registry.
#[derive(Debug, Clone, Copy, PartialEq, Eq, Structural)]
pub enum SchemeWrite {
    /// The key could not be opened
    Unavailable,
    /// The value was written
    Written,
    /// The key was open, and the value was refused
    Refused,
}

/// A registry value to write.
#[derive(Debug, Clone, Copy)]
pub struct RegistryValue {
    pub name: &'static str,
    pub value: u32,
}

/// Power manager
pub struct PowerProfileManager {
    /// Original power scheme GUID (for restoration)
    pub original_scheme: [u8; 64],
    /// Whether custom settings have been applied
    pub custom_applied: bool,
    /// Initialization flag
    pub initialized: bool,
}

impl PowerProfileManager {
    /// Create a new power profile manager
    pub fn new() -> (r: Self)
        ensures
            forall|i: int| 0 <= i < 64 ==> #[trigger] r.original_scheme@[i] == 0,
            !r.custom_applied,
            !r.initialized,
    {
        PowerProfileManager {
            original_scheme: [0u8; 64],
            custom_applied: false,
            initialized: false,
        }
    }

    /// Initialize the power manager
    pub fn initialize(&mut self) -> (r: Result<(), &'static str>)
        ensures
            match r {
                Ok(()) => !old(self).initialized && *final(self) == (PowerProfileManager {
                    initialized: true,
                    ..*old(self)
                }),
                Err(e) => old(self).initialized && e@ == "PowerProfileManager already initialized"@
                    && *final(self) == *old(self),
            },
    {
        if self.initialized {
            return Err("PowerProfileManager already initialized");
        }
        self.initialized = true;
        Ok(())
    }

    /// Apply Ultimate Performance power plan
    ///
    /// Where the registry is not available the plan counts as applied.
    pub fn apply_ultimate_performance(&mut self, write: SchemeWrite) -> (r: Result<
        (),
        &'static str,
    >)
        ensures
            match r {
                Ok(()) => old(self).initialized && write != SchemeWrite::Refused && *final(self)
                    == (PowerProfileManager { custom_applied: true, ..*old(self) }),
                Err(e) => *final(self) == *old(self) && e@ == (if !old(self).initialized {
                    "PowerProfileManager not initialized"@
                } else {
                    "Failed to set Ultimate Performance scheme"@
                }) && (!old(self).initialized || write == SchemeWrite::Refused),
            },
    {
        if !self.initialized {
            return Err("PowerProfileManager not initialized");
        }
        match write {
            SchemeWrite::Unavailable => {
                self.custom_applied = true;
                Ok(())
            },
            SchemeWrite::Refused => Err("Failed to set Ultimate Performance scheme"),
            SchemeWrite::Written => {
                self.custom_applied = true;
                Ok(())
            },
        }
    }

    /// Disable core parking on all processors: the values to write, where there
    /// is a registry to write them to
    pub fn disable_core_parking(&self) -> (r: Result<Vec<RegistryValue>, &'static str>)
        ensures
            match r {
                Ok(v) => self.initialized && v.len() == 2 && v@[0].name@ == "ValueMax"@ && v@[0].value
                    == 100 && v@[1].name@ == "ValueMin"@ && v@[1].value == 100,
                Err(e) => !self.initialized && e@ == "PowerProfileManager not initialized"@,
            },
    {
        if !self.initialized {
            return Err("PowerProfileManager not initialized");
        }
        let mut values: Vec<RegistryValue> = Vec::new();
        values.push(RegistryValue { name: "ValueMax", value: 100 });
        values.push(RegistryValue { name: "ValueMin", value: 100 });
        Ok(values)
    }

    /// Disable CPU throttling: the value to write
    pub fn disable_cpu_throttling(&self) -> (r: Result<Vec<RegistryValue>, &'static str>)
        ensures
            match r {
                Ok(v) => self.initialized && v.len() == 1 && v@[0].name@ == "Enabled"@ && v@[0].value
                    == 1,
                Err(e) => !self.initialized && e@ == "PowerProfileManager not initialized"@,
            },
    {
        if !self.initialized {
            return Err("PowerProfileManager not initialized");
        }
        let mut values: Vec<RegistryValue> = Vec::new();
        values.push(RegistryValue { name: "Enabled", value: 1 });
        Ok(values)
    }

    /// Apply all power settings
    pub fn apply_all_hft_settings(&mut self, write: SchemeWrite) -> (r: Result<(), &'static str>)
        ensures
            match r {
                Ok(()) => old(self).initialized && write != SchemeWrite::Refused && *final(self)
                    == (PowerProfileManager { custom_applied: true, ..*old(self) }),
                Err(e) => *final(self) == *old(self) && e@ == (if !old(self).initialized {
                    "PowerProfileManager not initialized"@
                } else {
                    "Failed to set Ultimate Performance scheme"@
                }) && (!old(self).initialized || write == SchemeWrite::Refused),
            },
    {
        match self.apply_ultimate_performance(write) {
            Ok(()) => {},
            Err(e) => {
                return Err(e);
            },
        }
        match self.disable_core_parking() {
            Ok(_) => {},
            Err(e) => {
                return Err(e);
            },
        }
        match self.disable_cpu_throttling() {
            Ok(_) => Ok(()),
            Err(e) => Err(e),
        }
    }

    /// Restore default power settings
    pub fn restore_defaults(&mut self) -> (r: Result<(), &'static str>)
        ensures
            match r {
                Ok(()) => old(self).initialized && *final(self) == (PowerProfileManager {
                    custom_applied: false,
                    ..*old(self)
                }),
                Err(e) => !old(self).initialized && e@ == "PowerProfileManager not initialized"@
                    && *final(self) == *old(self),
            },
    {
        if !self.initialized {
            return Err("PowerProfileManager not initialized");
        }
        self.custom_applied = false;
        Ok(())
    }

    /// Check if custom settings are active
    pub fn is_hft_mode_active(&self) -> (r: bool)
        ensures
            r == self.custom_applied,
    {
        self.custom_applied
    }
}

/// Restoring the defaults undoes what applying the settings did, on a manager
/// without custom settings.
pub proof fn law_restore_undoes_apply(m: PowerProfileManager)
    requires
        m.initialized,
        !m.custom_applied,
    ensures
        (PowerProfileManager {
            custom_applied: false,
            ..(PowerProfileManager { custom_applied: true, ..m })
        }) == m,
{
}

} // verus!
