//! TCP segmentation and large receive offload: enabled for bulk snapshot
//! downloads, restored afterwards.
use vstd::prelude::*;

verus! {

/// Network interface card offload configuration
#[derive(Debug, Clone, Copy, PartialEq, Eq, Structural)]
pub struct NicOffloadConfig {
    /// TCP Segmentation Offload enabled
    pub tso_enabled: bool,
    /// Large Receive Offload enabled
    pub lro_enabled: bool,
    /// Checksum offload enabled
    pub checksum_offload: bool,
    /// Interrupt moderation enabled
    pub interrupt_moderation: bool,
    /// Jumbo frames enabled
    pub jumbo_frames: bool,
    /// MTU size
    pub mtu: u32,
}

/// Settings for trading: large receive offload and interrupt moderation are
/// off, since both delay ticks.
pub open spec fn trading_config() -> NicOffloadConfig {
    NicOffloadConfig {
        tso_enabled: true,
        lro_enabled: false,
        checksum_offload: true,
        interrupt_moderation: false,
        jumbo_frames: true,
        mtu: 9000,
    }
}

impl Default for NicOffloadConfig {
    fn default() -> (r: Self)
        ensures
            r == trading_config(),
    {
        NicOffloadConfig {
            tso_enabled: true,
            lro_enabled: false,
            checksum_offload: true,
            interrupt_moderation: false,
            jumbo_frames: true,
            mtu: 9000,
        }
    }
}

/// TCP Segmentation Offload manager
pub struct TsoManager {
    pub config: NicOffloadConfig,
    pub adapter_handle: Option<usize>,
}

impl TsoManager {
    /// Create a new TSO manager
    pub fn new() -> (r: Result<Self, &'static str>)
        ensures
            r matches Ok(m) && m.config == trading_config() && m.adapter_handle is None,
    {
        Ok(TsoManager { config: NicOffloadConfig::default(), adapter_handle: None })
    }

    /// Configure TSO for a specific network adapter
    pub fn configure_tso(&mut self, adapter_name: &str, enable: bool) -> (r: Result<
        (),
        &'static str,
    >)
        ensures
            r is Ok,
            final(self).config == (NicOffloadConfig { tso_enabled: enable, ..old(self).config }),
            final(self).adapter_handle == old(self).adapter_handle,
    {
        self.config.tso_enabled = enable;
        Ok(())
    }

    /// Configure LRO for bulk data transfers
    pub fn configure_lro(&mut self, enable: bool) -> (r: Result<(), &'static str>)
        ensures
            r is Ok,
            final(self).config == (NicOffloadConfig { lro_enabled: enable, ..old(self).config }),
            final(self).adapter_handle == old(self).adapter_handle,
    {
        self.config.lro_enabled = enable;
        Ok(())
    }

    /// Enable offloads temporarily for snapshot download
    ///
    /// Returns a guard that restores the original settings.
    pub fn enable_for_snapshot(&mut self) -> (r: Result<OffloadGuard, &'static str>)
        ensures
            r matches Ok(g) && g.original_config == old(self).config,
            final(self).config == (NicOffloadConfig {
                tso_enabled: true,
                lro_enabled: true,
                ..old(self).config
            }),
            final(self).adapter_handle == old(self).adapter_handle,
    {
        let original_config: NicOffloadConfig = self.config;
        self.configure_tso("Primary", true)?;
        self.configure_lro(true)?;
        Ok(OffloadGuard { original_config })
    }

    /// Get current configuration
    pub fn get_config(&self) -> (r: NicOffloadConfig)
        ensures
            r == self.config,
    {
        self.config
    }

    /// Query actual hardware capabilities
    pub fn query_capabilities(&self) -> (r: Result<NicCapabilities, &'static str>)
        ensures
            r == Ok::<NicCapabilities, &'static str>(
                NicCapabilities {
                    supports_tso: true,
                    supports_lro: true,
                    supports_jumbo: true,
                    max_jumbo_size: 9014,
                    supports_checksum_offload: true,
                    num_queues: 8,
                },
            ),
    {
        Ok(
            NicCapabilities {
                supports_tso: true,
                supports_lro: true,
                supports_jumbo: true,
                max_jumbo_size: 9014,
                supports_checksum_offload: true,
                num_queues: 8,
            },
        )
    }
}

impl Default for TsoManager {
    fn default() -> (r: Self)
        ensures
            r.config == trading_config(),
            r.adapter_handle is None,
    {
        TsoManager { config: NicOffloadConfig::default(), adapter_handle: None }
    }
}

/// Guard to restore offload settings
pub struct OffloadGuard {
    pub original_config: NicOffloadConfig,
}

impl OffloadGuard {
    /// Ends the snapshot: the offloads are as the guard found them.
    pub fn restore(self, manager: &mut TsoManager)
        ensures
            final(manager).config == (NicOffloadConfig {
                tso_enabled: self.original_config.tso_enabled,
                lro_enabled: self.original_config.lro_enabled,
                ..old(manager).config
            }),
            final(manager).adapter_handle == old(manager).adapter_handle,
    {
        let _ = manager.configure_tso("Primary", self.original_config.tso_enabled);
        let _ = manager.configure_lro(self.original_config.lro_enabled);
    }
}

/// What the guard found before a snapshot is there again after it.
pub proof fn law_guard_restores(before: NicOffloadConfig)
    ensures
        ({
            let during = NicOffloadConfig { tso_enabled: true, lro_enabled: true, ..before };
            let after = NicOffloadConfig {
                tso_enabled: before.tso_enabled,
                lro_enabled: before.lro_enabled,
                ..during
            };
            after == before
        }),
{
}

/// NIC hardware capabilities
#[derive(Debug, Clone, Copy, PartialEq, Eq, Structural)]
pub struct NicCapabilities {
    pub supports_tso: bool,
    pub supports_lro: bool,
    pub supports_jumbo: bool,
    pub max_jumbo_size: u32,
    pub supports_checksum_offload: bool,
    pub num_queues: u32,
}

/// Checksum offload state
#[derive(Debug, Clone, Copy, PartialEq, Eq, Structural)]
pub enum ChecksumState {
    Disabled,
    TxOnly,
    RxOnly,
    TxAndRx,
}

/// Checksum offload for trading: on for sending, which saves work on order
/// submission, and off for receiving, which makes packets available earlier.
pub fn optimize_checksum_for_trading() -> (r: ChecksumState)
    ensures
        r == ChecksumState::TxOnly,
{
    ChecksumState::TxOnly
}

/// For trading, segments and checksums are left to the card, nothing is merged
/// on receipt, interrupts come at once, and frames may hold nine thousand bytes.
pub proof fn law_trading_settings()
    ensures
        ({
            let c = trading_config();
            &&& c.tso_enabled
            &&& c.checksum_offload
            &&& !c.lro_enabled
            &&& !c.interrupt_moderation
            &&& c.jumbo_frames
            &&& c.mtu == 9000
        }),
{
}

} // verus!
