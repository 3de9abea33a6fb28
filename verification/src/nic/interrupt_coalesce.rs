//! Interrupt coalescing that follows the tick rate.
use crate::math::Ratio;
use vstd::prelude::*;

verus! {

/// Default interrupt moderation settings: none, for lowest latency
pub const DEFAULT_USECS: u32 = 0;

/// Process every frame
pub const DEFAULT_FRAMES: u32 = 1;

/// High volatility settings
pub const HIGH_VOLATILITY_USECS: u32 = 0;

pub const HIGH_VOLATILITY_FRAMES: u32 = 1;

/// Normal volatility settings
pub const NORMAL_VOLATILITY_USECS: u32 = 10;

pub const NORMAL_VOLATILITY_FRAMES: u32 = 4;

/// Low activity settings
pub const LOW_ACTIVITY_USECS: u32 = 50;

pub const LOW_ACTIVITY_FRAMES: u32 = 16;

/// Threshold for high volatility detection (ticks per second)
pub const HIGH_VOLATILITY_THRESHOLD: u32 = 10000;

/// Threshold for low activity detection (ticks per second)
pub const LOW_ACTIVITY_THRESHOLD: u32 = 100;

/// Current coalescing profile
#[derive(Debug, Clone, Copy, PartialEq, Eq, Structural)]
pub enum CoalesceProfile {
    /// Ultra-low latency for active trading
    LowLatency,
    /// Balanced for normal market conditions
    Balanced,
    /// Power-saving for low activity periods
    PowerSave,
}

impl CoalesceProfile {
    pub fn usecs(&self) -> (r: u32)
        ensures
            r == (match self {
                CoalesceProfile::LowLatency => HIGH_VOLATILITY_USECS,
                CoalesceProfile::Balanced => NORMAL_VOLATILITY_USECS,
                CoalesceProfile::PowerSave => LOW_ACTIVITY_USECS,
            }),
    {
        match self {
            CoalesceProfile::LowLatency => HIGH_VOLATILITY_USECS,
            CoalesceProfile::Balanced => NORMAL_VOLATILITY_USECS,
            CoalesceProfile::PowerSave => LOW_ACTIVITY_USECS,
        }
    }

    pub fn frames(&self) -> (r: u32)
        ensures
            r == (match self {
                CoalesceProfile::LowLatency => HIGH_VOLATILITY_FRAMES,
                CoalesceProfile::Balanced => NORMAL_VOLATILITY_FRAMES,
                CoalesceProfile::PowerSave => LOW_ACTIVITY_FRAMES,
            }),
    {
        match self {
            CoalesceProfile::LowLatency => HIGH_VOLATILITY_FRAMES,
            CoalesceProfile::Balanced => NORMAL_VOLATILITY_FRAMES,
            CoalesceProfile::PowerSave => LOW_ACTIVITY_FRAMES,
        }
    }
}

/// The profile for a tick rate.
pub open spec fn profile_for(rate: Ratio) -> CoalesceProfile {
    if rate.num >= HIGH_VOLATILITY_THRESHOLD * rate.den {
        CoalesceProfile::LowLatency
    } else if rate.num <= LOW_ACTIVITY_THRESHOLD * rate.den {
        CoalesceProfile::PowerSave
    } else {
        CoalesceProfile::Balanced
    }
}

/// Dynamic interrupt coalescing manager
pub struct InterruptCoalescer {
    /// Current profile
    pub current_profile: CoalesceProfile,
    /// Whether adaptive tuning is enabled
    pub adaptive_enabled: bool,
    /// Last profile change time
    pub last_change: Option<u64>,
    /// Minimum interval between adaptive profile changes
    pub min_change_interval_ns: u64,
}

impl InterruptCoalescer {
    /// Create a new interrupt coalescer
    pub fn new() -> (r: Result<Self, &'static str>)
        ensures
            r matches Ok(c) && c.current_profile == CoalesceProfile::LowLatency
                && c.adaptive_enabled && c.last_change is None && c.min_change_interval_ns
                == 100_000_000,
    {
        Ok(
            InterruptCoalescer {
                current_profile: CoalesceProfile::LowLatency,
                adaptive_enabled: true,
                last_change: None,
                min_change_interval_ns: 100_000_000,
            },
        )
    }

    /// Set the coalescing profile directly
    pub fn set_profile(&mut self, profile: CoalesceProfile, now_ns: u64) -> (r: Result<
        (),
        &'static str,
    >)
        ensures
            r is Ok,
            *final(self) == (InterruptCoalescer {
                current_profile: profile,
                last_change: Some(now_ns),
                ..*old(self)
            }),
    {
        self.current_profile = profile;
        self.last_change = Some(now_ns);
        Ok(())
    }

    /// Get current profile
    pub fn get_profile(&self) -> (r: CoalesceProfile)
        ensures
            r == self.current_profile,
    {
        self.current_profile
    }

    /// Whether the last change is too recent for an adaptive one.
    pub open spec fn too_soon(&self, now_ns: u64) -> bool {
        self.last_change matches Some(t) && (if now_ns >= t {
            now_ns - t
        } else {
            0
        }) < self.min_change_interval_ns
    }

    /// Update based on observed tick rate
    ///
    /// Called periodically to adapt to market conditions.
    pub fn update_tick_rate(&mut self, ticks_per_second: Ratio, now_ns: u64) -> (r: Result<
        (),
        &'static str,
    >)
        requires
            ticks_per_second.den > 0,
        ensures
            r is Ok,
            *final(self) == (if old(self).adaptive_enabled && profile_for(ticks_per_second) != old(self).current_profile && !old(self).too_soon(now_ns) {
                InterruptCoalescer {
                    current_profile: profile_for(ticks_per_second),
                    last_change: Some(now_ns),
                    ..*old(self)
                }
            } else {
                *old(self)
            }),
    {
        if !self.adaptive_enabled {
            return Ok(());
        }
        let num: u128 = ticks_per_second.num as u128;
        let den: u128 = ticks_per_second.den as u128;
        let new_profile: CoalesceProfile = if num >= HIGH_VOLATILITY_THRESHOLD as u128 * den {
            CoalesceProfile::LowLatency
        } else if num <= LOW_ACTIVITY_THRESHOLD as u128 * den {
            CoalesceProfile::PowerSave
        } else {
            CoalesceProfile::Balanced
        };
        if new_profile != self.current_profile {
            match self.last_change {
                Some(last) => {
                    if now_ns.saturating_sub(last) < self.min_change_interval_ns {
                        return Ok(());
                    }
                },
                None => {},
            }
            self.set_profile(new_profile, now_ns)?;
        }
        Ok(())
    }

    /// Enable/disable adaptive tuning
    pub fn set_adaptive(&mut self, enabled: bool)
        ensures
            *final(self) == (InterruptCoalescer { adaptive_enabled: enabled, ..*old(self) }),
    {
        self.adaptive_enabled = enabled;
    }

    /// Force low-latency mode
    pub fn force_low_latency(&mut self, now_ns: u64) -> (r: Result<(), &'static str>)
        ensures
            r is Ok,
            *final(self) == (InterruptCoalescer {
                adaptive_enabled: false,
                current_profile: CoalesceProfile::LowLatency,
                last_change: Some(now_ns),
                ..*old(self)
            }),
    {
        self.set_adaptive(false);
        self.set_profile(CoalesceProfile::LowLatency, now_ns)
    }

    /// Restore adaptive mode (for normal operation)
    pub fn restore_adaptive(&mut self)
        ensures
            *final(self) == (InterruptCoalescer { adaptive_enabled: true, ..*old(self) }),
    {
        self.set_adaptive(true);
    }
}

impl Default for InterruptCoalescer {
    fn default() -> (r: Self)
        ensures
            r.current_profile == CoalesceProfile::LowLatency,
            r.adaptive_enabled,
            r.last_change is None,
            r.min_change_interval_ns == 100_000_000,
    {
        InterruptCoalescer {
            current_profile: CoalesceProfile::LowLatency,
            adaptive_enabled: true,
            last_change: None,
            min_change_interval_ns: 100_000_000,
        }
    }
}

/// A higher tick rate never moderates interrupts more: the profiles go from
/// power saving over balanced to low latency as the rate grows.
pub proof fn law_profile_monotone(a: Ratio, b: Ratio)
    requires
        a.den > 0,
        b.den > 0,
        a.num * b.den <= b.num * a.den,
    ensures
        profile_for(a) == CoalesceProfile::LowLatency ==> profile_for(b)
            == CoalesceProfile::LowLatency,
        profile_for(b) == CoalesceProfile::PowerSave ==> profile_for(a)
            == CoalesceProfile::PowerSave,
{
    let (an, ad, bn, bd) = (a.num as int, a.den as int, b.num as int, b.den as int);
    assert(an >= 10000 * ad ==> bn >= 10000 * bd) by (nonlinear_arith)
        requires
            ad > 0,
            bd > 0,
            an * bd <= bn * ad,
    ;
    assert(bn <= 100 * bd ==> an <= 100 * ad) by (nonlinear_arith)
        requires
            ad > 0,
            bd > 0,
            an * bd <= bn * ad,
    ;
}

/// Query current NIC interrupt moderation settings
pub fn query_current_settings() -> (r: Result<(u32, u32), &'static str>)
    ensures
        r == Ok::<(u32, u32), &'static str>((DEFAULT_USECS, DEFAULT_FRAMES)),
{
    Ok((DEFAULT_USECS, DEFAULT_FRAMES))
}

/// Apply interrupt coalescing settings
pub fn apply_settings(usecs: u32, frames: u32) -> (r: Result<(), &'static str>)
    ensures
        r is Ok,
{
    Ok(())
}

/// Ten thousand events a second and more call for low latency, a hundred and
/// fewer for power saving, and anything between for balance.
pub proof fn law_profile_by_rate(rate: Ratio)
    requires
        rate.den > 0,
    ensures
        profile_for(rate) == CoalesceProfile::LowLatency <==> rate.num >= 10_000 * rate.den,
        profile_for(rate) == CoalesceProfile::PowerSave <==> rate.num <= 100 * rate.den,
        profile_for(rate) == CoalesceProfile::Balanced <==> 100 * rate.den < rate.num < 10_000
            * rate.den,
{
}

/// A change is too soon while the least interval since the last one has not
/// passed, and the first is never.
pub proof fn law_changes_keep_their_distance(c: InterruptCoalescer, now_ns: u64)
    ensures
        c.last_change is None ==> !c.too_soon(now_ns),
        c.last_change matches Some(t) ==> (c.too_soon(now_ns) <==> c.min_change_interval_ns > 0
            && now_ns < t + c.min_change_interval_ns),
{
}

} // verus!
