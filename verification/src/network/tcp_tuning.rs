//! Socket settings for low-latency TCP connections.
use vstd::prelude::*;

verus! {

/// Operating systems that the settings tell apart.
#[derive(Debug, Clone, Copy, PartialEq, Eq, Structural)]
pub enum Platform {
    Windows,
    Linux,
    Other,
}

/// Configuration for HFT-optimized TCP connections
#[derive(Debug, Clone, Copy, PartialEq, Eq, Structural)]
pub struct TcpTuningConfig {
    /// Disable Nagle's algorithm (TCP_NODELAY)
    pub no_delay: bool,
    /// Enable quick ACK mode (platform-specific)
    pub quick_ack: bool,
    /// Keep-alive interval in seconds (aggressive for HFT)
    pub keep_alive_interval_secs: u32,
    /// Keep-alive probe count before declaring dead
    pub keep_alive_probes: u32,
    /// Receive buffer size in bytes (tuned for tick bursts)
    pub recv_buffer_size: u32,
    /// Send buffer size in bytes
    pub send_buffer_size: u32,
    /// Connection timeout in milliseconds
    pub connect_timeout_ms: u64,
}

impl TcpTuningConfig {
    pub open spec fn standard() -> TcpTuningConfig {
        TcpTuningConfig {
            no_delay: true,
            quick_ack: true,
            keep_alive_interval_secs: 5,
            keep_alive_probes: 3,
            recv_buffer_size: 2097152,
            send_buffer_size: 524288,
            connect_timeout_ms: 100,
        }
    }
}

impl Default for TcpTuningConfig {
    fn default() -> (r: Self)
        ensures
            r == TcpTuningConfig::standard(),
    {
        TcpTuningConfig {
            no_delay: true,
            quick_ack: true,
            keep_alive_interval_secs: 5,
            keep_alive_probes: 3,
            recv_buffer_size: 2097152,
            send_buffer_size: 524288,
            connect_timeout_ms: 100,
        }
    }
}

/// The value of each socket option that a configuration asks for, as the
/// system takes it; `None` where the platform is left alone.
#[derive(Debug, Clone, Copy, PartialEq, Eq, Structural)]
pub struct SocketOptions {
    pub no_delay: bool,
    pub keep_alive: Option<bool>,
    /// Seconds before the first probe
    pub keep_idle_secs: Option<i32>,
    /// Seconds between probes
    pub keep_interval_secs: Option<i32>,
    /// Number of probes
    pub keep_count: Option<i32>,
    pub recv_buffer: Option<i32>,
    pub send_buffer: Option<i32>,
}

/// The options for a platform: keep-alive is set everywhere but on Windows,
/// buffer sizes on Windows and Linux.
pub open spec fn options_for(config: TcpTuningConfig, platform: Platform) -> SocketOptions {
    let unix = platform != Platform::Windows;
    let sized = platform != Platform::Other;
    SocketOptions {
        no_delay: config.no_delay,
        keep_alive: if unix {
            Some(true)
        } else {
            None
        },
        keep_idle_secs: if unix {
            Some(config.keep_alive_interval_secs as i32)
        } else {
            None
        },
        keep_interval_secs: if unix {
            Some((config.keep_alive_interval_secs / 2) as i32)
        } else {
            None
        },
        keep_count: if unix {
            Some(config.keep_alive_probes as i32)
        } else {
            None
        },
        recv_buffer: if sized {
            Some(config.recv_buffer_size as i32)
        } else {
            None
        },
        send_buffer: if sized {
            Some(config.send_buffer_size as i32)
        } else {
            None
        },
    }
}

/// All tuning parameters of a socket
pub fn tuning_options(config: &TcpTuningConfig, platform: Platform) -> (r: SocketOptions)
    ensures
        r == options_for(*config, platform),
{
    let mut options: SocketOptions = SocketOptions {
        no_delay: config.no_delay,
        keep_alive: None,
        keep_idle_secs: None,
        keep_interval_secs: None,
        keep_count: None,
        recv_buffer: None,
        send_buffer: None,
    };
    if platform != Platform::Windows {
        options.keep_alive = Some(true);
        options.keep_idle_secs = Some(config.keep_alive_interval_secs as i32);
        options.keep_interval_secs = Some((config.keep_alive_interval_secs / 2) as i32);
        options.keep_count = Some(config.keep_alive_probes as i32);
    }
    if platform != Platform::Other {
        options.recv_buffer = Some(config.recv_buffer_size as i32);
        options.send_buffer = Some(config.send_buffer_size as i32);
    }
    options
}

/// Auto-tuned parameters for an operating system
pub fn auto_detect_and_tune(platform: Platform) -> (r: TcpTuningConfig)
    ensures
        r == (match platform {
            Platform::Windows => TcpTuningConfig {
                keep_alive_interval_secs: 4,
                recv_buffer_size: 4194304,
                ..TcpTuningConfig::standard()
            },
            Platform::Linux => TcpTuningConfig {
                keep_alive_interval_secs: 3,
                ..TcpTuningConfig::standard()
            },
            Platform::Other => TcpTuningConfig::standard(),
        }),
{
    let mut config: TcpTuningConfig = TcpTuningConfig::default();
    match platform {
        Platform::Windows => {
            config.keep_alive_interval_secs = 4;
            config.recv_buffer_size = 4194304;
        },
        Platform::Linux => {
            config.keep_alive_interval_secs = 3;
        },
        Platform::Other => {},
    }
    config
}

/// Each platform takes the settings that it has: keep-alives everywhere but on
/// Windows, every interval half as long as the idle time, and buffer sizes on
/// Windows and Linux; delays are switched off wherever the settings say so.
pub proof fn law_options_by_platform(c: TcpTuningConfig, p: Platform)
    ensures
        ({
            let o = options_for(c, p);
            &&& o.no_delay == c.no_delay
            &&& o.keep_alive is Some <==> p != Platform::Windows
            &&& o.keep_alive matches Some(on) ==> on
            &&& o.keep_idle_secs is Some <==> p != Platform::Windows
            &&& o.keep_interval_secs is Some <==> p != Platform::Windows
            &&& o.keep_count is Some <==> p != Platform::Windows
            &&& o.recv_buffer is Some <==> p != Platform::Other
            &&& o.send_buffer is Some <==> p != Platform::Other
            &&& c.keep_alive_interval_secs <= i32::MAX && p != Platform::Windows ==> {
                &&& o.keep_idle_secs->0 == c.keep_alive_interval_secs
                &&& 0 <= c.keep_alive_interval_secs - 2 * o.keep_interval_secs->0 <= 1
            }
            &&& c.keep_alive_probes <= i32::MAX && p != Platform::Windows ==> o.keep_count->0
                == c.keep_alive_probes
            &&& c.recv_buffer_size <= i32::MAX && p != Platform::Other ==> o.recv_buffer->0
                == c.recv_buffer_size
            &&& c.send_buffer_size <= i32::MAX && p != Platform::Other ==> o.send_buffer->0
                == c.send_buffer_size
        }),
{
}

/// The standard settings: no delay, quick acknowledgements, keep-alives every
/// five seconds with three probes, two mebibytes to receive and half a mebibyte
/// to send, and a tenth of a second to connect.
pub proof fn law_standard_tuning()
    ensures
        ({
            let c = TcpTuningConfig::standard();
            &&& c.no_delay
            &&& c.quick_ack
            &&& c.keep_alive_interval_secs == 5
            &&& c.keep_alive_probes == 3
            &&& c.recv_buffer_size == 2 * 1024 * 1024
            &&& c.send_buffer_size == 512 * 1024
            &&& c.connect_timeout_ms == 100
        }),
{
}

} // verus!
