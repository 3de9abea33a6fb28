//! Connections, failover, framing and receive rings.
pub mod connection_pool;
pub mod dma_buffer;
pub mod failover;
pub mod heartbeat;
pub mod iocp_ring;
pub mod packet_mmap;
pub mod tcp_tuning;
pub mod ws_multiplexer;
pub mod xdp_stub;
pub mod multicast_ipc;
pub mod protocol;
pub mod riocp;
