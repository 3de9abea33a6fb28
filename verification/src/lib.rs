//! The decision core of a low-latency trading system: order-flow analytics,
//! network framing, operating-system resource accounting, event pipelines and
//! orchestration rules. Everything here works on plain values; clocks, sockets
//! and system calls belong to the program around it.
pub mod math;
pub mod sorting;
pub mod text;
pub mod bytes;
pub mod ring;
pub mod orderflow;
pub mod network;
pub mod nic;
pub mod observability;
pub mod options;
pub mod orchestration;
pub mod orchestrator;
pub mod os;
pub mod pipeline;
pub mod portfolio;
