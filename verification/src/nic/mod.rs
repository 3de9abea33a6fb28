//! Network adapter tuning.
pub mod interrupt_coalesce;
pub mod tcp_offload;
