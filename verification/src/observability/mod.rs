//! Tracing and memory statistics.
pub mod allocator_stats;
pub mod etw_deep;
