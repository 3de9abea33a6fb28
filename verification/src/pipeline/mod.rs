//! Event streams.
pub mod backpressure;
pub mod stream_join;
