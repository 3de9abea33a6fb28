//! Oversight of worker clusters.
pub mod ray_bridge;
