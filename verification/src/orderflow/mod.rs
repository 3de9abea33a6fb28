//! Order-flow analytics on integer prices and volumes.
pub mod absorption;
pub mod footprint;
pub mod iceberg_detector;
pub mod imbalance_shocks;
pub mod micro_patterns;
pub mod spoofing;
pub mod toxicity;
pub mod toxicity_vpin;
pub mod volume_profile;
