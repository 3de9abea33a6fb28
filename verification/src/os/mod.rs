//! Operating system integration: what is decided, apart from the system calls.
pub mod afxdp_stub;
pub mod dpc_routine;
pub mod interrupt_affinity;
pub mod interrupt_routing;
pub mod large_pages;
pub mod memory_evictor;
pub mod numa_aware;
pub mod pagefile_lock;
pub mod power_profiles;
pub mod process_guard;
pub mod thermal_shedder;
pub mod thread_affinity;
pub mod windows_fibers;
pub mod working_set;
