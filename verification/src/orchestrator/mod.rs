//! Start, run and end of the trading system.
pub mod master_loop;
pub mod panic_handler;
pub mod shutdown_hook;
