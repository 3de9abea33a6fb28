//! Options: positions, volatility surfaces and arbitrage signals. Prices,
//! quantities, rates and volatilities are fixed-point numbers.
pub mod gamma_scalping;
pub mod surface_builder;
pub mod vol_arb;
