//! Portfolio construction: memory budgets, turnover costs, risk budgets and
//! equilibrium returns. Weights, returns and correlations are fixed-point
//! numbers in units of one hundred-millionth.
pub mod black_litterman;
pub mod budget;
pub mod risk_budgeting;
pub mod turnover_penalty;
