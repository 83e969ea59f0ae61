//! Historical price series with incrementally maintained aggregates, and a
//! Monte Carlo option-pricing engine with a bisection-based implied-volatility
//! solver. All quantities are held as signed fixed-point numbers (millionths),
//! so every computation is exact integer arithmetic with proved contracts.

pub mod application;
pub mod chart;
pub mod date;
pub mod fixed;
pub mod monte_carlo;
pub mod params;
pub mod parse;
pub mod request;
pub mod solver;
