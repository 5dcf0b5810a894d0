//! Deleveraging-cascade simulation for collateralized debt positions.
//!
//! A run shocks the price of the collateral asset block by block, liquidates
//! the most undercollateralized positions through one of two mechanisms, and
//! feeds the collateral sold back into the price. Batches of runs are then
//! summarized into averages and tail-risk figures.
//!
//! Amounts are fixed-point integers: collateral in millionths of the volatile
//! asset, prices and debt in millionths of the stable numeraire, ratios and
//! shares in parts per million. Randomness comes from a seedable `StdRng`
//! passed to every stochastic function; the normally distributed returns of
//! the volatile scenario are supplied by the caller, per block, in ppm.
//!
//! - `position`: positions, keepers, ratios, profit and bad debt.
//! - `mechanism`: who joins a liquidation and how its profit is paid.
//! - `ranking`: which liquidatable positions go first.
//! - `cascade`: price shocks, liquidation rounds, the run loop, batches.
//! - `summary`: measures taken at the end of a run.
//! - `stats`: means, maxima, value-at-risk and expected shortfall.
//! - `monte_carlo`: batches keyed on bad debt, per price model.
//! - `random`: integer draws from the random source.

pub mod random;
pub mod position;
pub mod mechanism;
pub mod stats;
pub mod ranking;
pub mod cascade;
pub mod summary;
pub mod monte_carlo;
