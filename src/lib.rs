//! Arbitrage analysis between two markets: order-book metrics, rolling
//! window statistics over daily history, order matching, the per-item
//! economics of three trading strategies, and a cargo-capacity optimizer.
//!
//! Money is held as integer hundredths of ISK ("cents"), rates as basis
//! points (1/10000), item volumes in litres (1/1000 m3), dates as day numbers.
pub mod capacity;
pub mod economics;
pub mod history;
pub mod market;
pub mod matching;
pub mod ranking;
pub mod sell_buy;
pub mod sell_sell;
pub mod station;
