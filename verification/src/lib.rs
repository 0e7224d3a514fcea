//! A small terminal-charting core: a deterministic fixed-point signal
//! generator, a price-series parser and normalizer, a capacity-one event
//! channel model with lossless keys and lossy ticks, and the rolling-window
//! application state those events drive.
//!
//! All quantities are fixed-point integers scaled by 1000 (milli-units), so
//! a chart value of 1.5 is stored as 1500.

pub mod driver;
pub mod events;
pub mod series;
pub mod signal;
pub mod state;
