//! An order-book imbalance trading engine whose decision logic is verified.
//!
//! Prices are integer ticks, mid and fill prices integer half ticks,
//! volumes integer lots and cash amounts integer notional units (one lot
//! times one half tick); see [`common`] for the scales.

pub mod common;
pub mod fraction;
pub mod orderbook;
pub mod features;
pub mod signals;
pub mod risk;
pub mod execution;
pub mod ingestion;
pub mod engine;
pub mod backtest;
pub mod research;
pub mod decimal;
