//! Market making on a Gate perpetual, priced from Binance.

pub mod config;
pub mod decimal;
pub mod engine;
pub mod exchange;
pub mod market;
pub mod metrics;
pub mod order;
pub mod strategy;
pub mod text;
pub mod time;
pub mod types;
pub mod util;
