//! Access to the exchanges: what is asked of them and what their answers say.

pub mod binance;
pub mod gate_private;
pub mod gate_public;
pub mod gate_rest;
pub mod gate_trade;
pub mod gate_types;
pub mod json;
pub mod stream_laws;
pub mod trade_laws;
pub mod trade_session;
