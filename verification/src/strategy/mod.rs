//! Inventory, quoting, protection, active reduction and risk.

pub mod inventory;
pub mod protection;
pub mod quote;
pub mod quote_laws;
pub mod reduce;
pub mod reduce_laws;
pub mod risk;
