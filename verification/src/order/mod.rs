//! Our orders: their records, their state machine, and how they follow the
//! wanted quotes.

pub mod answer_laws;
pub mod decision_laws;
pub mod history;
pub mod laws;
pub mod lifecycle;
pub mod manager;
pub mod model;
pub mod reconcile;
pub mod reconcile_laws;
pub mod request_laws;
pub mod second_pass;
