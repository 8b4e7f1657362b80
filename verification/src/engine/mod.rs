//! The strategy engine: its events, its state, its cycle, and a simulated
//! exchange to run it against.

pub mod cycle;
pub mod cycle_laws;
pub mod desk;
pub mod event_laws;
pub mod events;
pub mod laws;
pub mod paper;
pub mod paper_laws;
