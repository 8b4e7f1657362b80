//! Market data: the local Gate book, sessions.

pub mod basis;
pub mod book;
pub mod impact;
pub mod laws;
pub mod reference;
pub mod session;
