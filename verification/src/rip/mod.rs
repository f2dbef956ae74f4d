//! RIP.

pub mod route;
pub mod southbound;
pub mod version;
