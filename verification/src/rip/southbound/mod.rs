//! The interface with the system.

pub mod tx;
