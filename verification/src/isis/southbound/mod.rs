//! The interface with the system.

pub mod rx;
