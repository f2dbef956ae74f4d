//! IGMP.

pub mod instance;
