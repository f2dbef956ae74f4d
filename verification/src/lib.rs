//! The packets and the state of routing protocols.

pub mod igmp;
pub mod isis;
pub mod ldp;
pub mod rip;
pub mod utils;
