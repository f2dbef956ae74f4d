//! IS-IS.

pub mod instance;
pub mod interface;
pub mod messages;
pub mod packet;
pub mod southbound;
