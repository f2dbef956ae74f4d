//! LDP.

pub mod instance;
pub mod interface;
pub mod packet;
