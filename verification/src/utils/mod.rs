//! Helpers shared by all protocols.

pub mod addr_set;
pub mod be;
pub mod buf;
pub mod clock;
pub mod handle;
pub mod ibus;
pub mod net;
