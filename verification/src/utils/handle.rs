//! Handles on what the runtime holds: sockets and tasks.

use vstd::prelude::*;

verus! {

/// A socket, by its number.
#[derive(Clone, Copy, Debug, PartialEq, Eq, Structural)]
pub struct SocketHandle {
    pub id: u64,
}

/// A running task, by its number.
#[derive(Clone, Copy, Debug, PartialEq, Eq, Structural)]
pub struct TaskHandle {
    pub id: u64,
}

} // verus!
