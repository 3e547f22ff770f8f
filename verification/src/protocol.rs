//! Wire protocol for the IPC/API subsystem. Only the top-level message
//! envelope exists so far.

use vstd::prelude::*;

verus! {

/// Top-level message envelope.
#[derive(Debug, Clone, Copy, PartialEq, Eq, Structural)]
pub enum Message {
    Ping,
    Pong,
}

} // verus!
