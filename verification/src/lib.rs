pub mod codec;
pub mod config;
pub mod errors;
pub mod guest;
pub mod lines;
pub mod proto;
pub mod sandbox;
pub mod vmstate;

use vstd::prelude::*;

verus! {

/// Guest-socket port for exec/mount sessions.
pub const VSOCK_PORT: u32 = 1024;

/// Guest-socket port for port-forward sessions.
pub const VSOCK_PORT_FORWARD: u32 = 1025;

} // verus!
