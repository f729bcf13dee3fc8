//! The error taxonomy of the sandbox.

use vstd::prelude::*;

verus! {

/// Everything that can go wrong between preparing a VM and tearing it
/// down.  Paths, tags and messages are carried as UTF-8 bytes.
pub enum VmError {
    /// Hardware virtualization is unavailable on this machine.
    UnsupportedPlatform,
    /// The composed configuration is invalid (a required path is missing,
    /// a size does not fit).
    ConfigInvalid(Vec<u8>),
    /// A file could not be read or written.
    Io(Vec<u8>),
    /// The VM failed to start.
    VmStart(Vec<u8>),
    /// The VM failed to stop.
    VmStop(Vec<u8>),
    /// The VM reported an error state while it was expected to boot.
    VmErrored,
    /// The guest agent could not be reached over the guest socket.
    GuestUnreachable,
    /// The guest does not understand the mount handshake.
    MountUnsupported,
    /// The guest refused a mount.
    MountFailed { tag: Vec<u8>, path: Vec<u8>, msg: Vec<u8> },
    /// A frame on the wire could not be parsed.
    ProtocolParse,
    /// An exec request without a command was rejected.
    ProtocolEmptyArgv,
    /// The guest could not spawn the requested command.
    GuestExecFailed(Vec<u8>),
    /// A host-side forward listener could not bind its port.
    PortBindFailed { port: u16 },
    /// The guest refused a forward request.
    ForwardRefused { port: u16, msg: Vec<u8> },
    /// A named checkpoint does not exist.
    CheckpointMissing(Vec<u8>),
    /// A per-instance directory could not be removed.
    InstanceCleanup,
}

/// An error reported by the platform virtualization library, carried as
/// its localized description.
#[derive(Clone, Debug)]
pub struct VzError {
    pub message: Vec<u8>,
}

impl VzError {
    /// Wrap a platform error message.
    pub fn new(message: Vec<u8>) -> (r: VzError)
        ensures
            r.message@ == message@,
    {
        VzError { message }
    }

    /// The platform's description of the failure.
    pub fn message(&self) -> (r: &Vec<u8>)
        ensures
            r@ == self.message@,
    {
        &self.message
    }
}

} // verus!
