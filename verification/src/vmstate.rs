//! VM lifecycle states as the platform adapter reports them.

use vstd::prelude::*;

verus! {

/// The lifecycle state of a virtual machine.  Delivered over a
/// single-slot channel: a newer state replaces an undelivered older one,
/// so a consumer sees the latest state, never a stale one after a fresh
/// one.
#[derive(Clone, Copy, PartialEq, Eq, Structural, Debug)]
pub enum VmState {
    Stopped,
    Running,
    Paused,
    Error,
    Starting,
    Pausing,
    Resuming,
    Stopping,
    Unknown,
}

/// The same states under the name the lower-level runtime uses.
#[derive(Clone, Copy, PartialEq, Eq, Structural, Debug)]
pub enum VirtualMachineState {
    Stopped,
    Running,
    Paused,
    Error,
    Starting,
    Pausing,
    Resuming,
    Stopping,
    Unknown,
}

/// Decode the platform's raw state code: 0 through 7 name the defined
/// states in order; anything else is unknown.
pub fn vm_state_from_raw(code: i64) -> (r: VmState)
    ensures
        code == 0 ==> r == VmState::Stopped,
        code == 1 ==> r == VmState::Running,
        code == 2 ==> r == VmState::Paused,
        code == 3 ==> r == VmState::Error,
        code == 4 ==> r == VmState::Starting,
        code == 5 ==> r == VmState::Pausing,
        code == 6 ==> r == VmState::Resuming,
        code == 7 ==> r == VmState::Stopping,
        (code < 0 || code > 7) ==> r == VmState::Unknown,
{
    if code == 0 {
        VmState::Stopped
    } else if code == 1 {
        VmState::Running
    } else if code == 2 {
        VmState::Paused
    } else if code == 3 {
        VmState::Error
    } else if code == 4 {
        VmState::Starting
    } else if code == 5 {
        VmState::Pausing
    } else if code == 6 {
        VmState::Resuming
    } else if code == 7 {
        VmState::Stopping
    } else {
        VmState::Unknown
    }
}

/// A boot-wait loop leaves its wait exactly when the VM has reached a
/// settled state: stopped, running, or failed.
pub fn state_is_settled(s: VmState) -> (r: bool)
    ensures
        r == (s == VmState::Stopped || s == VmState::Running || s == VmState::Error),
{
    match s {
        VmState::Stopped => true,
        VmState::Running => true,
        VmState::Error => true,
        _ => false,
    }
}

/// How the root disk image is cached by the platform.
#[derive(Clone, Copy, PartialEq, Eq, Structural, Debug)]
pub enum DiskImageCachingMode {
    Automatic,
    Cached,
    Uncached,
}

/// How writes to the root disk image are synchronized.
#[derive(Clone, Copy, PartialEq, Eq, Structural, Debug)]
pub enum DiskImageSynchronizationMode {
    Full,
    Fsync,
    Unsynchronized,
}

} // verus!
