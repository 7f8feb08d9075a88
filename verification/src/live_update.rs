//! Live update: the header a running kernel hands its successor.
use vstd::prelude::*;

verus! {

/// "HXNUCLON" as a little-endian word.
pub const CLONE_STATE_MAGIC: u64 = 0x48584E55434C4F4E;
pub const CLONE_STATE_VERSION: u32 = 1;
/// The header's size: a word and two half-words.
pub const CLONE_STATE_BYTES: usize = 16;

#[derive(Copy, Clone, Debug, PartialEq, Eq, Structural)]
pub struct KernelCloneState {
    pub magic: u64,
    pub version: u32,
    pub active_syscalls: u32,
}

/// The header written for the successor, and its size.
pub fn clone_kernel_state() -> (r: (KernelCloneState, usize))
    ensures
        r.0 == (KernelCloneState { magic: CLONE_STATE_MAGIC, version: CLONE_STATE_VERSION, active_syscalls: 0 }),
        r.1 == CLONE_STATE_BYTES,
{
    (KernelCloneState { magic: CLONE_STATE_MAGIC, version: CLONE_STATE_VERSION, active_syscalls: 0 }, CLONE_STATE_BYTES)
}

} // verus!
