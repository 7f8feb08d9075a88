//! The entry point of the Windows NT compatibility module: calls from a thread that holds
//! no entropy id are refused, and no call is served yet.
use vstd::prelude::*;

verus! {

pub const ENOSYS: i64 = -38;
pub const EPERM: i64 = -1;

pub const NT_ALLOCATE_VIRTUAL_MEMORY: u64 = 0x18;
pub const NT_CREATE_THREAD: u64 = 0x4E;

/// The value handed back to the trapping thread; a negative value is an error code.
#[derive(Copy, Clone, Debug, PartialEq, Eq, Structural)]
pub struct SyscallOutcome {
    pub value: i64,
}

impl SyscallOutcome {
    /// An outcome carrying `code` as it is (the codes are already negative).
    pub fn errno(code: i64) -> (r: Self)
        ensures
            r.value == code,
    {
        SyscallOutcome { value: code }
    }
}

fn topkapi_allocate_virtual_memory(_args: [u64; 6], _entropy_id: u64) -> (r: SyscallOutcome)
    ensures
        r.value == ENOSYS,
{
    SyscallOutcome::errno(ENOSYS)
}

fn topkapi_create_thread(_args: [u64; 6], _entropy_id: u64) -> (r: SyscallOutcome)
    ensures
        r.value == ENOSYS,
{
    SyscallOutcome::errno(ENOSYS)
}

/// A call without an entropy id is `EPERM`; memory allocation, thread creation and
/// everything else are not served yet (`ENOSYS`).
pub fn hxnu_module_dispatch_topkapi(number: u64, args: [u64; 6], entropy_id: u64) -> (r: SyscallOutcome)
    ensures
        r.value == (if entropy_id == 0 { EPERM } else { ENOSYS }),
{
    if entropy_id == 0 {
        return SyscallOutcome::errno(EPERM);
    }
    match number {
        NT_ALLOCATE_VIRTUAL_MEMORY => topkapi_allocate_virtual_memory(args, entropy_id),
        NT_CREATE_THREAD => topkapi_create_thread(args, entropy_id),
        _ => SyscallOutcome::errno(ENOSYS),
    }
}

} // verus!
