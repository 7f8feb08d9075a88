//! The entry point of the Linux compatibility module: calls from a thread that holds no
//! entropy id are refused, and no call is served yet.
use vstd::prelude::*;

verus! {

pub const ENOSYS: i64 = -38;
pub const EPERM: i64 = -1;

pub const LCL_SYS_MMAP: u64 = 9;
pub const LCL_SYS_FORK: u64 = 57;
pub const LCL_SYS_EXECVE: u64 = 59;

/// The value handed back to the trapping thread; a negative value is an error code.
#[derive(Copy, Clone, Debug, PartialEq, Eq, Structural)]
pub struct SyscallOutcome {
    pub value: i64,
}

impl SyscallOutcome {
    /// An outcome carrying `code` as it is (the codes are already negative).
    pub fn errno(code: i64) -> (r: Self)
        ensures
            r.value == code,
    {
        SyscallOutcome { value: code }
    }
}

fn lcl_mmap(_args: [u64; 6], _entropy_id: u64) -> (r: SyscallOutcome)
    ensures
        r.value == ENOSYS,
{
    SyscallOutcome::errno(ENOSYS)
}

fn lcl_fork(_args: [u64; 6], _entropy_id: u64) -> (r: SyscallOutcome)
    ensures
        r.value == ENOSYS,
{
    SyscallOutcome::errno(ENOSYS)
}

fn lcl_execve(_args: [u64; 6], _entropy_id: u64) -> (r: SyscallOutcome)
    ensures
        r.value == ENOSYS,
{
    SyscallOutcome::errno(ENOSYS)
}

/// A call without an entropy id is `EPERM`; `mmap`, `fork`, `execve` and everything else
/// are not served yet (`ENOSYS`).
pub fn hxnu_module_dispatch_lcl(number: u64, args: [u64; 6], entropy_id: u64) -> (r: SyscallOutcome)
    ensures
        r.value == (if entropy_id == 0 { EPERM } else { ENOSYS }),
{
    if entropy_id == 0 {
        return SyscallOutcome::errno(EPERM);
    }
    match number {
        LCL_SYS_MMAP => lcl_mmap(args, entropy_id),
        LCL_SYS_FORK => lcl_fork(args, entropy_id),
        LCL_SYS_EXECVE => lcl_execve(args, entropy_id),
        _ => SyscallOutcome::errno(ENOSYS),
    }
}

} // verus!
