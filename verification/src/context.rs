//! The saved register state of a task, and where a new thread's stack frame goes.
use vstd::prelude::*;

verus! {

pub const STACK_ALIGNMENT: u64 = 16;
pub const CONTEXT_KIND_KERNEL: u64 = 0;
pub const CONTEXT_KIND_USER: u64 = 1;

#[derive(Copy, Clone, Debug, PartialEq, Eq, Structural)]
pub struct TaskContext {
    pub rsp: u64,
    pub rbx: u64,
    pub rbp: u64,
    pub r12: u64,
    pub r13: u64,
    pub r14: u64,
    pub r15: u64,
    pub cr3: u64,
    pub kind: u64,
    pub kernel_rsp0: u64,
}

impl TaskContext {
    /// All registers zero, a kernel context.
    pub fn empty() -> (c: Self)
        ensures
            c == (TaskContext {
                rsp: 0,
                rbx: 0,
                rbp: 0,
                r12: 0,
                r13: 0,
                r14: 0,
                r15: 0,
                cr3: 0,
                kind: CONTEXT_KIND_KERNEL,
                kernel_rsp0: 0,
            }),
    {
        TaskContext { rsp: 0, rbx: 0, rbp: 0, r12: 0, r13: 0, r14: 0, r15: 0, cr3: 0, kind: CONTEXT_KIND_KERNEL, kernel_rsp0: 0 }
    }
}

/// The end of a stack rounded down to 16 bytes, where a new thread's frame is built.
pub fn aligned_stack_end(stack_base: u64, stack_len: u64) -> (r: u64)
    requires
        stack_base + stack_len <= u64::MAX,
    ensures
        r == ((stack_base + stack_len) as u64) & !15u64,
{
    (stack_base + stack_len) & !(STACK_ALIGNMENT - 1)
}

/// A new kernel thread's context: it starts on its stack, two words below the aligned end
/// (the return into the exit trap, then the entry), in the kernel's address space.
pub fn initialize_kernel_thread(kernel_cr3: u64, stack_base: u64, stack_len: u64) -> (c: TaskContext)
    requires
        stack_base + stack_len <= u64::MAX,
        ((stack_base + stack_len) as u64) & !15u64 >= 16,
    ensures
        c == (TaskContext {
            rsp: ((((stack_base + stack_len) as u64) & !15u64) - 16) as u64,
            cr3: kernel_cr3,
            kind: CONTEXT_KIND_KERNEL,
            ..TaskContext::empty_spec()
        }),
{
    let end = aligned_stack_end(stack_base, stack_len);
    let mut c = TaskContext::empty();
    c.rsp = end - 16;
    c.cr3 = kernel_cr3;
    c.kind = CONTEXT_KIND_KERNEL;
    c
}

impl TaskContext {
    pub open spec fn empty_spec() -> TaskContext {
        TaskContext { rsp: 0, rbx: 0, rbp: 0, r12: 0, r13: 0, r14: 0, r15: 0, cr3: 0, kind: CONTEXT_KIND_KERNEL, kernel_rsp0: 0 }
    }
}

/// The frame a new user thread returns to user mode through: fifteen zeroed registers,
/// then the entry point, user code selector at ring 3, flags with interrupts on, the user
/// stack, and the user data selector at ring 3.
pub open spec fn user_resume_frame(entry_point: u64, user_stack: u64) -> Seq<u64> {
    Seq::new(15, |i: int| 0u64) + seq![entry_point, 0x3bu64, 0x202u64, user_stack, 0x43u64]
}

/// A new user thread: its context starts on the resume frame twenty words below the
/// aligned end of its kernel stack, in `page_table`, and returns to that end on entry to
/// the kernel. Returns the context and the frame to write at its `rsp`.
pub fn initialize_user_thread(stack_base: u64, stack_len: u64, entry_point: u64, user_stack: u64, page_table: u64) -> (r: (TaskContext, Vec<u64>))
    requires
        stack_base + stack_len <= u64::MAX,
        ((stack_base + stack_len) as u64) & !15u64 >= 160,
    ensures
        r.0 == (TaskContext {
            rsp: ((((stack_base + stack_len) as u64) & !15u64) - 160) as u64,
            cr3: page_table,
            kind: CONTEXT_KIND_USER,
            kernel_rsp0: ((stack_base + stack_len) as u64) & !15u64,
            ..TaskContext::empty_spec()
        }),
        r.1@ == user_resume_frame(entry_point, user_stack),
{
    let end = aligned_stack_end(stack_base, stack_len);
    let mut frame: Vec<u64> = Vec::new();
    let mut i: usize = 0;
    while i < 15
        invariant
            i <= 15,
            frame@ == Seq::new(i as nat, |k: int| 0u64),
        decreases 15 - i,
    {
        frame.push(0);
        i = i + 1;
        assert(frame@ =~= Seq::new(i as nat, |k: int| 0u64));
    }
    frame.push(entry_point);
    frame.push(0x3b);
    frame.push(0x202);
    frame.push(user_stack);
    frame.push(0x43);
    assert(frame@ =~= user_resume_frame(entry_point, user_stack));
    let mut c = TaskContext::empty();
    c.rsp = end - 160;
    c.cr3 = page_table;
    c.kind = CONTEXT_KIND_USER;
    c.kernel_rsp0 = end;
    (c, frame)
}

} // verus!
