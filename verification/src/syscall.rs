//! The system-call layer: the three bootstrap ABIs, their routing tables, the open-file
//! tables, the hand-off queue to the Linux compatibility daemon, and the argument checks
//! and record layouts of each call. Touching user memory, the scheduler and the file
//! system is left to the caller, which hands the results back to the functions here.
use vstd::prelude::*;
use crate::acpi::{decode_utf8, utf8_decode};
use vstd::string::StringSliceAdditionalSpecFns;

verus! {

pub const LINUX_SYS_READ: u64 = 0;
pub const LINUX_SYS_WRITE: u64 = 1;
pub const LINUX_SYS_OPEN: u64 = 2;
pub const LINUX_SYS_CLOSE: u64 = 3;
pub const LINUX_SYS_STAT: u64 = 4;
pub const LINUX_SYS_FSTAT: u64 = 5;
pub const LINUX_SYS_POLL: u64 = 7;
pub const LINUX_SYS_LSEEK: u64 = 8;
pub const LINUX_SYS_MMAP: u64 = 9;
pub const LINUX_SYS_MPROTECT: u64 = 10;
pub const LINUX_SYS_MUNMAP: u64 = 11;
pub const LINUX_SYS_BRK: u64 = 12;
pub const LINUX_SYS_RT_SIGACTION: u64 = 13;
pub const LINUX_SYS_RT_SIGPROCMASK: u64 = 14;
pub const LINUX_SYS_IOCTL: u64 = 16;
pub const LINUX_SYS_SCHED_YIELD: u64 = 24;
pub const LINUX_SYS_MADVISE: u64 = 28;
pub const LINUX_SYS_GETPID: u64 = 39;
pub const LINUX_SYS_EXIT: u64 = 60;
pub const LINUX_SYS_UNAME: u64 = 63;
pub const LINUX_SYS_GETPPID: u64 = 110;
pub const LINUX_SYS_SIGALTSTACK: u64 = 131;
pub const LINUX_SYS_ARCH_PRCTL: u64 = 158;
pub const LINUX_SYS_GETTID: u64 = 186;
pub const LINUX_SYS_TKILL: u64 = 200;
pub const LINUX_SYS_GETDENTS64: u64 = 217;
pub const LINUX_SYS_SET_TID_ADDRESS: u64 = 218;
pub const LINUX_SYS_CLOCK_GETTIME: u64 = 228;
pub const LINUX_SYS_EXIT_GROUP: u64 = 231;
pub const LINUX_SYS_TGKILL: u64 = 234;
pub const LINUX_SYS_OPENAT: u64 = 257;
pub const LINUX_SYS_NEWFSTATAT: u64 = 262;
pub const LINUX_SYS_PRLIMIT64: u64 = 302;
pub const LINUX_SYS_GETRANDOM: u64 = 318;
pub const LINUX_SYS_RSEQ: u64 = 334;

pub const ARCH_SET_FS: u64 = 0x1002;
pub const ARCH_GET_FS: u64 = 0x1003;
/// The model-specific register that holds the FS base.
pub const FS_BASE_MSR: u32 = 0xC000_0100;

pub const GHOST_SYS_WRITE: u64 = 1;
pub const GHOST_SYS_YIELD: u64 = 2;
pub const GHOST_SYS_GETPID: u64 = 3;
pub const GHOST_SYS_GETTID: u64 = 4;
pub const GHOST_SYS_UPTIME_NSEC: u64 = 5;
pub const GHOST_SYS_UNAME: u64 = 6;
pub const GHOST_SYS_EXIT_GROUP: u64 = 7;
pub const GHOST_SYS_OPEN: u64 = 8;
pub const GHOST_SYS_READ: u64 = 9;
pub const GHOST_SYS_CLOSE: u64 = 10;

pub const HXNU_SYS_LOG_WRITE: u64 = 0x484e_0001;
pub const HXNU_SYS_THREAD_SELF: u64 = 0x484e_0002;
pub const HXNU_SYS_PROCESS_SELF: u64 = 0x484e_0003;
pub const HXNU_SYS_UPTIME_NSEC: u64 = 0x484e_0004;
pub const HXNU_SYS_SCHED_YIELD: u64 = 0x484e_0005;
pub const HXNU_SYS_ABI_VERSION: u64 = 0x484e_0006;
pub const HXNU_SYS_OPEN: u64 = 0x484e_0007;
pub const HXNU_SYS_READ: u64 = 0x484e_0008;
pub const HXNU_SYS_CLOSE: u64 = 0x484e_0009;
pub const HXNU_SYS_LCL_RECEIVE: u64 = 0x484e_000a;
pub const HXNU_SYS_LCL_RETURN: u64 = 0x484e_000b;
pub const HXNU_SYS_SPAWN: u64 = 0x484e_000c;
pub const HXNU_SYS_HETEREXEC_SUBMIT: u64 = 0x484e_0010;
pub const HXNU_SYS_HETEREXEC_POLL: u64 = 0x484e_0011;
pub const HXNU_SYS_EXIT_GROUP: u64 = 0x484e_00ff;

pub const HXNU_NATIVE_ABI_VERSION: i64 = 0x0001_0000;
pub const LINUX_CLOCK_REALTIME: i32 = 0;
pub const LINUX_CLOCK_MONOTONIC: i32 = 1;
pub const AT_FDCWD: i64 = -100;

pub const O_ACCMODE: u64 = 0x3;
pub const O_RDONLY: u64 = 0;
pub const O_CREAT: u64 = 0x40;
pub const O_TRUNC: u64 = 0x200;
pub const O_APPEND: u64 = 0x400;

pub const MAX_WRITE_BYTES: usize = 16384;
pub const MAX_READ_BYTES: usize = 65536;
pub const MAX_PATH_BYTES: usize = 1024;
pub const MAX_OPEN_FILES: usize = 64;
pub const MAX_SYSTEM_FILES: usize = 128;
/// How much of one write reaches the console.
pub const WRITE_CHUNK_BYTES: usize = 1024;
pub const OPEN_FILE_PATH_BYTES: usize = 128;
pub const OPEN_FILE_CONTENT_BYTES: usize = 4096;
/// Bytes of a `linux_dirent64` header: inode, next offset, record length and type.
pub const DIRENT_HEADER_BYTES: usize = 19;
/// The first descriptor handed out; 0, 1 and 2 are the standard streams.
pub const FIRST_FREE_FD: usize = 3;

pub const ENOENT: i64 = 2;
pub const EIO: i64 = 5;
pub const EBADF: i64 = 9;
pub const EFAULT: i64 = 14;
pub const EISDIR: i64 = 21;
pub const EINVAL: i64 = 22;
pub const EMFILE: i64 = 24;
pub const ERANGE: i64 = 34;
pub const ENOSYS: i64 = 38;

pub const STDOUT_FD: u64 = 1;
pub const STDERR_FD: u64 = 2;

/// The calling conventions a thread can trap in with.
#[derive(Copy, Clone, Debug, PartialEq, Eq, Structural)]
pub enum SyscallAbi {
    LinuxBootstrap,
    GhostBootstrap,
    HxnuNativeBootstrap,
    /// Routes the call to the Linux compatibility daemon.
    PosixLcl,
}

impl SyscallAbi {
    pub fn as_str(self) -> (s: &'static str)
        ensures
            self == SyscallAbi::LinuxBootstrap ==> s@ == "linux-x86_64-bootstrap"@,
            self == SyscallAbi::GhostBootstrap ==> s@ == "ghost-bootstrap"@,
            self == SyscallAbi::HxnuNativeBootstrap ==> s@ == "hxnu-native-bootstrap"@,
            self == SyscallAbi::PosixLcl ==> s@ == "posix-lcl"@,
    {
        match self {
            SyscallAbi::LinuxBootstrap => "linux-x86_64-bootstrap",
            SyscallAbi::GhostBootstrap => "ghost-bootstrap",
            SyscallAbi::HxnuNativeBootstrap => "hxnu-native-bootstrap",
            SyscallAbi::PosixLcl => "posix-lcl",
        }
    }
}

/// What the trap path does with the calling thread once the call returns.
#[derive(Copy, Clone, Debug, PartialEq, Eq, Structural)]
pub enum SyscallAction {
    Continue,
    YieldThread,
    ExitGroup { status: i32 },
}

/// The value a call returns to the thread, and what happens to the thread.
#[derive(Copy, Clone, Debug, PartialEq, Eq, Structural)]
pub struct SyscallOutcome {
    pub value: i64,
    pub action: SyscallAction,
}

pub open spec fn ok_outcome(value: i64) -> SyscallOutcome {
    SyscallOutcome { value, action: SyscallAction::Continue }
}

pub open spec fn err_outcome(errno: i64) -> SyscallOutcome {
    SyscallOutcome { value: (-errno) as i64, action: SyscallAction::Continue }
}

impl SyscallOutcome {
    pub fn success(value: i64) -> (r: Self)
        ensures
            r == ok_outcome(value),
    {
        SyscallOutcome { value, action: SyscallAction::Continue }
    }

    pub fn errno(errno: i64) -> (r: Self)
        requires
            errno > i64::MIN,
        ensures
            r == err_outcome(errno),
    {
        SyscallOutcome { value: -errno, action: SyscallAction::Continue }
    }

    /// The thread gives up the processor; the call returns 0.
    pub fn yield_thread() -> (r: Self)
        ensures
            r == (SyscallOutcome { value: 0, action: SyscallAction::YieldThread }),
    {
        SyscallOutcome { value: 0, action: SyscallAction::YieldThread }
    }
}

/// Whether the outcome ends the process group, and with which status (0 when it does not).
pub fn exit_status(outcome: SyscallOutcome) -> (r: (bool, i32))
    ensures
        r == (match outcome.action {
            SyscallAction::ExitGroup { status } => (true, status),
            _ => (false, 0i32),
        }),
{
    match outcome.action {
        SyscallAction::ExitGroup { status } => (true, status),
        SyscallAction::YieldThread => (false, 0),
        SyscallAction::Continue => (false, 0),
    }
}

/// An open only for reading: access mode read-only, and none of create, truncate, append.
pub fn is_read_only_open(flags: u64) -> (r: bool)
    ensures
        r == ((flags & O_ACCMODE) == O_RDONLY && (flags & (O_CREAT | O_TRUNC | O_APPEND)) == 0),
{
    (flags & O_ACCMODE) == O_RDONLY && (flags & (O_CREAT | O_TRUNC | O_APPEND)) == 0
}

/// A descriptor argument as an `i32`; one that does not fit is a bad descriptor.
pub fn parse_fd(value: u64) -> (r: Result<i32, i64>)
    ensures
        value <= i32::MAX ==> r == Ok::<i32, i64>(value as i32),
        value > i32::MAX ==> r == Err::<i32, i64>(EBADF),
{
    if value <= 0x7fff_ffff {
        Ok(value as i32)
    } else {
        Err(EBADF)
    }
}

pub const LCL_QUEUE_SLOTS: usize = 64;

/// A trapped call waiting for the Linux compatibility daemon.
#[derive(Copy, Clone, Debug)]
pub struct LclMessage {
    pub pid: u64,
    pub tid: u64,
    pub number: u64,
    pub args: [u64; 6],
    pub abi: u64,
}

/// A ring of slots: `head` is where the next message goes, `tail` where the oldest is
/// taken from. The ring is empty when `head == tail` and the slot at `tail` is free, full
/// when `head == tail` and that slot is taken.
pub struct LclQueue {
    pub messages: Vec<Option<LclMessage>>,
    pub head: usize,
    pub tail: usize,
}

impl LclQueue {
    pub open spec fn shape_ok(&self) -> bool {
        &&& self.messages@.len() == LCL_QUEUE_SLOTS
        &&& self.head < LCL_QUEUE_SLOTS
        &&& self.tail < LCL_QUEUE_SLOTS
    }

    /// How many messages wait.
    pub open spec fn count(&self) -> nat {
        if self.head == self.tail {
            if self.messages@[self.tail as int] is Some { LCL_QUEUE_SLOTS as nat } else { 0 }
        } else {
            ((self.head - self.tail + LCL_QUEUE_SLOTS) % (LCL_QUEUE_SLOTS as int)) as nat
        }
    }

    /// The slot `i` places after the oldest.
    pub open spec fn slot(&self, i: int) -> int {
        (self.tail + i) % (LCL_QUEUE_SLOTS as int)
    }

    /// The waiting messages, oldest first.
    pub open spec fn pending(&self) -> Seq<LclMessage> {
        Seq::new(self.count(), |i: int| self.messages@[self.slot(i)]->0)
    }

    /// Exactly the slots that hold a waiting message are taken.
    pub open spec fn wf(&self) -> bool {
        &&& self.shape_ok()
        &&& forall|j: int|
            0 <= j < LCL_QUEUE_SLOTS ==> (#[trigger] self.messages@[j] is Some <==> (j - self.tail
                + LCL_QUEUE_SLOTS) % (LCL_QUEUE_SLOTS as int) < self.count())
    }

    pub fn new() -> (q: Self)
        ensures
            q.wf(),
            q.head == 0 && q.tail == 0,
            q.pending() == Seq::<LclMessage>::empty(),
            forall|j: int| 0 <= j < LCL_QUEUE_SLOTS ==> #[trigger] q.messages@[j] is None,
    {
        let mut messages: Vec<Option<LclMessage>> = Vec::new();
        let mut i: usize = 0;
        while i < LCL_QUEUE_SLOTS
            invariant
                i <= LCL_QUEUE_SLOTS,
                messages@.len() == i,
                forall|j: int| 0 <= j < i ==> #[trigger] messages@[j] is None,
            decreases LCL_QUEUE_SLOTS - i,
        {
            messages.push(None);
            i = i + 1;
        }
        let q = LclQueue { messages, head: 0, tail: 0 };
        assert(q.pending() =~= Seq::<LclMessage>::empty());
        q
    }

    /// Puts the message in the slot at `head` and moves `head` on. On a full ring this
    /// overwrites the oldest message.
    pub fn enqueue_lcl_message(&mut self, msg: LclMessage)
        requires
            old(self).shape_ok(),
        ensures
            final(self).shape_ok(),
            final(self).messages@ == old(self).messages@.update(old(self).head as int, Some(msg)),
            final(self).head == (old(self).head + 1) % (LCL_QUEUE_SLOTS as int),
            final(self).tail == old(self).tail,
            old(self).wf() && old(self).count() < LCL_QUEUE_SLOTS ==> final(self).wf()
                && final(self).pending() == old(self).pending().push(msg),
    {
        let h = self.head;
        self.messages.set(h, Some(msg));
        self.head = (h + 1) % LCL_QUEUE_SLOTS;
        proof {
            if old(self).wf() && old(self).count() < LCL_QUEUE_SLOTS {
                lemma_enqueue_keeps_order(*old(self), *self, msg);
            }
        }
    }

    /// Takes the message in the slot at `tail`, if there is one, and moves `tail` on.
    pub fn dequeue_lcl_message(&mut self) -> (r: Option<LclMessage>)
        requires
            old(self).shape_ok(),
        ensures
            final(self).shape_ok(),
            r == old(self).messages@[old(self).tail as int],
            final(self).messages@ == old(self).messages@.update(old(self).tail as int, None),
            final(self).head == old(self).head,
            final(self).tail == (if r is Some {
                (old(self).tail + 1) % (LCL_QUEUE_SLOTS as int)
            } else {
                old(self).tail as int
            }),
            old(self).wf() ==> final(self).wf(),
            old(self).wf() ==> (r is None <==> old(self).count() == 0),
            old(self).wf() && old(self).count() > 0 ==> r == Some(old(self).pending()[0])
                && final(self).pending() == old(self).pending().drop_first(),
    {
        let t = self.tail;
        if self.head == t && self.messages[t].is_none() {
            proof {
                assert(self.messages@ =~= old(self).messages@.update(t as int, None));
            }
            return None;
        }
        let msg = self.messages[t];
        self.messages.set(t, None);
        if msg.is_some() {
            self.tail = (t + 1) % LCL_QUEUE_SLOTS;
        }
        proof {
            if old(self).wf() {
                lemma_dequeue_keeps_order(*old(self), *self, msg);
            }
        }
        msg
    }
}

#[verifier::rlimit(40)]
#[verifier::spinoff_prover]
proof fn lemma_enqueue_keeps_order(q: LclQueue, q2: LclQueue, msg: LclMessage)
    requires
        q.wf(),
        q.count() < LCL_QUEUE_SLOTS,
        q2.messages@ == q.messages@.update(q.head as int, Some(msg)),
        q2.head == (q.head + 1) % (LCL_QUEUE_SLOTS as int),
        q2.tail == q.tail,
    ensures
        q2.wf(),
        q2.pending() == q.pending().push(msg),
{
    let n = LCL_QUEUE_SLOTS as int;
    // the count before is the distance from tail to head
    assert(q.count() == (q.head - q.tail + n) % n);
    assert(q2.count() == q.count() + 1) by {
        if q2.head == q2.tail {
            assert(q2.messages@[q2.tail as int] is Some) by {
                assert(q.head as int == q.tail as int - 1 || (q.tail == 0 && q.head as int == n - 1));
            }
        }
    }
    assert forall|j: int| 0 <= j < n implies (#[trigger] q2.messages@[j] is Some <==> (j - q2.tail
        + n) % n < q2.count()) by {
        if j == q.head {
            assert((j - q.tail + n) % n == q.count());
        } else {
            assert(q2.messages@[j] == q.messages@[j]);
        }
    }
    assert forall|i: int| 0 <= i < q2.count() implies #[trigger] q2.pending()[i] == q.pending().push(
        msg,
    )[i] by {
        if i < q.count() {
            assert(q2.slot(i) != q.head as int);
        } else {
            assert(q2.slot(i) == q.head as int);
        }
    }
    assert(q2.pending() =~= q.pending().push(msg));
}

proof fn lemma_dequeue_keeps_order(q: LclQueue, q2: LclQueue, msg: Option<LclMessage>)
    requires
        q.wf(),
        !(q.head == q.tail && q.messages@[q.tail as int] is None),
        msg == q.messages@[q.tail as int],
        q2.messages@ == q.messages@.update(q.tail as int, None),
        q2.head == q.head,
        q2.tail == (if msg is Some { (q.tail + 1) % (LCL_QUEUE_SLOTS as int) } else { q.tail as int }),
    ensures
        q2.wf(),
        msg is Some,
        q.count() > 0,
        msg == Some(q.pending()[0]),
        q2.pending() == q.pending().drop_first(),
{
    let n = LCL_QUEUE_SLOTS as int;
    assert(q.count() > 0);
    assert((q.tail - q.tail + n) % n == 0);
    assert(msg is Some);
    assert(q.slot(0) == q.tail);
    assert(q2.count() == q.count() - 1) by {
        if q2.head == q2.tail {
            assert(q.count() == 1);
            assert(q2.messages@[q2.tail as int] is None) by {
                assert(q2.tail != q.tail);
                let j = q2.tail as int;
                assert((j - q.tail + n) % n == 1);
            }
        } else if q.head == q.tail {
            assert(q.count() == n);
        }
    }
    assert forall|j: int| 0 <= j < n implies (#[trigger] q2.messages@[j] is Some <==> (j - q2.tail
        + n) % n < q2.count()) by {
        if j == q.tail {
            assert((j - q2.tail + n) % n == n - 1);
        } else {
            assert(q2.messages@[j] == q.messages@[j]);
            assert((j - q.tail + n) % n == (j - q2.tail + n) % n + 1);
        }
    }
    assert forall|i: int| 0 <= i < q2.count() implies #[trigger] q2.pending()[i] == q.pending().drop_first()[i] by {
        assert(q2.slot(i) == q.slot(i + 1));
        assert(q2.slot(i) != q.tail as int);
    }
    assert(q2.pending() =~= q.pending().drop_first());
}

/// Which identity string set `uname` fills in.
#[derive(Copy, Clone, Debug, PartialEq, Eq, Structural)]
pub enum UnameFlavor {
    LinuxAbi,
    GhostAbi,
}

/// What a call asks of the kernel, with the arguments its handler reads. `Done` is answered
/// at once; the rest need user memory, the scheduler, the clock or the file system, and
/// are carried out by the trap path with the handlers of this module.
#[derive(Copy, Clone, Debug)]
pub enum SyscallRequest {
    Done(SyscallOutcome),
    Read { fd: u64, buffer: u64, count: u64 },
    Write { fd: u64, buffer: u64, count: u64 },
    LogWrite { buffer: u64, count: u64 },
    Open { dirfd: i64, path: u64, flags: u64 },
    Close { fd: u64 },
    Stat { path: u64, statbuf: u64 },
    Fstat { fd: u64, statbuf: u64 },
    Mmap { hint: u64, length: u64 },
    Brk { new_brk: u64 },
    Ioctl { fd: u64 },
    ArchPrctl { code: u64, addr: u64 },
    Getdents { fd: u64, dirp: u64, count: u64 },
    ClockGettime { clock: u64, timespec: u64 },
    Uname { buffer: u64, flavor: UnameFlavor },
    GetRandom { buffer: u64, count: u64 },
    ProcessId,
    ParentProcessId,
    ThreadId,
    /// `set_tid_address`: answered with the process id.
    SetTidAddress,
    Uptime,
    ExitGroup { status: i32 },
    LclReceive { buffer: u64 },
    LclReturn { result: u64, pid: u64, tid: u64 },
    Spawn { path: u64, argv: u64, argc: u64 },
    HeterexecSubmit { target: u8 },
    HeterexecPoll { task_id: u32 },
}

pub open spec fn done_ok(value: i64) -> SyscallRequest {
    SyscallRequest::Done(ok_outcome(value))
}

/// A `write`: only standard output and standard error take text; any other descriptor is
/// `EBADF` at once.
pub open spec fn write_route(fd: u64, buffer: u64, count: u64) -> SyscallRequest {
    if fd != STDOUT_FD && fd != STDERR_FD {
        SyscallRequest::Done(err_outcome(EBADF))
    } else {
        SyscallRequest::Write { fd, buffer, count }
    }
}

fn write_request(fd: u64, buffer: u64, count: u64) -> (r: SyscallRequest)
    ensures
        r == write_route(fd, buffer, count),
{
    if fd != STDOUT_FD && fd != STDERR_FD {
        SyscallRequest::Done(SyscallOutcome::errno(EBADF))
    } else {
        SyscallRequest::Write { fd, buffer, count }
    }
}

/// The Linux bootstrap table.
pub open spec fn linux_route(number: u64, args: [u64; 6]) -> SyscallRequest {
    let a = args@;
    if number == LINUX_SYS_READ {
        SyscallRequest::Read { fd: a[0], buffer: a[1], count: a[2] }
    } else if number == LINUX_SYS_WRITE {
        write_route(a[0], a[1], a[2])
    } else if number == LINUX_SYS_OPEN {
        SyscallRequest::Open { dirfd: AT_FDCWD, path: a[0], flags: a[1] }
    } else if number == LINUX_SYS_CLOSE {
        SyscallRequest::Close { fd: a[0] }
    } else if number == LINUX_SYS_STAT || number == LINUX_SYS_NEWFSTATAT {
        SyscallRequest::Stat { path: a[0], statbuf: a[1] }
    } else if number == LINUX_SYS_FSTAT {
        SyscallRequest::Fstat { fd: a[0], statbuf: a[1] }
    } else if number == LINUX_SYS_MMAP {
        SyscallRequest::Mmap { hint: a[0], length: a[1] }
    } else if number == LINUX_SYS_BRK {
        SyscallRequest::Brk { new_brk: a[0] }
    } else if number == LINUX_SYS_IOCTL {
        SyscallRequest::Ioctl { fd: a[0] }
    } else if number == LINUX_SYS_GETPID {
        SyscallRequest::ProcessId
    } else if number == LINUX_SYS_GETPPID {
        SyscallRequest::ParentProcessId
    } else if number == LINUX_SYS_ARCH_PRCTL {
        SyscallRequest::ArchPrctl { code: a[0], addr: a[1] }
    } else if number == LINUX_SYS_GETTID {
        SyscallRequest::ThreadId
    } else if number == LINUX_SYS_GETDENTS64 {
        SyscallRequest::Getdents { fd: a[0], dirp: a[1], count: a[2] }
    } else if number == LINUX_SYS_SET_TID_ADDRESS {
        SyscallRequest::SetTidAddress
    } else if number == LINUX_SYS_CLOCK_GETTIME {
        SyscallRequest::ClockGettime { clock: a[0], timespec: a[1] }
    } else if number == LINUX_SYS_UNAME {
        SyscallRequest::Uname { buffer: a[0], flavor: UnameFlavor::LinuxAbi }
    } else if number == LINUX_SYS_EXIT || number == LINUX_SYS_EXIT_GROUP {
        SyscallRequest::ExitGroup { status: a[0] as i32 }
    } else if number == LINUX_SYS_OPENAT {
        SyscallRequest::Open { dirfd: a[0] as i64, path: a[1], flags: a[2] }
    } else if number == LINUX_SYS_GETRANDOM {
        SyscallRequest::GetRandom { buffer: a[0], count: a[1] }
    } else if number == LINUX_SYS_POLL || number == LINUX_SYS_LSEEK || number == LINUX_SYS_MPROTECT
        || number == LINUX_SYS_MUNMAP || number == LINUX_SYS_RT_SIGACTION || number
        == LINUX_SYS_RT_SIGPROCMASK || number == LINUX_SYS_SCHED_YIELD || number
        == LINUX_SYS_MADVISE || number == LINUX_SYS_SIGALTSTACK || number == LINUX_SYS_TKILL
        || number == LINUX_SYS_TGKILL || number == LINUX_SYS_PRLIMIT64 {
        done_ok(0)
    } else {
        SyscallRequest::Done(err_outcome(ENOSYS))
    }
}

/// The ghost bootstrap table.
pub open spec fn ghost_route(number: u64, args: [u64; 6]) -> SyscallRequest {
    let a = args@;
    if number == GHOST_SYS_WRITE {
        write_route(a[0], a[1], a[2])
    } else if number == GHOST_SYS_OPEN {
        SyscallRequest::Open { dirfd: AT_FDCWD, path: a[0], flags: a[1] }
    } else if number == GHOST_SYS_READ {
        SyscallRequest::Read { fd: a[0], buffer: a[1], count: a[2] }
    } else if number == GHOST_SYS_CLOSE {
        SyscallRequest::Close { fd: a[0] }
    } else if number == GHOST_SYS_YIELD {
        done_ok(0)
    } else if number == GHOST_SYS_GETPID {
        SyscallRequest::ProcessId
    } else if number == GHOST_SYS_GETTID {
        SyscallRequest::ThreadId
    } else if number == GHOST_SYS_UPTIME_NSEC {
        SyscallRequest::Uptime
    } else if number == GHOST_SYS_UNAME {
        SyscallRequest::Uname { buffer: a[0], flavor: UnameFlavor::GhostAbi }
    } else if number == GHOST_SYS_EXIT_GROUP {
        SyscallRequest::ExitGroup { status: a[0] as i32 }
    } else {
        SyscallRequest::Done(err_outcome(ENOSYS))
    }
}

/// The native table.
pub open spec fn hxnu_route(number: u64, args: [u64; 6]) -> SyscallRequest {
    let a = args@;
    if number == HXNU_SYS_LOG_WRITE {
        SyscallRequest::LogWrite { buffer: a[0], count: a[1] }
    } else if number == HXNU_SYS_OPEN {
        SyscallRequest::Open { dirfd: AT_FDCWD, path: a[0], flags: a[1] }
    } else if number == HXNU_SYS_READ {
        SyscallRequest::Read { fd: a[0], buffer: a[1], count: a[2] }
    } else if number == HXNU_SYS_CLOSE {
        SyscallRequest::Close { fd: a[0] }
    } else if number == HXNU_SYS_THREAD_SELF {
        SyscallRequest::ThreadId
    } else if number == HXNU_SYS_PROCESS_SELF {
        SyscallRequest::ProcessId
    } else if number == HXNU_SYS_UPTIME_NSEC {
        SyscallRequest::Uptime
    } else if number == HXNU_SYS_SCHED_YIELD {
        SyscallRequest::Done(SyscallOutcome { value: 0, action: SyscallAction::YieldThread })
    } else if number == HXNU_SYS_ABI_VERSION {
        done_ok(HXNU_NATIVE_ABI_VERSION)
    } else if number == HXNU_SYS_LCL_RECEIVE {
        SyscallRequest::LclReceive { buffer: a[0] }
    } else if number == HXNU_SYS_LCL_RETURN {
        SyscallRequest::LclReturn { result: a[0], pid: a[1], tid: a[2] }
    } else if number == HXNU_SYS_SPAWN {
        SyscallRequest::Spawn { path: a[0], argv: a[1], argc: a[2] }
    } else if number == HXNU_SYS_HETEREXEC_SUBMIT {
        SyscallRequest::HeterexecSubmit { target: (a[0] & 0xff) as u8 }
    } else if number == HXNU_SYS_HETEREXEC_POLL {
        SyscallRequest::HeterexecPoll { task_id: a[0] as u32 }
    } else if number == HXNU_SYS_EXIT_GROUP {
        SyscallRequest::ExitGroup { status: a[0] as i32 }
    } else {
        SyscallRequest::Done(err_outcome(ENOSYS))
    }
}

/// The request for a call made through `abi`.
pub open spec fn abi_route(abi: SyscallAbi, number: u64, args: [u64; 6]) -> SyscallRequest {
    match abi {
        SyscallAbi::LinuxBootstrap => linux_route(number, args),
        SyscallAbi::GhostBootstrap => ghost_route(number, args),
        SyscallAbi::HxnuNativeBootstrap => hxnu_route(number, args),
        SyscallAbi::PosixLcl => lcl_yield(),
    }
}

pub fn dispatch_linux_bootstrap(number: u64, args: [u64; 6]) -> (r: SyscallRequest)
    ensures
        r == linux_route(number, args),
{
    let ok0 = SyscallRequest::Done(SyscallOutcome::success(0));
    match number {
        LINUX_SYS_READ => SyscallRequest::Read { fd: args[0], buffer: args[1], count: args[2] },
        LINUX_SYS_WRITE => write_request(args[0], args[1], args[2]),
        LINUX_SYS_OPEN => SyscallRequest::Open { dirfd: AT_FDCWD, path: args[0], flags: args[1] },
        LINUX_SYS_CLOSE => SyscallRequest::Close { fd: args[0] },
        LINUX_SYS_STAT | LINUX_SYS_NEWFSTATAT => SyscallRequest::Stat {
            path: args[0],
            statbuf: args[1],
        },
        LINUX_SYS_FSTAT => SyscallRequest::Fstat { fd: args[0], statbuf: args[1] },
        LINUX_SYS_POLL => ok0,
        LINUX_SYS_LSEEK => ok0,
        LINUX_SYS_MMAP => SyscallRequest::Mmap { hint: args[0], length: args[1] },
        LINUX_SYS_MPROTECT => ok0,
        LINUX_SYS_MUNMAP => ok0,
        LINUX_SYS_BRK => SyscallRequest::Brk { new_brk: args[0] },
        LINUX_SYS_RT_SIGACTION => ok0,
        LINUX_SYS_RT_SIGPROCMASK => ok0,
        LINUX_SYS_IOCTL => SyscallRequest::Ioctl { fd: args[0] },
        LINUX_SYS_SCHED_YIELD => ok0,
        LINUX_SYS_MADVISE => ok0,
        LINUX_SYS_GETPID => SyscallRequest::ProcessId,
        LINUX_SYS_GETPPID => SyscallRequest::ParentProcessId,
        LINUX_SYS_SIGALTSTACK => ok0,
        LINUX_SYS_ARCH_PRCTL => SyscallRequest::ArchPrctl { code: args[0], addr: args[1] },
        LINUX_SYS_GETTID => SyscallRequest::ThreadId,
        LINUX_SYS_TKILL => ok0,
        LINUX_SYS_GETDENTS64 => SyscallRequest::Getdents {
            fd: args[0],
            dirp: args[1],
            count: args[2],
        },
        LINUX_SYS_SET_TID_ADDRESS => SyscallRequest::SetTidAddress,
        LINUX_SYS_CLOCK_GETTIME => SyscallRequest::ClockGettime {
            clock: args[0],
            timespec: args[1],
        },
        LINUX_SYS_UNAME => SyscallRequest::Uname { buffer: args[0], flavor: UnameFlavor::LinuxAbi },
        LINUX_SYS_EXIT | LINUX_SYS_EXIT_GROUP => SyscallRequest::ExitGroup {
            status: args[0] as i32,
        },
        LINUX_SYS_TGKILL => ok0,
        LINUX_SYS_OPENAT => SyscallRequest::Open {
            dirfd: args[0] as i64,
            path: args[1],
            flags: args[2],
        },
        LINUX_SYS_PRLIMIT64 => ok0,
        LINUX_SYS_GETRANDOM => SyscallRequest::GetRandom { buffer: args[0], count: args[1] },
        LINUX_SYS_RSEQ => SyscallRequest::Done(SyscallOutcome::errno(ENOSYS)),
        _ => SyscallRequest::Done(SyscallOutcome::errno(ENOSYS)),
    }
}

pub fn dispatch_ghost_bootstrap(number: u64, args: [u64; 6]) -> (r: SyscallRequest)
    ensures
        r == ghost_route(number, args),
{
    match number {
        GHOST_SYS_WRITE => write_request(args[0], args[1], args[2]),
        GHOST_SYS_OPEN => SyscallRequest::Open { dirfd: AT_FDCWD, path: args[0], flags: args[1] },
        GHOST_SYS_READ => SyscallRequest::Read { fd: args[0], buffer: args[1], count: args[2] },
        GHOST_SYS_CLOSE => SyscallRequest::Close { fd: args[0] },
        GHOST_SYS_YIELD => SyscallRequest::Done(SyscallOutcome::success(0)),
        GHOST_SYS_GETPID => SyscallRequest::ProcessId,
        GHOST_SYS_GETTID => SyscallRequest::ThreadId,
        GHOST_SYS_UPTIME_NSEC => SyscallRequest::Uptime,
        GHOST_SYS_UNAME => SyscallRequest::Uname { buffer: args[0], flavor: UnameFlavor::GhostAbi },
        GHOST_SYS_EXIT_GROUP => SyscallRequest::ExitGroup { status: args[0] as i32 },
        _ => SyscallRequest::Done(SyscallOutcome::errno(ENOSYS)),
    }
}

pub fn dispatch_hxnu_bootstrap(number: u64, args: [u64; 6]) -> (r: SyscallRequest)
    ensures
        r == hxnu_route(number, args),
{
    match number {
        HXNU_SYS_LOG_WRITE => SyscallRequest::LogWrite { buffer: args[0], count: args[1] },
        HXNU_SYS_OPEN => SyscallRequest::Open { dirfd: AT_FDCWD, path: args[0], flags: args[1] },
        HXNU_SYS_READ => SyscallRequest::Read { fd: args[0], buffer: args[1], count: args[2] },
        HXNU_SYS_CLOSE => SyscallRequest::Close { fd: args[0] },
        HXNU_SYS_THREAD_SELF => SyscallRequest::ThreadId,
        HXNU_SYS_PROCESS_SELF => SyscallRequest::ProcessId,
        HXNU_SYS_UPTIME_NSEC => SyscallRequest::Uptime,
        HXNU_SYS_SCHED_YIELD => SyscallRequest::Done(SyscallOutcome::yield_thread()),
        HXNU_SYS_ABI_VERSION => SyscallRequest::Done(SyscallOutcome::success(HXNU_NATIVE_ABI_VERSION)),
        HXNU_SYS_LCL_RECEIVE => SyscallRequest::LclReceive { buffer: args[0] },
        HXNU_SYS_LCL_RETURN => SyscallRequest::LclReturn {
            result: args[0],
            pid: args[1],
            tid: args[2],
        },
        HXNU_SYS_SPAWN => SyscallRequest::Spawn { path: args[0], argv: args[1], argc: args[2] },
        HXNU_SYS_HETEREXEC_SUBMIT => SyscallRequest::HeterexecSubmit {
            target: (args[0] & 0xff) as u8,
        },
        HXNU_SYS_HETEREXEC_POLL => SyscallRequest::HeterexecPoll { task_id: args[0] as u32 },
        HXNU_SYS_EXIT_GROUP => SyscallRequest::ExitGroup { status: args[0] as i32 },
        _ => SyscallRequest::Done(SyscallOutcome::errno(ENOSYS)),
    }
}

/// The queue after a call was handed to the compatibility daemon as `msg`.
pub open spec fn lcl_forwarded(q0: LclQueue, q1: LclQueue, msg: LclMessage) -> bool {
    &&& q1.shape_ok()
    &&& q1.messages@ == q0.messages@.update(q0.head as int, Some(msg))
    &&& q1.head == (q0.head + 1) % (LCL_QUEUE_SLOTS as int)
    &&& q1.tail == q0.tail
    &&& q0.wf() && q0.count() < LCL_QUEUE_SLOTS ==> q1.wf() && q1.pending() == q0.pending().push(msg)
}

/// What a call handed to the daemon answers: 0, and the thread yields until the answer.
pub open spec fn lcl_yield() -> SyscallRequest {
    SyscallRequest::Done(SyscallOutcome { value: 0, action: SyscallAction::YieldThread })
}

/// Routes a call made through `abi` for thread `tid` of process `pid`. A call through the
/// compatibility ABI is queued for the daemon with ABI tag 3, and the thread yields.
pub fn dispatch(queue: &mut LclQueue, pid: u64, tid: u64, abi: SyscallAbi, number: u64, args: [u64; 6]) -> (r: SyscallRequest)
    requires
        old(queue).shape_ok(),
    ensures
        abi != SyscallAbi::PosixLcl ==> r == abi_route(abi, number, args) && *final(queue) == *old(queue),
        abi == SyscallAbi::PosixLcl ==> r == lcl_yield() && lcl_forwarded(
            *old(queue),
            *final(queue),
            LclMessage { pid, tid, number, args, abi: 3 },
        ),
{
    match abi {
        SyscallAbi::LinuxBootstrap => dispatch_linux_bootstrap(number, args),
        SyscallAbi::GhostBootstrap => dispatch_ghost_bootstrap(number, args),
        SyscallAbi::HxnuNativeBootstrap => dispatch_hxnu_bootstrap(number, args),
        SyscallAbi::PosixLcl => SyscallRequest::Done(forward_to_lcl(queue, pid, tid, number, args, 3)),
    }
}

/// The ABI a trap selects by its `r12` register: 2 is native, anything else goes to the
/// compatibility daemon.
pub open spec fn trap_abi(selector: u64) -> SyscallAbi {
    if selector == 2 { SyscallAbi::HxnuNativeBootstrap } else { SyscallAbi::PosixLcl }
}

/// Routes a trap of thread `tid` of process `pid`: `number` from `rax`, the arguments from
/// `rdi, rsi, rdx, r10, r8, r9`, the ABI selector from `r12`. A call for the daemon is
/// queued with the selector as its ABI tag, and the thread yields.
pub fn syscall_handler(queue: &mut LclQueue, pid: u64, tid: u64, selector: u64, number: u64, args: [u64; 6]) -> (r: SyscallRequest)
    requires
        old(queue).shape_ok(),
    ensures
        trap_abi(selector) == SyscallAbi::HxnuNativeBootstrap ==> r == hxnu_route(number, args) && *final(queue)
            == *old(queue),
        trap_abi(selector) == SyscallAbi::PosixLcl ==> r == lcl_yield() && lcl_forwarded(
            *old(queue),
            *final(queue),
            LclMessage { pid, tid, number, args, abi: selector },
        ),
{
    if selector == 2 {
        dispatch_hxnu_bootstrap(number, args)
    } else {
        SyscallRequest::Done(forward_to_lcl(queue, pid, tid, number, args, selector))
    }
}

/// `a` is the first free entry at or after `from`.
pub open spec fn is_first_free<T>(s: Seq<Option<T>>, from: int, a: int) -> bool {
    &&& from <= a < s.len()
    &&& s[a] is None
    &&& forall|j: int| from <= j < a ==> #[trigger] s[j] is Some
}

/// No entry at or after `from` is free.
pub open spec fn none_free<T>(s: Seq<Option<T>>, from: int) -> bool {
    forall|j: int| from <= j < s.len() ==> #[trigger] s[j] is Some
}

/// The first free entry at or after `from`.
pub fn find_free_from<T>(v: &Vec<Option<T>>, from: usize) -> (r: Option<usize>)
    ensures
        r matches Some(a) ==> is_first_free(v@, from as int, a as int),
        r is None ==> none_free(v@, from as int),
{
    let mut i = from;
    while i < v.len()
        invariant
            from <= i || v@.len() <= i,
            forall|j: int| from <= j < i && j < v@.len() ==> #[trigger] v@[j] is Some,
        decreases v.len() - i,
    {
        if v[i].is_none() {
            return Some(i);
        }
        i = i + 1;
    }
    None
}

/// `b` padded with zeros, or cut, to `n` bytes.
pub open spec fn padded(b: Seq<u8>, n: nat) -> Seq<u8> {
    Seq::new(n, |i: int| if i < b.len() { b[i] } else { 0u8 })
}

fn padded_bytes(src: &[u8], n: usize) -> (r: Vec<u8>)
    ensures
        r@ == padded(src@, n as nat),
{
    let mut out: Vec<u8> = Vec::new();
    let mut i: usize = 0;
    while i < n
        invariant
            i <= n,
            out@ == padded(src@, i as nat),
        decreases n - i,
    {
        let b: u8 = if i < src.len() { src[i] } else { 0 };
        out.push(b);
        i = i + 1;
        assert(out@ =~= padded(src@, i as nat));
    }
    out
}

pub open spec fn min_usize(a: usize, b: usize) -> usize {
    if a < b { a } else { b }
}

/// An open file of the system table: how many descriptors share it, its path and its
/// contents in fixed buffers with their lengths, and the read offset.
pub struct OpenFile {
    pub ref_count: usize,
    pub path: Vec<u8>,
    pub path_len: usize,
    pub offset: usize,
    pub content: Vec<u8>,
    pub content_len: usize,
}

/// An open file with its buffers as sequences.
pub ghost struct OpenFileView {
    pub ref_count: usize,
    pub path: Seq<u8>,
    pub path_len: usize,
    pub offset: usize,
    pub content: Seq<u8>,
    pub content_len: usize,
}

impl View for OpenFile {
    type V = OpenFileView;

    open spec fn view(&self) -> OpenFileView {
        OpenFileView {
            ref_count: self.ref_count,
            path: self.path@,
            path_len: self.path_len,
            offset: self.offset,
            content: self.content@,
            content_len: self.content_len,
        }
    }
}

impl OpenFileView {
    pub open spec fn wf(self) -> bool {
        &&& self.path.len() == OPEN_FILE_PATH_BYTES
        &&& self.path_len <= OPEN_FILE_PATH_BYTES
        &&& self.content.len() == OPEN_FILE_CONTENT_BYTES
        &&& self.content_len <= OPEN_FILE_CONTENT_BYTES
    }

    /// The file as it is opened: one reference, offset 0, the path and the contents cut to
    /// their buffers.
    pub open spec fn opened(path: Seq<u8>, content: Seq<u8>) -> OpenFileView {
        OpenFileView {
            ref_count: 1,
            path: padded(path, OPEN_FILE_PATH_BYTES as nat),
            path_len: min_usize(path.len() as usize, OPEN_FILE_PATH_BYTES),
            offset: 0,
            content: padded(content, OPEN_FILE_CONTENT_BYTES as nat),
            content_len: min_usize(content.len() as usize, OPEN_FILE_CONTENT_BYTES),
        }
    }

    /// The same file with another reference count.
    pub open spec fn with_refs(self, refs: usize) -> OpenFileView {
        OpenFileView { ref_count: refs, ..self }
    }

    /// The same file with another offset.
    pub open spec fn with_offset(self, offset: usize) -> OpenFileView {
        OpenFileView { offset, ..self }
    }
}

impl OpenFile {
    fn open_with(path: &[u8], content: &[u8]) -> (f: OpenFile)
        ensures
            f@ == OpenFileView::opened(path@, content@),
            f@.wf(),
    {
        let path_len = if path.len() < OPEN_FILE_PATH_BYTES { path.len() } else { OPEN_FILE_PATH_BYTES };
        let content_len = if content.len() < OPEN_FILE_CONTENT_BYTES {
            content.len()
        } else {
            OPEN_FILE_CONTENT_BYTES
        };
        OpenFile {
            ref_count: 1,
            path: padded_bytes(path, OPEN_FILE_PATH_BYTES),
            path_len,
            offset: 0,
            content: padded_bytes(content, OPEN_FILE_CONTENT_BYTES),
            content_len,
        }
    }
}

pub open spec fn slot_view(o: Option<OpenFile>) -> Option<OpenFileView> {
    match o {
        Some(f) => Some(f@),
        None => None,
    }
}

/// The system-wide table of open files.
pub struct OpenFileTable {
    pub slots: Vec<Option<OpenFile>>,
}

impl View for OpenFileTable {
    type V = Seq<Option<OpenFileView>>;

    open spec fn view(&self) -> Seq<Option<OpenFileView>> {
        Seq::new(self.slots@.len(), |i: int| slot_view(self.slots@[i]))
    }
}

/// A table of `MAX_SYSTEM_FILES` slots whose files have well-formed buffers.
pub open spec fn table_wf(t: Seq<Option<OpenFileView>>) -> bool {
    &&& t.len() == MAX_SYSTEM_FILES
    &&& forall|i: int| 0 <= i < t.len() && #[trigger] t[i] is Some ==> t[i]->0.wf()
}

/// Every descriptor names a slot of the system table.
pub open spec fn fds_wf(fds: Seq<Option<usize>>) -> bool {
    forall|i: int| 0 <= i < fds.len() && #[trigger] fds[i] is Some ==> fds[i]->0 < MAX_SYSTEM_FILES
}

/// One reference to slot `g` goes: the count drops, or the slot is freed with the last.
pub open spec fn release(t: Seq<Option<OpenFileView>>, g: int) -> Seq<Option<OpenFileView>> {
    match t[g] {
        Some(f) => if f.ref_count > 1 {
            t.update(g, Some(f.with_refs((f.ref_count - 1) as usize)))
        } else {
            t.update(g, None)
        },
        None => t,
    }
}

impl OpenFileTable {
    pub fn new() -> (t: Self)
        ensures
            table_wf(t@),
            forall|i: int| 0 <= i < MAX_SYSTEM_FILES ==> #[trigger] t@[i] is None,
    {
        let mut slots: Vec<Option<OpenFile>> = Vec::new();
        let mut i: usize = 0;
        while i < MAX_SYSTEM_FILES
            invariant
                i <= MAX_SYSTEM_FILES,
                slots@.len() == i,
                forall|j: int| 0 <= j < i ==> #[trigger] slots@[j] is None,
            decreases MAX_SYSTEM_FILES - i,
        {
            slots.push(None);
            i = i + 1;
        }
        OpenFileTable { slots }
    }

    /// Drops one reference to slot `g`.
    fn release_slot(&mut self, g: usize)
        requires
            g < old(self)@.len(),
            table_wf(old(self)@),
        ensures
            final(self)@ == release(old(self)@, g as int),
            table_wf(final(self)@),
    {
        let ghost t = self@;
        match self.slots[g].take() {
            Some(mut f) => {
                if f.ref_count > 1 {
                    f.ref_count = f.ref_count - 1;
                    self.slots.set(g, Some(f));
                }
            },
            None => {},
        }
        assert(self@ =~= release(t, g as int));
    }

    /// Adds one reference to slot `g`, if it holds a file.
    fn add_ref(&mut self, g: usize)
        requires
            g < old(self)@.len(),
            table_wf(old(self)@),
            old(self)@[g as int] matches Some(f) ==> f.ref_count < usize::MAX,
        ensures
            final(self)@ == (match old(self)@[g as int] {
                Some(f) => old(self)@.update(g as int, Some(f.with_refs((f.ref_count + 1) as usize))),
                None => old(self)@,
            }),
            table_wf(final(self)@),
    {
        let ghost t = self@;
        match self.slots[g].take() {
            Some(mut f) => {
                f.ref_count = f.ref_count + 1;
                self.slots.set(g, Some(f));
            },
            None => {},
        }
        assert(self@ =~= (match t[g as int] {
            Some(f) => t.update(g as int, Some(f.with_refs((f.ref_count + 1) as usize))),
            None => t,
        }));
    }
}

/// The descriptor `fd` of the table, as a slot of the system table, when it is open.
pub open spec fn fd_slot(fds: Seq<Option<usize>>, fd: int) -> Option<usize> {
    if 0 <= fd < fds.len() { fds[fd] } else { None }
}

/// Installs a new open file: the first free descriptor from 3 on names the first free slot
/// of the system table, which gets the path and the contents. Either running out is
/// `EMFILE`, and then nothing changes.
pub fn alloc_open_file(
    fds: &mut Vec<Option<usize>>,
    files: &mut OpenFileTable,
    path: &[u8],
    content: &[u8],
) -> (r: Result<i64, i64>)
    requires
        old(fds)@.len() <= i32::MAX,
        fds_wf(old(fds)@),
        table_wf(old(files)@),
    ensures
        fds_wf(final(fds)@),
        table_wf(final(files)@),
        none_free(old(fds)@, FIRST_FREE_FD as int) ==> r == Err::<i64, i64>(EMFILE)
            && final(fds)@ == old(fds)@ && final(files)@ == old(files)@,
        !none_free(old(fds)@, FIRST_FREE_FD as int) && none_free(old(files)@, 0) ==> r == Err::<
            i64,
            i64,
        >(EMFILE) && final(fds)@ == old(fds)@ && final(files)@ == old(files)@,
        forall|f: int, g: int|
            is_first_free(old(fds)@, FIRST_FREE_FD as int, f) && is_first_free(old(files)@, 0, g)
                ==> r == Ok::<i64, i64>(f as i64) && final(fds)@ == old(fds)@.update(f, Some(g as usize))
                && final(files)@ == old(files)@.update(g, Some(OpenFileView::opened(path@, content@))),
{
    let fd = match find_free_from(fds, FIRST_FREE_FD) {
        Some(fd) => fd,
        None => return Err(EMFILE),
    };
    let g = match find_free_from(&files.slots, 0) {
        Some(g) => g,
        None => {
            proof {
                assert forall|j: int| 0 <= j < files@.len() implies #[trigger] files@[j] is Some by {
                    assert(files.slots@[j] is Some);
                }
            }
            return Err(EMFILE);
        },
    };
    let ghost t = files@;
    let file = OpenFile::open_with(path, content);
    files.slots.set(g, Some(file));
    fds.set(fd, Some(g));
    proof {
        assert(files@ =~= t.update(g as int, Some(OpenFileView::opened(path@, content@))));
        assert forall|f: int, g2: int|
            is_first_free(old(fds)@, FIRST_FREE_FD as int, f) && is_first_free(old(files)@, 0, g2)
                implies f == fd && g2 == g by {
            if f < fd {
                assert(old(fds)@[f] is Some);
            } else if f > fd {
                assert(old(fds)@[fd as int] is Some);
            }
            if g2 < g {
                assert(old(files).slots@[g2] is Some);
            } else if g2 > g {
                assert(old(files).slots@[g as int] is None);
                assert(old(files)@[g as int] is Some);
            }
        }
        assert(!none_free(old(fds)@, FIRST_FREE_FD as int));
        assert(!none_free(old(files)@, 0)) by {
            assert(old(files)@[g as int] is None);
        }
    }
    Ok(fd as i64)
}

/// What a read of up to `count` bytes gives from the file's offset: no more than the
/// contents hold past it.
pub open spec fn read_bytes(f: OpenFileView, count: nat) -> Seq<u8> {
    let avail: int = if f.content_len > f.offset { f.content_len - f.offset } else { 0 };
    let n: int = if count < avail { count as int } else { avail };
    if n == 0 { Seq::empty() } else { f.content.subrange(f.offset as int, f.offset + n) }
}

/// The first half of a read: the slot the descriptor names and the bytes that go to the
/// caller. A descriptor out of range, unused, or naming a free slot is `EBADF`.
pub fn read_window(fds: &Vec<Option<usize>>, files: &OpenFileTable, fd: i32, count: usize) -> (r:
    Result<(usize, Vec<u8>), i64>)
    requires
        fds_wf(fds@),
        table_wf(files@),
    ensures
        match fd_slot(fds@, fd as int) {
            Some(g) => match files@[g as int] {
                Some(f) => r matches Ok((g2, bytes)) && g2 == g && bytes@ == read_bytes(f, count as nat),
                None => r == Err::<(usize, Vec<u8>), i64>(EBADF),
            },
            None => r == Err::<(usize, Vec<u8>), i64>(EBADF),
        },
{
    if fd < 0 || fd as usize >= fds.len() {
        return Err(EBADF);
    }
    let g = match fds[fd as usize] {
        Some(g) => g,
        None => return Err(EBADF),
    };
    let open = match &files.slots[g] {
        Some(f) => f,
        None => {
            assert(files@[g as int] is None);
            return Err(EBADF);
        },
    };
    assert(files@[g as int] == Some(open@));
    let mut bytes: Vec<u8> = Vec::new();
    if count == 0 {
        assert(bytes@ =~= read_bytes(open@, 0));
        return Ok((g, bytes));
    }
    let available = open.content_len.saturating_sub(open.offset);
    let read_len = if count < available { count } else { available };
    if read_len == 0 {
        assert(bytes@ =~= read_bytes(open@, count as nat));
        return Ok((g, bytes));
    }
    let mut i: usize = 0;
    while i < read_len
        invariant
            open@.wf(),
            read_len <= available,
            available == (if open.content_len > open.offset { open.content_len - open.offset } else { 0 }),
            i <= read_len,
            bytes@ == open.content@.subrange(open.offset as int, open.offset + i),
        decreases read_len - i,
    {
        bytes.push(open.content[open.offset + i]);
        i = i + 1;
        assert(bytes@ =~= open.content@.subrange(open.offset as int, open.offset + i));
    }
    Ok((g, bytes))
}

/// The second half of a read, once the bytes reached the caller: the slot's offset moves
/// on by `n`, saturating.
pub fn advance_read_offset(files: &mut OpenFileTable, g: usize, n: usize)
    requires
        g < old(files)@.len(),
        table_wf(old(files)@),
    ensures
        table_wf(final(files)@),
        final(files)@ == (match old(files)@[g as int] {
            Some(f) => old(files)@.update(
                g as int,
                Some(f.with_offset(
                    (if f.offset + n > usize::MAX { usize::MAX as int } else { f.offset + n }) as usize,
                )),
            ),
            None => old(files)@,
        }),
{
    let ghost t = files@;
    match files.slots[g].take() {
        Some(mut f) => {
            f.offset = f.offset.saturating_add(n);
            files.slots.set(g, Some(f));
        },
        None => {},
    }
    assert(files@ =~= (match t[g as int] {
        Some(f) => t.update(
            g as int,
            Some(f.with_offset(
                (if f.offset + n > usize::MAX { usize::MAX as int } else { f.offset + n }) as usize,
            )),
        ),
        None => t,
    }));
}

/// Closes a descriptor: it is freed and its file loses one reference. A descriptor out of
/// range or unused is `EBADF`, and then nothing changes.
pub fn close_open_file(fds: &mut Vec<Option<usize>>, files: &mut OpenFileTable, fd: i32) -> (r:
    Result<i64, i64>)
    requires
        fds_wf(old(fds)@),
        table_wf(old(files)@),
    ensures
        fds_wf(final(fds)@),
        table_wf(final(files)@),
        match fd_slot(old(fds)@, fd as int) {
            Some(g) => r == Ok::<i64, i64>(0) && final(fds)@ == old(fds)@.update(fd as int, None)
                && final(files)@ == release(old(files)@, g as int),
            None => r == Err::<i64, i64>(EBADF) && final(fds)@ == old(fds)@ && final(files)@ == old(
                files,
            )@,
        },
{
    if fd < 0 || fd as usize >= fds.len() {
        return Err(EBADF);
    }
    let g = match fds[fd as usize] {
        Some(g) => g,
        None => return Err(EBADF),
    };
    fds.set(fd as usize, None);
    files.release_slot(g);
    Ok(0)
}

/// The system table after the descriptors 3 to `k - 1` of `fds` each dropped their
/// reference, in order.
pub open spec fn released_through(
    fds: Seq<Option<usize>>,
    t: Seq<Option<OpenFileView>>,
    k: int,
) -> Seq<Option<OpenFileView>>
    decreases k,
{
    if k <= FIRST_FREE_FD {
        t
    } else {
        let prev = released_through(fds, t, k - 1);
        match fds[k - 1] {
            Some(g) => release(prev, g as int),
            None => prev,
        }
    }
}

/// Closes every descriptor from 3 on, as the process leaves.
pub fn purge_open_files_for_process(fds: &mut Vec<Option<usize>>, files: &mut OpenFileTable)
    requires
        fds_wf(old(fds)@),
        table_wf(old(files)@),
    ensures
        fds_wf(final(fds)@),
        table_wf(final(files)@),
        final(fds)@.len() == old(fds)@.len(),
        forall|j: int| 0 <= j < FIRST_FREE_FD && j < old(fds)@.len() ==> #[trigger] final(fds)@[j] == old(fds)@[j],
        forall|j: int| FIRST_FREE_FD <= j < old(fds)@.len() ==> #[trigger] final(fds)@[j] is None,
        final(files)@ == released_through(old(fds)@, old(files)@, old(fds)@.len() as int),
{
    let ghost f0 = fds@;
    let ghost t0 = files@;
    let mut fd: usize = FIRST_FREE_FD;
    if fds.len() <= FIRST_FREE_FD {
        return;
    }
    while fd < fds.len()
        invariant
            FIRST_FREE_FD <= fd <= fds@.len(),
            fds@.len() == f0.len(),
            fds_wf(f0),
            fds_wf(fds@),
            table_wf(files@),
            forall|j: int| 0 <= j < fds@.len() && !(FIRST_FREE_FD <= j < fd) ==> #[trigger] fds@[j] == f0[j],
            forall|j: int| FIRST_FREE_FD <= j < fd ==> #[trigger] fds@[j] is None,
            files@ == released_through(f0, t0, fd as int),
        decreases fds.len() - fd,
    {
        match fds[fd] {
            Some(g) => {
                files.release_slot(g);
                fds.set(fd, None);
            },
            None => {},
        }
        fd = fd + 1;
    }
}

/// Ends the process group with the low half of the first argument as status, closing its
/// descriptors from 3 on.
pub fn exit_group(fds: &mut Vec<Option<usize>>, files: &mut OpenFileTable, status_arg: u64) -> (r:
    SyscallOutcome)
    requires
        fds_wf(old(fds)@),
        table_wf(old(files)@),
    ensures
        r == (SyscallOutcome { value: 0, action: SyscallAction::ExitGroup { status: status_arg as i32 } }),
        fds_wf(final(fds)@),
        table_wf(final(files)@),
        final(fds)@.len() == old(fds)@.len(),
        forall|j: int| 0 <= j < FIRST_FREE_FD && j < old(fds)@.len() ==> #[trigger] final(fds)@[j] == old(fds)@[j],
        forall|j: int| FIRST_FREE_FD <= j < old(fds)@.len() ==> #[trigger] final(fds)@[j] is None,
        final(files)@ == released_through(old(fds)@, old(files)@, old(fds)@.len() as int),
{
    let status = status_arg as i32;
    purge_open_files_for_process(fds, files);
    SyscallOutcome { value: 0, action: SyscallAction::ExitGroup { status } }
}

/// The offset an `lseek` asks for, or `None` for an unknown `whence`. The end is that of
/// the content buffer.
pub open spec fn lseek_target(f: OpenFileView, offset: i64, whence: i32) -> Option<int> {
    if whence == 0 {
        Some(offset as int)
    } else if whence == 1 {
        Some((f.offset as i64) + offset)
    } else if whence == 2 {
        Some(OPEN_FILE_CONTENT_BYTES + offset)
    } else {
        None
    }
}

/// The sum that `lseek` computes fits in an `i64`.
pub open spec fn lseek_fits(fds: Seq<Option<usize>>, t: Seq<Option<OpenFileView>>, fd_arg: u64, offset_arg: u64, whence_arg: u64) -> bool {
    match fd_slot(fds, (fd_arg as i32) as int) {
        Some(g) => match t[g as int] {
            Some(f) => match lseek_target(f, offset_arg as i64, whence_arg as i32) {
                Some(n) => i64::MIN <= n <= i64::MAX,
                None => true,
            },
            None => true,
        },
        None => true,
    }
}

/// Moves a file's offset: to `offset` (whence 0), by `offset` (1), or to `offset` past the
/// end of the buffer (2). A bad descriptor is `EBADF`; an unknown `whence` or a negative
/// result is `EINVAL`, and then nothing changes.
pub fn sys_lseek(fds: &Vec<Option<usize>>, files: &mut OpenFileTable, fd_arg: u64, offset_arg: u64, whence_arg: u64) -> (r: SyscallOutcome)
    requires
        fds_wf(fds@),
        table_wf(old(files)@),
        lseek_fits(fds@, old(files)@, fd_arg, offset_arg, whence_arg),
    ensures
        table_wf(final(files)@),
        match fd_slot(fds@, (fd_arg as i32) as int) {
            Some(g) => match old(files)@[g as int] {
                Some(f) => match lseek_target(f, offset_arg as i64, whence_arg as i32) {
                    Some(n) => if n < 0 {
                        r == err_outcome(EINVAL) && final(files)@ == old(files)@
                    } else {
                        r == ok_outcome(n as i64) && final(files)@ == old(files)@.update(
                            g as int,
                            Some(f.with_offset(n as usize)),
                        )
                    },
                    None => r == err_outcome(EINVAL) && final(files)@ == old(files)@,
                },
                None => r == err_outcome(EBADF) && final(files)@ == old(files)@,
            },
            None => r == err_outcome(EBADF) && final(files)@ == old(files)@,
        },
{
    let fd = fd_arg as i32;
    let offset = offset_arg as i64;
    let whence = whence_arg as i32;
    if fd < 0 || fd as usize >= fds.len() {
        return SyscallOutcome::errno(EBADF);
    }
    let g = match fds[fd as usize] {
        Some(g) => g,
        None => return SyscallOutcome::errno(EBADF),
    };
    let ghost t = files@;
    let mut open = match files.slots[g].take() {
        Some(f) => f,
        None => {
            assert(files@ =~= t);
            return SyscallOutcome::errno(EBADF);
        },
    };
    let new_offset: i64 = if whence == 0 {
        offset
    } else if whence == 1 {
        open.offset as i64 + offset
    } else if whence == 2 {
        OPEN_FILE_CONTENT_BYTES as i64 + offset
    } else {
        files.slots.set(g, Some(open));
        assert(files@ =~= t);
        return SyscallOutcome::errno(EINVAL);
    };
    if new_offset < 0 {
        files.slots.set(g, Some(open));
        assert(files@ =~= t);
        return SyscallOutcome::errno(EINVAL);
    }
    open.offset = new_offset as usize;
    files.slots.set(g, Some(open));
    assert(files@ =~= t.update(g as int, Some(t[g as int]->0.with_offset(new_offset as usize))));
    SyscallOutcome::success(new_offset)
}

/// Any request on an open descriptor succeeds with 0; a bad descriptor is `EBADF`.
pub fn sys_ioctl(fds: &Vec<Option<usize>>, fd_arg: u64) -> (r: SyscallOutcome)
    ensures
        r == (if fd_slot(fds@, (fd_arg as i32) as int) is Some {
            ok_outcome(0)
        } else {
            err_outcome(EBADF)
        }),
{
    let fd = fd_arg as i32;
    if fd < 0 || fd as usize >= fds.len() {
        return SyscallOutcome::errno(EBADF);
    }
    if fds[fd as usize].is_none() {
        return SyscallOutcome::errno(EBADF);
    }
    SyscallOutcome::success(0)
}

/// Every file of the table can take one more reference.
pub open spec fn refs_below_max(t: Seq<Option<OpenFileView>>) -> bool {
    forall|i: int| 0 <= i < t.len() && #[trigger] t[i] is Some ==> t[i]->0.ref_count < usize::MAX
}

pub open spec fn add_ref_spec(t: Seq<Option<OpenFileView>>, g: int) -> Seq<Option<OpenFileView>> {
    match t[g] {
        Some(f) => t.update(g, Some(f.with_refs((f.ref_count + 1) as usize))),
        None => t,
    }
}

/// Duplicates a descriptor onto the first free one from 3 on, which shares the file.
pub fn sys_dup(fds: &mut Vec<Option<usize>>, files: &mut OpenFileTable, oldfd_arg: u64) -> (r:
    SyscallOutcome)
    requires
        old(fds)@.len() <= i32::MAX,
        fds_wf(old(fds)@),
        table_wf(old(files)@),
        refs_below_max(old(files)@),
    ensures
        fds_wf(final(fds)@),
        table_wf(final(files)@),
        match fd_slot(old(fds)@, (oldfd_arg as i32) as int) {
            Some(g) => if none_free(old(fds)@, FIRST_FREE_FD as int) {
                r == err_outcome(EMFILE) && final(fds)@ == old(fds)@ && final(files)@ == old(files)@
            } else {
                forall|n: int|
                    is_first_free(old(fds)@, FIRST_FREE_FD as int, n) ==> r == ok_outcome(n as i64)
                        && final(fds)@ == old(fds)@.update(n, Some(g)) && final(files)@
                        == add_ref_spec(old(files)@, g as int)
            },
            None => r == err_outcome(EBADF) && final(fds)@ == old(fds)@ && final(files)@ == old(
                files,
            )@,
        },
{
    let oldfd = oldfd_arg as i32;
    if oldfd < 0 || oldfd as usize >= fds.len() {
        return SyscallOutcome::errno(EBADF);
    }
    let g = match fds[oldfd as usize] {
        Some(g) => g,
        None => return SyscallOutcome::errno(EBADF),
    };
    let newfd = match find_free_from(fds, FIRST_FREE_FD) {
        Some(n) => n,
        None => return SyscallOutcome::errno(EMFILE),
    };
    fds.set(newfd, Some(g));
    files.add_ref(g);
    proof {
        assert forall|n: int| is_first_free(old(fds)@, FIRST_FREE_FD as int, n) implies n
            == newfd by {
            if n < newfd {
                assert(old(fds)@[n] is Some);
            } else if n > newfd {
                assert(old(fds)@[newfd as int] is Some);
            }
        }
        assert(!none_free(old(fds)@, FIRST_FREE_FD as int)) by {
            assert(old(fds)@[newfd as int] is None);
        }
    }
    SyscallOutcome::success(newfd as i64)
}

/// Makes `newfd` a copy of `oldfd`. Both must be in range (`EBADF`); the same descriptor
/// twice is answered at once. A file that `newfd` named loses a reference first, then the
/// file of `oldfd` gains one.
pub fn sys_dup2(fds: &mut Vec<Option<usize>>, files: &mut OpenFileTable, oldfd_arg: u64, newfd_arg: u64) -> (r: SyscallOutcome)
    requires
        fds_wf(old(fds)@),
        table_wf(old(files)@),
        refs_below_max(old(files)@),
    ensures
        fds_wf(final(fds)@),
        table_wf(final(files)@),
        ({
            let oldfd = (oldfd_arg as i32) as int;
            let newfd = (newfd_arg as i32) as int;
            if !(0 <= oldfd < old(fds)@.len()) || !(0 <= newfd < old(fds)@.len()) {
                r == err_outcome(EBADF) && final(fds)@ == old(fds)@ && final(files)@ == old(files)@
            } else if oldfd == newfd {
                r == ok_outcome(newfd as i64) && final(fds)@ == old(fds)@ && final(files)@ == old(files)@
            } else {
                match old(fds)@[oldfd] {
                    Some(g) => {
                        let after_release = match old(fds)@[newfd] {
                            Some(og) => release(old(files)@, og as int),
                            None => old(files)@,
                        };
                        r == ok_outcome(newfd as i64) && final(fds)@ == old(fds)@.update(newfd, Some(g))
                            && final(files)@ == add_ref_spec(after_release, g as int)
                    },
                    None => r == err_outcome(EBADF) && final(fds)@ == old(fds)@ && final(files)@ == old(files)@,
                }
            }
        }),
{
    let oldfd = oldfd_arg as i32;
    let newfd = newfd_arg as i32;
    if oldfd < 0 || oldfd as usize >= fds.len() || newfd < 0 || newfd as usize >= fds.len() {
        return SyscallOutcome::errno(EBADF);
    }
    if oldfd == newfd {
        return SyscallOutcome::success(newfd as i64);
    }
    let g = match fds[oldfd as usize] {
        Some(g) => g,
        None => return SyscallOutcome::errno(EBADF),
    };
    match fds[newfd as usize] {
        Some(og) => {
            files.release_slot(og);
        },
        None => {},
    }
    fds.set(newfd as usize, Some(g));
    proof {
        assert(refs_below_max(files@));
    }
    files.add_ref(g);
    SyscallOutcome::success(newfd as i64)
}

/// `a` and `b` are the first two free entries at or after `from`.
pub open spec fn first_two_free<T>(s: Seq<Option<T>>, from: int, a: int, b: int) -> bool {
    is_first_free(s, from, a) && is_first_free(s, a + 1, b)
}

/// The file a pipe end opens with: its name, nothing in it.
pub open spec fn pipe_end(name: Seq<u8>) -> OpenFileView {
    OpenFileView {
        ref_count: 1,
        path: padded(name, OPEN_FILE_PATH_BYTES as nat),
        path_len: name.len() as usize,
        offset: 0,
        content: padded(Seq::empty(), OPEN_FILE_CONTENT_BYTES as nat),
        content_len: 0,
    }
}

/// Opens a pipe: the first two free slots of the system table get a read end and a write
/// end, named by the first two free descriptors from 3 on, which are returned. Running out
/// of either is `EMFILE`, and then nothing changes.
pub fn sys_pipe(fds: &mut Vec<Option<usize>>, files: &mut OpenFileTable) -> (r: Result<(i32, i32), i64>)
    requires
        old(fds)@.len() <= i32::MAX,
        fds_wf(old(fds)@),
        table_wf(old(files)@),
    ensures
        fds_wf(final(fds)@),
        table_wf(final(files)@),
        r is Err ==> r == Err::<(i32, i32), i64>(EMFILE) && final(fds)@ == old(fds)@ && final(files)@
            == old(files)@,
        forall|ri: int, wi: int, rf: int, wf: int|
            #[trigger] first_two_free(old(files)@, 0, ri, wi) && #[trigger] first_two_free(
                old(fds)@,
                FIRST_FREE_FD as int,
                rf,
                wf,
            ) ==> r == Ok::<(i32, i32), i64>((rf as i32, wf as i32)) && final(fds)@ == old(
                fds,
            )@.update(rf, Some(ri as usize)).update(wf, Some(wi as usize)) && final(files)@ == old(
                files,
            )@.update(ri, Some(pipe_end(seq![112u8, 105, 112, 101, 58, 114, 101, 97, 100]))).update(
                wi,
                Some(pipe_end(seq![112u8, 105, 112, 101, 58, 119, 114, 105, 116, 101])),
            ),
{
    let ri = match find_free_from(&files.slots, 0) {
        Some(i) => i,
        None => return Err(EMFILE),
    };
    let wi = match find_free_from(&files.slots, ri + 1) {
        Some(i) => i,
        None => return Err(EMFILE),
    };
    let rf = match find_free_from(fds, FIRST_FREE_FD) {
        Some(i) => i,
        None => return Err(EMFILE),
    };
    let wf = match find_free_from(fds, rf + 1) {
        Some(i) => i,
        None => return Err(EMFILE),
    };
    let ghost t = files@;
    let read_name: [u8; 9] = [112, 105, 112, 101, 58, 114, 101, 97, 100];
    let write_name: [u8; 10] = [112, 105, 112, 101, 58, 119, 114, 105, 116, 101];
    let empty: [u8; 0] = [];
    let reader = OpenFile {
        ref_count: 1,
        path: padded_bytes(&read_name, OPEN_FILE_PATH_BYTES),
        path_len: 9,
        offset: 0,
        content: padded_bytes(&empty, OPEN_FILE_CONTENT_BYTES),
        content_len: 0,
    };
    let writer = OpenFile {
        ref_count: 1,
        path: padded_bytes(&write_name, OPEN_FILE_PATH_BYTES),
        path_len: 10,
        offset: 0,
        content: padded_bytes(&empty, OPEN_FILE_CONTENT_BYTES),
        content_len: 0,
    };
    proof {
        assert(read_name@ =~= seq![112u8, 105, 112, 101, 58, 114, 101, 97, 100]);
        assert(write_name@ =~= seq![112u8, 105, 112, 101, 58, 119, 114, 105, 116, 101]);
        assert(empty@ =~= Seq::<u8>::empty());
    }
    files.slots.set(ri, Some(reader));
    files.slots.set(wi, Some(writer));
    fds.set(rf, Some(ri));
    fds.set(wf, Some(wi));
    proof {
        assert(files@ =~= t.update(ri as int, Some(pipe_end(seq![112u8, 105, 112, 101, 58, 114, 101, 97, 100]))).update(
            wi as int,
            Some(pipe_end(seq![112u8, 105, 112, 101, 58, 119, 114, 105, 116, 101])),
        ));
        assert forall|ri2: int, wi2: int, rf2: int, wf2: int|
            #[trigger] first_two_free(old(files)@, 0, ri2, wi2) && #[trigger] first_two_free(
                old(fds)@,
                FIRST_FREE_FD as int,
                rf2,
                wf2,
            ) implies ri2 == ri && wi2 == wi && rf2 == rf && wf2 == wf by {
            lemma_first_free_unique(old(files)@, 0, ri2, ri as int);
            lemma_first_free_unique(old(files)@, ri + 1, wi2, wi as int);
            lemma_first_free_unique(old(fds)@, FIRST_FREE_FD as int, rf2, rf as int);
            lemma_first_free_unique(old(fds)@, rf + 1, wf2, wf as int);
        }
    }
    Ok((rf as i32, wf as i32))
}

proof fn lemma_first_free_unique<T>(s: Seq<Option<T>>, from: int, a: int, b: int)
    requires
        is_first_free(s, from, a),
        is_first_free(s, from, b),
    ensures
        a == b,
{
    if a < b {
        assert(s[a] is Some);
    } else if b < a {
        assert(s[b] is Some);
    }
}

/// The `stat` record as the Linux ABI lays it out.
#[allow(non_camel_case_types)]
#[derive(Copy, Clone, Debug, PartialEq, Eq)]
pub struct stat {
    pub st_dev: u64,
    pub st_ino: u64,
    pub st_nlink: u64,
    pub st_mode: u32,
    pub st_uid: u32,
    pub st_gid: u32,
    pub __pad0: u32,
    pub st_rdev: u64,
    pub st_size: i64,
    pub st_blksize: i64,
    pub st_blocks: i64,
    pub st_atime: u64,
    pub st_atime_nsec: u64,
    pub st_mtime: u64,
    pub st_mtime_nsec: u64,
    pub st_ctime: u64,
    pub st_ctime_nsec: u64,
    pub __unused: [i64; 3],
}

pub const S_IFREG_RW: u32 = 0o100644;
pub const S_IFDIR_RWX: u32 = 0o040755;
pub const STAT_BLOCK_BYTES: i64 = 4096;

/// A record for inode 1 with one link, owned by root, with the given mode, size and block
/// count; every time is 0.
pub open spec fn is_stat_record(st: stat, mode: u32, size: i64, blocks: i64) -> bool {
    &&& st.st_dev == 0 && st.st_ino == 1 && st.st_nlink == 1
    &&& st.st_mode == mode && st.st_uid == 0 && st.st_gid == 0 && st.__pad0 == 0 && st.st_rdev == 0
    &&& st.st_size == size && st.st_blksize == STAT_BLOCK_BYTES && st.st_blocks == blocks
    &&& st.st_atime == 0 && st.st_atime_nsec == 0 && st.st_mtime == 0 && st.st_mtime_nsec == 0
    &&& st.st_ctime == 0 && st.st_ctime_nsec == 0
    &&& st.__unused@ == seq![0i64, 0, 0]
}

fn stat_record(mode: u32, size: i64, blocks: i64) -> (st: stat)
    ensures
        is_stat_record(st, mode, size, blocks),
{
    let st = stat {
        st_dev: 0,
        st_ino: 1,
        st_nlink: 1,
        st_mode: mode,
        st_uid: 0,
        st_gid: 0,
        __pad0: 0,
        st_rdev: 0,
        st_size: size,
        st_blksize: STAT_BLOCK_BYTES,
        st_blocks: blocks,
        st_atime: 0,
        st_atime_nsec: 0,
        st_mtime: 0,
        st_mtime_nsec: 0,
        st_ctime: 0,
        st_ctime_nsec: 0,
        __unused: [0, 0, 0],
    };
    assert(st.__unused@ =~= seq![0i64, 0, 0]);
    st
}

/// The record `fstat` writes: any descriptor in range gets a regular file of one block;
/// one out of range (of `fd_count` descriptors) is `EBADF`.
pub fn sys_fstat(fd_count: usize, fd_arg: u64) -> (r: Result<stat, i64>)
    ensures
        ({
            let fd = (fd_arg as i32) as int;
            if 0 <= fd < fd_count {
                r matches Ok(st) && is_stat_record(st, S_IFREG_RW, 4096, 1)
            } else {
                r == Err::<stat, i64>(EBADF)
            }
        }),
{
    let fd = fd_arg as i32;
    if fd < 0 || fd as usize >= fd_count {
        return Err(EBADF);
    }
    Ok(stat_record(S_IFREG_RW, 4096, 1))
}

/// The record `stat` writes for a node of the file system: a directory or a regular file,
/// its size, and its size in 4096-byte blocks rounded up.
pub fn sys_stat(is_directory: bool, size: u64) -> (st: stat)
    requires
        size <= u64::MAX - 4095,
    ensures
        is_stat_record(
            st,
            if is_directory { S_IFDIR_RWX } else { S_IFREG_RW },
            size as i64,
            ((size + 4095) / 4096) as i64,
        ),
{
    let mode = if is_directory { S_IFDIR_RWX } else { S_IFREG_RW };
    stat_record(mode, size as i64, ((size + 4095) / 4096) as i64)
}

/// A point in time as `clock_gettime` reports it.
#[derive(Copy, Clone, Debug, PartialEq, Eq, Structural)]
pub struct LinuxTimespec {
    pub tv_sec: i64,
    pub tv_nsec: i64,
}

pub const NANOS_PER_SECOND: u64 = 1_000_000_000;

/// The time `clock_gettime` reports for the realtime and monotonic clocks, both the time
/// since boot; any other clock is `EINVAL`.
pub fn linux_clock_gettime(clock_arg: u64, uptime_ns: u64) -> (r: Result<LinuxTimespec, i64>)
    ensures
        ({
            let clock = clock_arg as i32;
            if clock != LINUX_CLOCK_REALTIME && clock != LINUX_CLOCK_MONOTONIC {
                r == Err::<LinuxTimespec, i64>(EINVAL)
            } else {
                r == Ok::<LinuxTimespec, i64>(
                    LinuxTimespec {
                        tv_sec: (uptime_ns / NANOS_PER_SECOND) as i64,
                        tv_nsec: (uptime_ns % NANOS_PER_SECOND) as i64,
                    },
                )
            }
        }),
{
    let clock = clock_arg as i32;
    if clock != LINUX_CLOCK_REALTIME && clock != LINUX_CLOCK_MONOTONIC {
        return Err(EINVAL);
    }
    Ok(
        LinuxTimespec {
            tv_sec: (uptime_ns / NANOS_PER_SECOND) as i64,
            tv_nsec: (uptime_ns % NANOS_PER_SECOND) as i64,
        },
    )
}

/// `arch_prctl`: setting the FS base succeeds and gives the value for the FS-base register;
/// every other code is `EINVAL`.
pub fn sys_arch_prctl(code: u64, addr: u64) -> (r: (SyscallOutcome, Option<u64>))
    ensures
        code == ARCH_SET_FS ==> r == (ok_outcome(0), Some(addr)),
        code != ARCH_SET_FS ==> r == (err_outcome(EINVAL), None::<u64>),
{
    if code == ARCH_SET_FS {
        (SyscallOutcome::success(0), Some(addr))
    } else {
        (SyscallOutcome::errno(EINVAL), None)
    }
}

pub const GETRANDOM_MAX_BYTES: usize = 256;

/// The bytes `getrandom` hands out: byte `i` is `37 i + 13` modulo 256, at most 256 of them.
pub open spec fn getrandom_bytes(len: u64) -> Seq<u8> {
    let n: nat = if len < GETRANDOM_MAX_BYTES { len as nat } else { GETRANDOM_MAX_BYTES as nat };
    Seq::new(n, |i: int| ((37 * i + 13) % 256) as u8)
}

pub fn sys_getrandom(len: u64) -> (r: Vec<u8>)
    ensures
        r@ == getrandom_bytes(len),
{
    let copy_len: usize = if len < GETRANDOM_MAX_BYTES as u64 { len as usize } else { GETRANDOM_MAX_BYTES };
    let mut buf: Vec<u8> = Vec::new();
    let mut i: usize = 0;
    while i < copy_len
        invariant
            i <= copy_len,
            copy_len <= GETRANDOM_MAX_BYTES,
            copy_len == (if len < GETRANDOM_MAX_BYTES { len as nat } else { GETRANDOM_MAX_BYTES as nat }),
            buf@ == Seq::new(i as nat, |k: int| ((37 * k + 13) % 256) as u8),
        decreases copy_len - i,
    {
        let b: u8 = (i as u8).wrapping_mul(37).wrapping_add(13);
        proof {
            let x = i as u8;
            assert(x == i) by {
                assert(i < 256);
            }
            assert(((x as int * 37) % 256) as u8 == x.wrapping_mul(37));
            assert(b == ((37 * i + 13) % 256) as u8) by (nonlinear_arith)
                requires
                    b == ((((x as int * 37) % 256) + 13) % 256) as u8,
                    x == i,
                    0 <= i < 256,
            ;
        }
        buf.push(b);
        i = i + 1;
        assert(buf@ =~= Seq::new(i as nat, |k: int| ((37 * k + 13) % 256) as u8));
    }
    buf
}

/// `fork`: the child's process id, or `ENOSYS` when the scheduler could not fork.
pub fn sys_fork(child: Option<u64>) -> (r: SyscallOutcome)
    ensures
        r == (match child {
            Some(pid) => ok_outcome(pid as i64),
            None => err_outcome(ENOSYS),
        }),
{
    match child {
        Some(pid) => SyscallOutcome::success(pid as i64),
        None => SyscallOutcome::errno(ENOSYS),
    }
}

/// `wait4` serves only "any child" (-1); every other target is `ENOSYS`.
pub fn wait4_target_supported(pid_arg: u64) -> (r: bool)
    ensures
        r == ((pid_arg as i64) == -1),
{
    (pid_arg as i64) == -1
}

pub const WNOHANG: u32 = 1;

/// `wait4`: a target other than "any child" (-1) is `ENOSYS`. Otherwise, once the scheduler
/// tried to reap a child: a reaped child's id, with its status
/// shifted into the wait-status word when the caller gave a place for it; no children at
/// all is `ENOENT`; live children give 0 with `WNOHANG`, else the thread yields.
pub fn sys_wait4(pid_arg: u64, status_ptr: u64, options: u32, reaped: Result<(u64, i32), bool>) -> (r: (SyscallOutcome, Option<i32>))
    ensures
        (pid_arg as i64) != -1 ==> r == (err_outcome(ENOSYS), None::<i32>),
        (pid_arg as i64) == -1 ==> r == (match reaped {
            Ok((pid, status)) => (ok_outcome(pid as i64), if status_ptr != 0 { Some(status << 8u32) } else { None }),
            Err(has_children) => if !has_children {
                (err_outcome(ENOENT), None::<i32>)
            } else if options & WNOHANG != 0 {
                (ok_outcome(0), None::<i32>)
            } else {
                (SyscallOutcome { value: 0, action: SyscallAction::YieldThread }, None::<i32>)
            },
        }),
{
    if !wait4_target_supported(pid_arg) {
        return (SyscallOutcome::errno(ENOSYS), None);
    }
    match reaped {
        Ok((pid, status)) => {
            let word = if status_ptr != 0 { Some(status << 8u32) } else { None };
            (SyscallOutcome::success(pid as i64), word)
        },
        Err(has_children) => {
            if !has_children {
                (SyscallOutcome::errno(ENOENT), None)
            } else if options & WNOHANG != 0 {
                (SyscallOutcome::success(0), None)
            } else {
                (SyscallOutcome::yield_thread(), None)
            }
        },
    }
}

/// An id or a time handed back as the call's value; one past `i64::MAX` is `ERANGE`.
pub fn value_outcome(value: u64) -> (r: SyscallOutcome)
    ensures
        value <= i64::MAX ==> r == ok_outcome(value as i64),
        value > i64::MAX ==> r == err_outcome(ERANGE),
{
    if value <= i64::MAX as u64 {
        SyscallOutcome::success(value as i64)
    } else {
        SyscallOutcome::errno(ERANGE)
    }
}

/// Queues a task for the lane in the argument's low byte: its id, or `EIO` when the queue
/// is full.
pub fn sys_heterexec_submit(sched: &mut crate::hsched::HeterogeneousScheduler, target: u8) -> (r: SyscallOutcome)
    requires
        old(sched).wf(),
    ensures
        final(sched).wf(),
        old(sched).shared_buffer.view().len() < 16 ==> r == ok_outcome(old(sched).next_id as i64)
            && final(sched).shared_buffer.view() == old(sched).shared_buffer.view().push(
            crate::hsched::encoded(old(sched).next_id, target),
        ),
        old(sched).shared_buffer.view().len() == 16 ==> r == err_outcome(EIO)
            && final(sched).shared_buffer.view() == old(sched).shared_buffer.view(),
{
    match sched.submit_workload(crate::hsched::WorkloadType::DirectTarget(target)) {
        Ok(task_id) => SyscallOutcome::success(task_id as i64),
        Err(_) => SyscallOutcome::errno(EIO),
    }
}

/// Polls the task queue: task 0 asks for both positions, the head in the high half and the
/// low 32 bits of the tail in the low half; any other id is done (1) once the head has
/// reached it, else 0.
pub fn sys_heterexec_poll(task_id: u32, head: usize, tail: usize) -> (r: SyscallOutcome)
    ensures
        task_id == 0 ==> r == ok_outcome(((head as i64) << 32u64) | ((tail as i64) & 0xFFFF_FFFFi64)),
        task_id != 0 ==> r == ok_outcome(if task_id as int <= head as int { 1i64 } else { 0i64 }),
{
    if task_id == 0 {
        SyscallOutcome::success(((head as i64) << 32u64) | ((tail as i64) & 0xFFFF_FFFFi64))
    } else {
        let completed: i64 = if (task_id as usize) <= head { 1 } else { 0 };
        SyscallOutcome::success(completed)
    }
}

/// The words `lcl_receive` hands to the daemon for a message: the number, the six
/// arguments, the process, the thread and the ABI tag.
pub open spec fn lcl_words(m: LclMessage) -> Seq<u64> {
    seq![m.number, m.args@[0], m.args@[1], m.args@[2], m.args@[3], m.args@[4], m.args@[5], m.pid, m.tid, m.abi]
}

/// Takes the oldest waiting call off the queue and lays it out as ten words.
pub fn lcl_receive(queue: &mut LclQueue) -> (r: Option<[u64; 10]>)
    requires
        old(queue).wf(),
    ensures
        final(queue).wf(),
        old(queue).count() == 0 ==> r is None && final(queue).pending() == old(queue).pending(),
        old(queue).count() > 0 ==> (r matches Some(words) && words@ == lcl_words(old(queue).pending()[0])
            && final(queue).pending() == old(queue).pending().drop_first()),
{
    match queue.dequeue_lcl_message() {
        Some(msg) => {
            let data: [u64; 10] = [
                msg.number,
                msg.args[0],
                msg.args[1],
                msg.args[2],
                msg.args[3],
                msg.args[4],
                msg.args[5],
                msg.pid,
                msg.tid,
                msg.abi,
            ];
            assert(data@ =~= lcl_words(msg));
            Some(data)
        },
        None => {
            assert(queue.pending() =~= old(queue).pending());
            None
        },
    }
}

/// The answer to the daemon's `lcl_return` once the scheduler tried to wake the thread.
pub fn lcl_return(woken: bool) -> (r: SyscallOutcome)
    ensures
        r == (if woken { ok_outcome(0) } else { err_outcome(EINVAL) }),
{
    if woken {
        SyscallOutcome::success(0)
    } else {
        SyscallOutcome::errno(EINVAL)
    }
}

pub const UTS_FIELD_BYTES: usize = 65;

/// The six NUL-terminated fields `uname` fills in.
pub struct LinuxUtsName {
    pub sysname: Vec<u8>,
    pub nodename: Vec<u8>,
    pub release: Vec<u8>,
    pub version: Vec<u8>,
    pub machine: Vec<u8>,
    pub domainname: Vec<u8>,
}

/// A field holding `value`, cut to 64 bytes, then zeros.
pub open spec fn uts_field(value: Seq<u8>) -> Seq<u8> {
    let n: int = if value.len() < UTS_FIELD_BYTES - 1 { value.len() as int } else { UTS_FIELD_BYTES - 1 };
    Seq::new(UTS_FIELD_BYTES as nat, |i: int| if i < n { value[i] } else { 0u8 })
}

/// `field` after `value` is written in: its first bytes, cut so that a NUL still fits,
/// then the NUL; what lies beyond is kept.
pub open spec fn uts_field_written(field: Seq<u8>, value: Seq<u8>) -> Seq<u8> {
    let n: int = if value.len() < field.len() - 1 { value.len() as int } else { field.len() - 1 };
    Seq::new(field.len(), |i: int| if i < n { value[i] } else if i == n { 0u8 } else { field[i] })
}

pub fn write_uts_field(field: &mut Vec<u8>, value: &[u8])
    requires
        old(field)@.len() == UTS_FIELD_BYTES,
    ensures
        final(field)@ == uts_field_written(old(field)@, value@),
{
    let copy_len = if value.len() < field.len() - 1 { value.len() } else { field.len() - 1 };
    let ghost f0 = field@;
    let mut i: usize = 0;
    while i < copy_len
        invariant
            f0.len() == UTS_FIELD_BYTES,
            copy_len == (if value@.len() < f0.len() - 1 { value@.len() as int } else { f0.len() - 1 }),
            i <= copy_len,
            field@.len() == f0.len(),
            forall|k: int| 0 <= k < field@.len() ==> #[trigger] field@[k] == (if k < i { value@[k] } else { f0[k] }),
        decreases copy_len - i,
    {
        field.set(i, value[i]);
        i = i + 1;
    }
    field.set(copy_len, 0);
    assert(field@ =~= uts_field_written(f0, value@));
}

fn zero_field() -> (r: Vec<u8>)
    ensures
        r@ == Seq::new(UTS_FIELD_BYTES as nat, |i: int| 0u8),
{
    let mut v: Vec<u8> = Vec::new();
    let mut i: usize = 0;
    while i < UTS_FIELD_BYTES
        invariant
            i <= UTS_FIELD_BYTES,
            v@ == Seq::new(i as nat, |k: int| 0u8),
        decreases UTS_FIELD_BYTES - i,
    {
        v.push(0);
        i = i + 1;
        assert(v@ =~= Seq::new(i as nat, |k: int| 0u8));
    }
    v
}

proof fn lemma_zero_field_written(value: Seq<u8>)
    ensures
        uts_field_written(Seq::new(UTS_FIELD_BYTES as nat, |i: int| 0u8), value) == uts_field(value),
{
    assert(uts_field_written(Seq::new(UTS_FIELD_BYTES as nat, |i: int| 0u8), value) =~= uts_field(value));
}

impl LinuxUtsName {
    pub open spec fn holds(&self, sysname: Seq<u8>, nodename: Seq<u8>, release: Seq<u8>, version: Seq<u8>, machine: Seq<u8>, domainname: Seq<u8>) -> bool {
        &&& self.sysname@ == uts_field(sysname)
        &&& self.nodename@ == uts_field(nodename)
        &&& self.release@ == uts_field(release)
        &&& self.version@ == uts_field(version)
        &&& self.machine@ == uts_field(machine)
        &&& self.domainname@ == uts_field(domainname)
    }
}

/// The record `uname` writes: each field holds its text, cut to 64 bytes and NUL-padded.
pub fn write_uname(sysname: &str, nodename: &str, release: &str, version: &str, machine: &str, domainname: &str) -> (u: LinuxUtsName)
    ensures
        u.holds(sysname.spec_bytes(), nodename.spec_bytes(), release.spec_bytes(), version.spec_bytes(), machine.spec_bytes(), domainname.spec_bytes()),
{
    let mut u = LinuxUtsName {
        sysname: zero_field(),
        nodename: zero_field(),
        release: zero_field(),
        version: zero_field(),
        machine: zero_field(),
        domainname: zero_field(),
    };
    write_uts_field(&mut u.sysname, sysname.as_bytes());
    write_uts_field(&mut u.nodename, nodename.as_bytes());
    write_uts_field(&mut u.release, release.as_bytes());
    write_uts_field(&mut u.version, version.as_bytes());
    write_uts_field(&mut u.machine, machine.as_bytes());
    write_uts_field(&mut u.domainname, domainname.as_bytes());
    proof {
        lemma_zero_field_written(sysname.spec_bytes());
        lemma_zero_field_written(nodename.spec_bytes());
        lemma_zero_field_written(release.spec_bytes());
        lemma_zero_field_written(version.spec_bytes());
        lemma_zero_field_written(machine.spec_bytes());
        lemma_zero_field_written(domainname.spec_bytes());
    }
    u
}

/// ASCII text as bytes.
pub open spec fn ascii_bytes(s: Seq<char>) -> Seq<u8> {
    Seq::new(s.len(), |i: int| s[i] as u8)
}

/// The identity the Linux ABI reports.
pub fn linux_uname() -> (u: LinuxUtsName)
    ensures
        u.holds(ascii_bytes("Linux"@), ascii_bytes("hxnu"@), ascii_bytes("0.1.0-hxnu"@), ascii_bytes(
            "HXNU micro-hybrid kernel bootstrap"@,
        ), ascii_bytes("x86_64"@), ascii_bytes("localdomain"@)),
{
    proof {
        reveal_strlit("Linux");
        reveal_strlit("hxnu");
        reveal_strlit("0.1.0-hxnu");
        reveal_strlit("HXNU micro-hybrid kernel bootstrap");
        reveal_strlit("x86_64");
        reveal_strlit("localdomain");
        broadcast use vstd::string::is_ascii_spec_bytes;
        assert(vstd::string::is_ascii("Linux"));
        assert(vstd::string::is_ascii("hxnu"));
        assert(vstd::string::is_ascii("0.1.0-hxnu"));
        assert(vstd::string::is_ascii("HXNU micro-hybrid kernel bootstrap"));
        assert(vstd::string::is_ascii("x86_64"));
        assert(vstd::string::is_ascii("localdomain"));
    }
    write_uname("Linux", "hxnu", "0.1.0-hxnu", "HXNU micro-hybrid kernel bootstrap", "x86_64", "localdomain")
}

/// The identity the ghost ABI reports.
pub fn ghost_uname() -> (u: LinuxUtsName)
    ensures
        u.holds(ascii_bytes("Ghost"@), ascii_bytes("hxnu"@), ascii_bytes("0.1.0-ghost"@), ascii_bytes(
            "HXNU ghost compatibility bootstrap"@,
        ), ascii_bytes("x86_64"@), ascii_bytes("legacy"@)),
{
    proof {
        reveal_strlit("Ghost");
        reveal_strlit("hxnu");
        reveal_strlit("0.1.0-ghost");
        reveal_strlit("HXNU ghost compatibility bootstrap");
        reveal_strlit("x86_64");
        reveal_strlit("legacy");
        broadcast use vstd::string::is_ascii_spec_bytes;
        assert(vstd::string::is_ascii("Ghost"));
        assert(vstd::string::is_ascii("hxnu"));
        assert(vstd::string::is_ascii("0.1.0-ghost"));
        assert(vstd::string::is_ascii("HXNU ghost compatibility bootstrap"));
        assert(vstd::string::is_ascii("x86_64"));
        assert(vstd::string::is_ascii("legacy"));
    }
    write_uname("Ghost", "hxnu", "0.1.0-ghost", "HXNU ghost compatibility bootstrap", "x86_64", "legacy")
}

/// How many bytes of `field` come before its first NUL, up to `cap` and the field's end.
pub open spec fn c_prefix_len(field: Seq<u8>, cap: int, k: int) -> bool {
    &&& 0 <= k <= cap
    &&& k <= field.len()
    &&& forall|i: int| 0 <= i < k ==> #[trigger] field[i] != 0
    &&& (k < cap && k < field.len() ==> field[k] == 0)
}

/// Copies the text of a NUL-terminated field into `output`, as far as it fits; returns its
/// length.
pub fn copy_c_field_prefix(output: &mut Vec<u8>, field: &[u8]) -> (r: usize)
    ensures
        c_prefix_len(field@, old(output)@.len() as int, r as int),
        final(output)@.len() == old(output)@.len(),
        final(output)@ == field@.subrange(0, r as int) + old(output)@.subrange(r as int, old(output)@.len() as int),
{
    let ghost o0 = output@;
    let mut length: usize = 0;
    while length < output.len() && length < field.len()
        invariant_except_break
            length <= output@.len(),
            length <= field@.len(),
            output@.len() == o0.len(),
            forall|i: int| 0 <= i < length ==> #[trigger] field@[i] != 0,
            output@ == field@.subrange(0, length as int) + o0.subrange(length as int, o0.len() as int),
        ensures
            c_prefix_len(field@, o0.len() as int, length as int),
            output@.len() == o0.len(),
            output@ == field@.subrange(0, length as int) + o0.subrange(length as int, o0.len() as int),
        decreases field.len() - length,
    {
        let byte = field[length];
        if byte == 0 {
            break;
        }
        output.set(length, byte);
        length = length + 1;
        assert(output@ =~= field@.subrange(0, length as int) + o0.subrange(length as int, o0.len() as int));
    }
    length
}

/// The text of `bytes[..len]`, or `<invalid>` when it is not UTF-8.
pub fn machine_str(bytes: &[u8], len: usize) -> (r: Vec<char>)
    requires
        len <= bytes@.len(),
    ensures
        r@ == (match utf8_decode(bytes@.subrange(0, len as int)) {
            Some(text) => text,
            None => "<invalid>"@,
        }),
{
    let mut prefix: Vec<u8> = Vec::new();
    let mut i: usize = 0;
    while i < len
        invariant
            len <= bytes@.len(),
            i <= len,
            prefix@ == bytes@.subrange(0, i as int),
        decreases len - i,
    {
        prefix.push(bytes[i]);
        i = i + 1;
        assert(prefix@ =~= bytes@.subrange(0, i as int));
    }
    match decode_utf8(prefix.as_slice()) {
        Some(text) => text,
        None => {
            proof {
                reveal_strlit("<invalid>");
            }
            let v: Vec<char> = vec!['<', 'i', 'n', 'v', 'a', 'l', 'i', 'd', '>'];
            assert(v@ =~= "<invalid>"@);
            v
        },
    }
}

/// What the Linux bootstrap probe saw of each call.
pub struct LinuxBootstrapProbe {
    pub write_result: i64,
    pub openat_result: i64,
    pub read_result: i64,
    pub close_result: i64,
    pub getpid_result: i64,
    pub getppid_result: i64,
    pub gettid_result: i64,
    pub sched_yield_result: i64,
    pub clock_gettime_result: i64,
    pub clock_seconds: i64,
    pub clock_nanoseconds: i64,
    pub uname_result: i64,
    pub exit_group_captured: bool,
    pub exit_group_status: i32,
    pub machine_bytes: Vec<u8>,
    pub machine_len: usize,
}

pub const PROBE_MACHINE_BYTES: usize = 16;

/// The machine name a probe keeps: the text of the `machine` field, at most 16 bytes.
pub open spec fn probe_machine(field: Seq<u8>) -> Seq<u8> {
    let k = choose|k: int| c_prefix_len(field, PROBE_MACHINE_BYTES as int, k);
    field.subrange(0, k)
}

fn machine_prefix(field: &[u8]) -> (r: (Vec<u8>, usize))
    ensures
        r.0@.len() == PROBE_MACHINE_BYTES,
        c_prefix_len(field@, PROBE_MACHINE_BYTES as int, r.1 as int),
        r.0@.subrange(0, r.1 as int) == field@.subrange(0, r.1 as int),
{
    let mut bytes: Vec<u8> = Vec::new();
    let mut i: usize = 0;
    while i < PROBE_MACHINE_BYTES
        invariant
            i <= PROBE_MACHINE_BYTES,
            bytes@.len() == i,
        decreases PROBE_MACHINE_BYTES - i,
    {
        bytes.push(0);
        i = i + 1;
    }
    let len = copy_c_field_prefix(&mut bytes, field);
    assert(bytes@.subrange(0, len as int) =~= field@.subrange(0, len as int));
    (bytes, len)
}

proof fn lemma_c_prefix_unique(field: Seq<u8>, cap: int, a: int, b: int)
    requires
        c_prefix_len(field, cap, a),
        c_prefix_len(field, cap, b),
    ensures
        a == b,
{
    if a < b {
        assert(field[a] != 0);
    } else if b < a {
        assert(field[b] != 0);
    }
}

impl LinuxBootstrapProbe {
    /// The probe's record from the results of its calls, the clock reading, the outcome of
    /// `exit_group` and the `machine` field `uname` wrote.
    pub fn with_results(
        write_result: i64,
        openat_result: i64,
        read_result: i64,
        close_result: i64,
        getpid_result: i64,
        getppid_result: i64,
        gettid_result: i64,
        sched_yield_result: i64,
        clock_gettime_result: i64,
        clock: LinuxTimespec,
        uname_result: i64,
        exit_group: SyscallOutcome,
        uts_machine: &[u8],
    ) -> (p: Self)
        ensures
            p.write_result == write_result && p.openat_result == openat_result,
            p.read_result == read_result && p.close_result == close_result,
            p.getpid_result == getpid_result && p.getppid_result == getppid_result,
            p.gettid_result == gettid_result && p.sched_yield_result == sched_yield_result,
            p.clock_gettime_result == clock_gettime_result,
            p.clock_seconds == clock.tv_sec && p.clock_nanoseconds == clock.tv_nsec,
            p.uname_result == uname_result,
            (p.exit_group_captured, p.exit_group_status) == (match exit_group.action {
                SyscallAction::ExitGroup { status } => (true, status),
                _ => (false, 0i32),
            }),
            p.wf(),
            p.machine() == probe_machine(uts_machine@),
    {
        let (captured, status) = exit_status(exit_group);
        let (machine_bytes, machine_len) = machine_prefix(uts_machine);
        proof {
            lemma_c_prefix_unique(uts_machine@, PROBE_MACHINE_BYTES as int, machine_len as int,
                choose|k: int| c_prefix_len(uts_machine@, PROBE_MACHINE_BYTES as int, k));
        }
        LinuxBootstrapProbe {
            write_result,
            openat_result,
            read_result,
            close_result,
            getpid_result,
            getppid_result,
            gettid_result,
            sched_yield_result,
            clock_gettime_result,
            clock_seconds: clock.tv_sec,
            clock_nanoseconds: clock.tv_nsec,
            uname_result,
            exit_group_captured: captured,
            exit_group_status: status,
            machine_bytes,
            machine_len,
        }
    }

    pub open spec fn machine(&self) -> Seq<u8> {
        self.machine_bytes@.subrange(0, self.machine_len as int)
    }

    pub open spec fn wf(&self) -> bool {
        self.machine_len <= self.machine_bytes@.len()
    }

    /// The machine name as text, or `<invalid>`.
    pub fn machine_str(&self) -> (r: Vec<char>)
        requires
            self.wf(),
        ensures
            r@ == (match utf8_decode(self.machine()) {
                Some(text) => text,
                None => "<invalid>"@,
            }),
    {
        machine_str(self.machine_bytes.as_slice(), self.machine_len)
    }
}

/// What the ghost bootstrap probe saw of each call.
pub struct GhostBootstrapProbe {
    pub write_result: i64,
    pub open_result: i64,
    pub read_result: i64,
    pub close_result: i64,
    pub getpid_result: i64,
    pub gettid_result: i64,
    pub yield_result: i64,
    pub uptime_result: i64,
    pub uname_result: i64,
    pub exit_group_captured: bool,
    pub exit_group_status: i32,
    pub machine_bytes: Vec<u8>,
    pub machine_len: usize,
}

impl GhostBootstrapProbe {
    /// The probe's record from the results of its calls, the outcome of `exit_group` and the
    /// `machine` field `uname` wrote.
    pub fn with_results(
        write_result: i64,
        open_result: i64,
        read_result: i64,
        close_result: i64,
        getpid_result: i64,
        gettid_result: i64,
        yield_result: i64,
        uptime_result: i64,
        uname_result: i64,
        exit_group: SyscallOutcome,
        uts_machine: &[u8],
    ) -> (p: Self)
        ensures
            p.write_result == write_result && p.open_result == open_result,
            p.read_result == read_result && p.close_result == close_result,
            p.getpid_result == getpid_result && p.gettid_result == gettid_result,
            p.yield_result == yield_result && p.uptime_result == uptime_result,
            p.uname_result == uname_result,
            (p.exit_group_captured, p.exit_group_status) == (match exit_group.action {
                SyscallAction::ExitGroup { status } => (true, status),
                _ => (false, 0i32),
            }),
            p.wf(),
            p.machine() == probe_machine(uts_machine@),
    {
        let (captured, status) = exit_status(exit_group);
        let (machine_bytes, machine_len) = machine_prefix(uts_machine);
        proof {
            lemma_c_prefix_unique(uts_machine@, PROBE_MACHINE_BYTES as int, machine_len as int,
                choose|k: int| c_prefix_len(uts_machine@, PROBE_MACHINE_BYTES as int, k));
        }
        GhostBootstrapProbe {
            write_result,
            open_result,
            read_result,
            close_result,
            getpid_result,
            gettid_result,
            yield_result,
            uptime_result,
            uname_result,
            exit_group_captured: captured,
            exit_group_status: status,
            machine_bytes,
            machine_len,
        }
    }

    pub open spec fn machine(&self) -> Seq<u8> {
        self.machine_bytes@.subrange(0, self.machine_len as int)
    }

    pub open spec fn wf(&self) -> bool {
        self.machine_len <= self.machine_bytes@.len()
    }

    /// The machine name as text, or `<invalid>`.
    pub fn machine_str(&self) -> (r: Vec<char>)
        requires
            self.wf(),
        ensures
            r@ == (match utf8_decode(self.machine()) {
                Some(text) => text,
                None => "<invalid>"@,
            }),
    {
        machine_str(self.machine_bytes.as_slice(), self.machine_len)
    }
}

/// What the native bootstrap probe saw of each call.
#[derive(Copy, Clone, Debug)]
pub struct HxnuBootstrapProbe {
    pub write_result: i64,
    pub open_result: i64,
    pub read_result: i64,
    pub close_result: i64,
    pub process_self_result: i64,
    pub thread_self_result: i64,
    pub sched_yield_result: i64,
    pub uptime_result: i64,
    pub abi_version_result: i64,
    pub exit_group_captured: bool,
    pub exit_group_status: i32,
}

/// Checks the arguments of a read: the descriptor must fit an `i32` (`EBADF`), the count
/// no more than 64 KiB (`ERANGE`).
pub fn read_args(fd_arg: u64, count_arg: u64) -> (r: Result<(i32, usize), i64>)
    ensures
        fd_arg > i32::MAX ==> r == Err::<(i32, usize), i64>(EBADF),
        fd_arg <= i32::MAX && count_arg > MAX_READ_BYTES ==> r == Err::<(i32, usize), i64>(ERANGE),
        fd_arg <= i32::MAX && count_arg <= MAX_READ_BYTES ==> r == Ok::<(i32, usize), i64>(
            (fd_arg as i32, count_arg as usize),
        ),
{
    let fd = match parse_fd(fd_arg) {
        Ok(fd) => fd,
        Err(e) => return Err(e),
    };
    if count_arg > MAX_READ_BYTES as u64 {
        return Err(ERANGE);
    }
    Ok((fd, count_arg as usize))
}

/// Checks the length of a console write: more than 16 KiB is `ERANGE`; otherwise the
/// number of bytes that reach the console, at most 1024 (0 answers the call at once).
pub fn write_text(count: u64) -> (r: Result<usize, i64>)
    ensures
        count > MAX_WRITE_BYTES ==> r == Err::<usize, i64>(ERANGE),
        count <= MAX_WRITE_BYTES ==> r == Ok::<usize, i64>(
            (if count < WRITE_CHUNK_BYTES { count } else { WRITE_CHUNK_BYTES as u64 }) as usize,
        ),
{
    if count > MAX_WRITE_BYTES as u64 {
        return Err(ERANGE);
    }
    if count < WRITE_CHUNK_BYTES as u64 {
        Ok(count as usize)
    } else {
        Ok(WRITE_CHUNK_BYTES)
    }
}

/// A write through a descriptor: only standard output and standard error (`EBADF`), then as
/// `write_text`.
pub fn write_with_fd(fd: u64, count: u64) -> (r: Result<usize, i64>)
    ensures
        fd != STDOUT_FD && fd != STDERR_FD ==> r == Err::<usize, i64>(EBADF),
        fd == STDOUT_FD || fd == STDERR_FD ==> r == (if count > MAX_WRITE_BYTES {
            Err::<usize, i64>(ERANGE)
        } else {
            Ok::<usize, i64>((if count < WRITE_CHUNK_BYTES { count } else { WRITE_CHUNK_BYTES as u64 }) as usize)
        }),
{
    if fd != STDOUT_FD && fd != STDERR_FD {
        return Err(EBADF);
    }
    write_text(count)
}

/// What reaches the console of written bytes: their text, or nothing when they are not
/// UTF-8.
pub fn console_text(bytes: &[u8]) -> (r: Vec<char>)
    ensures
        r@ == (match utf8_decode(bytes@) {
            Some(text) => text,
            None => Seq::<char>::empty(),
        }),
{
    match decode_utf8(bytes) {
        Some(text) => text,
        None => Vec::new(),
    }
}

/// The path an open resolves to: an absolute path stays, a relative one is taken from the
/// root when `dirfd` is the working directory (other directories are `ENOSYS`). A path
/// that is empty or not UTF-8, before or after, is `EINVAL`.
pub open spec fn resolved_path(dirfd: i64, raw: Seq<u8>) -> Result<Seq<u8>, i64> {
    if utf8_decode(raw) is None || raw.len() == 0 {
        Err(EINVAL)
    } else {
        let resolved = if raw[0] == 47u8 {
            Some(raw.take(if raw.len() < MAX_PATH_BYTES { raw.len() as int } else { MAX_PATH_BYTES as int }))
        } else if dirfd == AT_FDCWD {
            Some(seq![47u8] + raw.take(if raw.len() < MAX_PATH_BYTES - 1 { raw.len() as int } else { MAX_PATH_BYTES - 1 }))
        } else {
            None
        };
        match resolved {
            None => Err(ENOSYS),
            Some(p) => if utf8_decode(p) is None { Err(EINVAL) } else { Ok(p) },
        }
    }
}

pub fn resolve_open_path(dirfd: i64, raw: &[u8]) -> (r: Result<Vec<u8>, i64>)
    ensures
        match resolved_path(dirfd, raw@) {
            Ok(p) => r matches Ok(v) && v@ == p,
            Err(e) => r == Err::<Vec<u8>, i64>(e),
        },
{
    if decode_utf8(raw).is_none() {
        return Err(EINVAL);
    }
    if raw.len() == 0 {
        return Err(EINVAL);
    }
    let mut resolved: Vec<u8> = Vec::new();
    let limit: usize;
    let mut i: usize = 0;
    if raw[0] == 47u8 {
        limit = if raw.len() < MAX_PATH_BYTES { raw.len() } else { MAX_PATH_BYTES };
    } else if dirfd == AT_FDCWD {
        resolved.push(47u8);
        limit = if raw.len() < MAX_PATH_BYTES - 1 { raw.len() } else { MAX_PATH_BYTES - 1 };
    } else {
        return Err(ENOSYS);
    }
    let ghost start = resolved@;
    while i < limit
        invariant
            limit <= raw@.len(),
            i <= limit,
            resolved@ == start + raw@.take(i as int),
        decreases limit - i,
    {
        resolved.push(raw[i]);
        i = i + 1;
        assert(resolved@ =~= start + raw@.take(i as int));
    }
    proof {
        if raw@[0] == 47u8 {
            assert(resolved@ =~= raw@.take(limit as int));
        }
    }
    if decode_utf8(resolved.as_slice()).is_none() {
        return Err(EINVAL);
    }
    Ok(resolved)
}

/// `spawn` reads an argument vector only when one is given with 1 to 16 entries.
pub fn spawn_reads_argv(argv_ptr: u64, argc: u64) -> (r: bool)
    ensures
        r == (argv_ptr != 0 && argc > 0 && argc <= 16),
{
    argv_ptr != 0 && argc > 0 && argc <= 16
}

pub const PAGE_BYTES: u64 = 4096;

/// `x` rounded up to a page boundary.
pub open spec fn page_round_up(x: u64) -> u64 {
    ((x + 4095) as u64) & !4095u64
}

/// The program break.
pub struct BrkState {
    pub current: u64,
}

pub const INITIAL_BRK: u64 = 0x0000_6000_0000_0000;

impl BrkState {
    pub open spec fn wf(&self) -> bool {
        self.current <= u64::MAX - 4095
    }

    pub fn new() -> (b: Self)
        ensures
            b.current == INITIAL_BRK,
            b.wf(),
    {
        BrkState { current: INITIAL_BRK }
    }

    /// `brk`: 0, or a break not above the current one, reports the current break. A higher
    /// one becomes the break; when it reaches a new page, the pages from the current
    /// break's page boundary up to the new one's are returned, to be backed by zeroed frames.
    pub fn sys_brk(&mut self, new_brk: u64) -> (r: (SyscallOutcome, Option<(u64, u64)>))
        requires
            old(self).wf(),
            new_brk <= u64::MAX - 4095,
        ensures
            final(self).wf(),
            new_brk == 0 || new_brk <= old(self).current ==> final(self).current == old(self).current
                && r == (ok_outcome(old(self).current as i64), None::<(u64, u64)>),
            !(new_brk == 0 || new_brk <= old(self).current) ==> final(self).current == new_brk
                && r.0 == ok_outcome(new_brk as i64) && r.1 == (if page_round_up(new_brk) > page_round_up(
                old(self).current,
            ) {
                Some((page_round_up(old(self).current), page_round_up(new_brk)))
            } else {
                None
            }),
    {
        if new_brk == 0 || new_brk <= self.current {
            return (SyscallOutcome::success(self.current as i64), None);
        }
        let old_page = (self.current + 4095) & !4095u64;
        let new_page = (new_brk + 4095) & !4095u64;
        self.current = new_brk;
        let pages = if new_page > old_page { Some((old_page, new_page)) } else { None };
        (SyscallOutcome::success(new_brk as i64), pages)
    }
}

/// Where anonymous mappings go when the caller gives no usable address.
pub struct MmapState {
    pub next: u64,
}

pub const INITIAL_MMAP_BASE: u64 = 0x0000_7000_0000_0000;
pub const MMAP_HINT_FLOOR: u64 = 0x0000_0001_0000_0000;

/// The mapping `mmap` makes: its address and its length in whole pages.
pub open spec fn mmap_choice(next: u64, hint: u64, aligned: u64) -> (u64, u64) {
    if hint >= MMAP_HINT_FLOOR && hint & 4095 == 0 {
        (hint, next)
    } else {
        (next, (next + aligned) as u64)
    }
}

impl MmapState {
    pub fn new() -> (m: Self)
        ensures
            m.next == INITIAL_MMAP_BASE,
    {
        MmapState { next: INITIAL_MMAP_BASE }
    }

    /// `mmap`: a zero length is `EINVAL`. The length is rounded up to pages; a page-aligned
    /// hint from 4 GiB on is taken as it is, otherwise the mapping goes at the next free
    /// address, which moves on past it. Returns the address and the rounded length.
    pub fn sys_mmap(&mut self, hint: u64, length: u64) -> (r: Result<(u64, u64), i64>)
        requires
            length <= u64::MAX - 4095,
            !(hint >= MMAP_HINT_FLOOR && hint & 4095 == 0) ==> old(self).next + page_round_up(length)
                <= u64::MAX,
        ensures
            length == 0 ==> r == Err::<(u64, u64), i64>(EINVAL) && final(self).next == old(self).next,
            length != 0 ==> ({
                let (addr, next) = mmap_choice(old(self).next, hint, page_round_up(length));
                r == Ok::<(u64, u64), i64>((addr, page_round_up(length))) && final(self).next == next
            }),
    {
        if length == 0 {
            return Err(EINVAL);
        }
        let aligned = (length + 4095) & !4095u64;
        let addr = if hint >= MMAP_HINT_FLOOR && hint & 4095 == 0 {
            hint
        } else {
            let v = self.next;
            self.next = self.next + aligned;
            v
        };
        Ok((addr, aligned))
    }
}

/// A freshly opened file reads back its contents from the start: at most `count` bytes,
/// and no more than the 4096 that fit its buffer.
pub proof fn lemma_read_after_open(path: Seq<u8>, content: Seq<u8>, count: nat)
    requires
        content.len() <= usize::MAX,
    ensures
        read_bytes(OpenFileView::opened(path, content), count) == content.take(
            if count < content.len() && count < OPEN_FILE_CONTENT_BYTES {
                count as int
            } else if content.len() < OPEN_FILE_CONTENT_BYTES {
                content.len() as int
            } else {
                OPEN_FILE_CONTENT_BYTES as int
            },
        ),
{
    let f = OpenFileView::opened(path, content);
    let n: int = if count < content.len() && count < OPEN_FILE_CONTENT_BYTES {
        count as int
    } else if content.len() < OPEN_FILE_CONTENT_BYTES {
        content.len() as int
    } else {
        OPEN_FILE_CONTENT_BYTES as int
    };
    assert(read_bytes(f, count) =~= content.take(n));
}

/// Two reads in a row, the second from where the first left off, give what one read of
/// both counts gives.
pub proof fn lemma_reads_are_consecutive(f: OpenFileView, a: nat, b: nat)
    requires
        f.wf(),
        f.offset <= f.content_len,
    ensures
        read_bytes(f, a) + read_bytes(f.with_offset((f.offset + read_bytes(f, a).len()) as usize), b)
            == read_bytes(f, a + b),
{
    let first = read_bytes(f, a);
    let g = f.with_offset((f.offset + first.len()) as usize);
    assert(first + read_bytes(g, b) =~= read_bytes(f, a + b));
}

/// Closing the only descriptor of a file frees its slot.
pub proof fn lemma_close_frees_last_reference(t: Seq<Option<OpenFileView>>, g: int, path: Seq<u8>, content: Seq<u8>)
    requires
        0 <= g < t.len(),
    ensures
        release(t.update(g, Some(OpenFileView::opened(path, content))), g) == t.update(g, None),
{
    assert(release(t.update(g, Some(OpenFileView::opened(path, content))), g) =~= t.update(g, None));
}

/// A duplicated descriptor closed again leaves the system table as it was.
pub proof fn lemma_dup_then_close_restores(t: Seq<Option<OpenFileView>>, g: int)
    requires
        0 <= g < t.len(),
        t[g] matches Some(f) && 0 < f.ref_count < usize::MAX,
    ensures
        release(add_ref_spec(t, g), g) == t,
{
    assert(release(add_ref_spec(t, g), g) =~= t);
}

/// Seeking to offset 0 makes the next read start over.
pub proof fn lemma_rewind_rereads(f: OpenFileView, count: nat)
    requires
        f.wf(),
    ensures
        lseek_target(f, 0, 0) == Some(0int),
        read_bytes(f.with_offset(0), count) == f.content.take(
            if count < f.content_len { count as int } else { f.content_len as int },
        ),
{
    assert(read_bytes(f.with_offset(0), count) =~= f.content.take(
        if count < f.content_len { count as int } else { f.content_len as int },
    ));
}

/// The bytes of the first line of `b` and whether a line feed ended it.
pub open spec fn first_newline(b: Seq<u8>) -> Option<int> {
    if exists|i: int| 0 <= i < b.len() && b[i] == 10u8 {
        Some(choose|i: int| 0 <= i < b.len() && b[i] == 10u8 && forall|j: int| 0 <= j < i ==> b[j] != 10u8)
    } else {
        None
    }
}

/// The lines of UTF-8 text as the standard library splits them: at each line feed, with a
/// carriage return before it dropped; a last line without a line feed is kept as it is,
/// and nothing follows a final line feed.
#[verifier::opaque]
pub open spec fn text_lines(b: Seq<u8>) -> Seq<Seq<u8>>
    decreases b.len(),
{
    if b.len() == 0 {
        Seq::empty()
    } else {
        match first_newline(b) {
            None => seq![b],
            Some(i) => {
                let line = b.subrange(0, i);
                let line = if line.len() > 0 && line.last() == 13u8 { line.drop_last() } else { line };
                if 0 <= i < b.len() { seq![line] + text_lines(b.subrange(i + 1, b.len() as int)) } else { Seq::empty() }
            },
        }
    }
}

/// How many bytes of white space (in the Unicode sense) start `b`, one character's worth.
pub open spec fn lead_space(b: Seq<u8>) -> int {
    if b.len() >= 1 && ((9 <= b[0] && b[0] <= 13) || b[0] == 32) {
        1
    } else if b.len() >= 2 && b[0] == 0xC2 && (b[1] == 0x85 || b[1] == 0xA0) {
        2
    } else if b.len() >= 3 && ((b[0] == 0xE1 && b[1] == 0x9A && b[2] == 0x80) || (b[0] == 0xE2 && b[1] == 0x80 && ((0x80
        <= b[2] && b[2] <= 0x8A) || b[2] == 0xA8 || b[2] == 0xA9 || b[2] == 0xAF)) || (b[0] == 0xE2 && b[1] == 0x81
        && b[2] == 0x9F) || (b[0] == 0xE3 && b[1] == 0x80 && b[2] == 0x80)) {
        3
    } else {
        0
    }
}

/// How many bytes of white space end `b`, one character's worth.
pub open spec fn trail_space(b: Seq<u8>) -> int {
    let n = b.len() as int;
    if n >= 1 && ((9 <= b[n - 1] && b[n - 1] <= 13) || b[n - 1] == 32) {
        1
    } else if n >= 2 && b[n - 2] == 0xC2 && (b[n - 1] == 0x85 || b[n - 1] == 0xA0) {
        2
    } else if n >= 3 && lead_space(b.subrange(n - 3, n)) == 3 {
        3
    } else {
        0
    }
}

pub open spec fn trim_start(b: Seq<u8>) -> Seq<u8>
    decreases b.len(),
{
    let k = lead_space(b);
    if k == 0 || k > b.len() { b } else { trim_start(b.subrange(k, b.len() as int)) }
}

pub open spec fn trim_end(b: Seq<u8>) -> Seq<u8>
    decreases b.len(),
{
    let k = trail_space(b);
    if k == 0 || k > b.len() { b } else { trim_end(b.subrange(0, b.len() - k)) }
}

/// UTF-8 text without the white space at either end.
#[verifier::opaque]
pub open spec fn trim(b: Seq<u8>) -> Seq<u8> {
    trim_end(trim_start(b))
}

fn lead_space_exec(b: &Vec<u8>, from: usize, to: usize) -> (k: usize)
    requires
        from <= to <= b@.len(),
    ensures
        k as int == lead_space(b@.subrange(from as int, to as int)),
{
    let ghost s = b@.subrange(from as int, to as int);
    let n = to - from;
    if n >= 1 && ((9 <= b[from] && b[from] <= 13) || b[from] == 32) {
        return 1;
    }
    if n >= 2 && b[from] == 0xC2 && (b[from + 1] == 0x85 || b[from + 1] == 0xA0) {
        return 2;
    }
    if n >= 3 {
        let (x, y, z) = (b[from], b[from + 1], b[from + 2]);
        assert(s[0] == x && s[1] == y && s[2] == z);
        if (x == 0xE1 && y == 0x9A && z == 0x80) || (x == 0xE2 && y == 0x80 && ((0x80 <= z && z <= 0x8A) || z == 0xA8 || z == 0xA9
            || z == 0xAF)) || (x == 0xE2 && y == 0x81 && z == 0x9F) || (x == 0xE3 && y == 0x80 && z == 0x80) {
            return 3;
        }
    }
    0
}

fn trail_space_exec(b: &Vec<u8>, from: usize, to: usize) -> (k: usize)
    requires
        from <= to <= b@.len(),
    ensures
        k as int == trail_space(b@.subrange(from as int, to as int)),
{
    let ghost s = b@.subrange(from as int, to as int);
    let n = to - from;
    if n >= 1 && ((9 <= b[to - 1] && b[to - 1] <= 13) || b[to - 1] == 32) {
        return 1;
    }
    if n >= 2 && b[to - 2] == 0xC2 && (b[to - 1] == 0x85 || b[to - 1] == 0xA0) {
        return 2;
    }
    if n >= 3 {
        let k = lead_space_exec(b, to - 3, to);
        assert(s.subrange(n - 3, n as int) =~= b@.subrange(to - 3, to as int));
        if k == 3 {
            return 3;
        }
    }
    0
}

/// The range of `b[from..to]` that is left once white space is trimmed from both ends.
fn trim_range(b: &Vec<u8>, from: usize, to: usize) -> (r: (usize, usize))
    requires
        from <= to <= b@.len(),
    ensures
        from <= r.0 <= r.1 <= to,
        b@.subrange(r.0 as int, r.1 as int) == trim(b@.subrange(from as int, to as int)),
{
    let mut start = from;
    let mut k = lead_space_exec(b, start, to);
    while k != 0
        invariant
            from <= start <= to <= b@.len(),
            k as int == lead_space(b@.subrange(start as int, to as int)),
            trim_start(b@.subrange(from as int, to as int)) == trim_start(b@.subrange(start as int, to as int)),
        decreases to - start,
    {
        proof {
            assert(b@.subrange(start as int, to as int).subrange(k as int, (to - start) as int) =~= b@.subrange(start + k, to as int));
        }
        start = start + k;
        k = lead_space_exec(b, start, to);
    }
    assert(trim_start(b@.subrange(start as int, to as int)) == b@.subrange(start as int, to as int));
    let mut end = to;
    let mut k = trail_space_exec(b, start, end);
    while k != 0
        invariant
            from <= start <= end <= to <= b@.len(),
            k as int == trail_space(b@.subrange(start as int, end as int)),
            trim_start(b@.subrange(from as int, to as int)) == b@.subrange(start as int, to as int),
            trim_end(b@.subrange(start as int, to as int)) == trim_end(b@.subrange(start as int, end as int)),
        decreases end - start,
    {
        proof {
            assert(b@.subrange(start as int, end as int).subrange(0, (end - start - k) as int) =~= b@.subrange(start as int, end - k));
        }
        end = end - k;
        k = trail_space_exec(b, start, end);
    }
    assert(trim_end(b@.subrange(start as int, end as int)) == b@.subrange(start as int, end as int));
    reveal(trim);
    (start, end)
}


/// The first line of `b`, whose first line feed (if any) is at `j`: without the line feed
/// and without a carriage return just before it.
pub open spec fn line_before(b: Seq<u8>, j: int) -> Seq<u8> {
    if j < b.len() && j > 0 && b[j - 1] == 13u8 { b.subrange(0, j - 1) } else { b.subrange(0, j) }
}

/// What follows the first line of `b`, whose first line feed (if any) is at `j`.
pub open spec fn rest_after(b: Seq<u8>, j: int) -> Seq<u8> {
    if j < b.len() { b.subrange(j + 1, b.len() as int) } else { Seq::empty() }
}

proof fn lemma_text_lines_step(b: Seq<u8>, j: int)
    requires
        0 < b.len(),
        0 <= j <= b.len(),
        forall|k: int| 0 <= k < j ==> b[k] != 10u8,
        j < b.len() ==> b[j] == 10u8,
    ensures
        text_lines(b) == seq![line_before(b, j)] + text_lines(rest_after(b, j)),
{
    reveal_with_fuel(text_lines, 2);
    if j < b.len() {
        assert(0 <= j < b.len() && b[j] == 10u8 && forall|k: int| 0 <= k < j ==> b[k] != 10u8);
        let c = choose|i: int| 0 <= i < b.len() && b[i] == 10u8 && forall|k: int| 0 <= k < i ==> b[k] != 10u8;
        assert(c == j) by {
            if c < j {
                assert(b[c] != 10u8);
            } else if c > j {
                assert(b[j] != 10u8);
            }
        }
        assert(first_newline(b) == Some(j));
        let line = b.subrange(0, j);
        if line.len() > 0 && line.last() == 13u8 {
            assert(line.drop_last() =~= b.subrange(0, j - 1));
        }
        assert(line_before(b, j) == (if line.len() > 0 && line.last() == 13u8 { line.drop_last() } else { line }));
    } else {
        assert(!(exists|i: int| 0 <= i < b.len() && b[i] == 10u8));
        assert(first_newline(b) == None::<int>);
        assert(text_lines(Seq::<u8>::empty()) =~= Seq::<Seq<u8>>::empty());
        assert(b.subrange(0, j) =~= b);
        assert(seq![b] + Seq::<Seq<u8>>::empty() =~= seq![b]);
    }
}

/// `v` in `n` bytes, least significant first.
pub open spec fn le_seq(v: int, n: nat) -> Seq<u8>
    decreases n,
{
    if n == 0 { Seq::empty() } else { seq![(v % 256) as u8] + le_seq(v / 256, (n - 1) as nat) }
}

fn push_le(out: &mut Vec<u8>, v: u64, n: usize)
    ensures
        final(out)@ == old(out)@ + le_seq(v as int, n as nat),
        final(out)@.len() == old(out)@.len() + n,
    decreases n,
{
    if n > 0 {
        out.push((v % 256) as u8);
        push_le(out, v / 256, n - 1);
        assert(final(out)@ =~= old(out)@ + le_seq(v as int, n as nat));
    } else {
        assert(final(out)@ =~= old(out)@ + le_seq(v as int, n as nat));
    }
}

/// A directory record's length: its header of `DIRENT_HEADER_BYTES`, the name and its NUL,
/// rounded up to a multiple of 8.
pub open spec fn dirent_reclen(name_len: int) -> int {
    (DIRENT_HEADER_BYTES + name_len + 1 + 7) / 8 * 8
}

/// A `linux_dirent64` record: inode 1, the offset of the next entry, the record length, the
/// type of a regular file (8), the NUL-terminated name, and zero bytes up to the length.
#[verifier::opaque]
pub open spec fn dirent_bytes(next: int, reclen: int, name: Seq<u8>) -> Seq<u8> {
    le_seq(1, 8) + le_seq(next, 8) + le_seq(reclen, 2) + seq![8u8] + name + seq![0u8] + Seq::new(
        (reclen - DIRENT_HEADER_BYTES - name.len() - 1) as nat,
        |i: int| 0u8,
    )
}

/// The records that `getdents64` writes for `lines` of a listing, from the content offset
/// `cur` on, with `written` bytes written before and room for `count`, and the offset after
/// the last line it took. A line that is blank once trimmed is skipped; the first record
/// that does not fit ends the listing.
pub open spec fn dirent_scan(lines: Seq<Seq<u8>>, cur: int, written: int, count: int) -> (Seq<u8>, int)
    decreases lines.len(),
{
    if lines.len() == 0 {
        (Seq::empty(), cur)
    } else {
        let line = lines[0];
        let name = trim(line);
        if name.len() == 0 {
            dirent_scan(lines.drop_first(), cur, written, count)
        } else {
            let reclen = dirent_reclen(name.len() as int);
            if written + reclen > count {
                (Seq::empty(), cur)
            } else {
                let next = cur + line.len() + 1;
                let rest = dirent_scan(lines.drop_first(), next, written + reclen, count);
                (dirent_bytes(next, reclen, name) + rest.0, rest.1)
            }
        }
    }
}

/// The index of the first line feed in `b[from..to]`, or `to` when there is none.
fn find_newline(b: &Vec<u8>, from: usize, to: usize) -> (j: usize)
    requires
        from <= to <= b@.len(),
    ensures
        from <= j <= to,
        forall|k: int| from <= k < j ==> b@[k] != 10u8,
        j < to ==> b@[j as int] == 10u8,
{
    let mut j = from;
    while j < to && b[j] != 10
        invariant
            from <= j <= to <= b@.len(),
            forall|k: int| from <= k < j ==> b@[k] != 10u8,
        decreases to - j,
    {
        j = j + 1;
    }
    j
}

fn push_dirent(out: &mut Vec<u8>, next: usize, reclen: usize, b: &Vec<u8>, from: usize, to: usize)
    requires
        from <= to <= b@.len(),
        DIRENT_HEADER_BYTES + (to - from) + 1 <= reclen <= u16::MAX,
    ensures
        final(out)@ == old(out)@ + dirent_bytes(next as int, reclen as int, b@.subrange(from as int, to as int)),
        final(out)@.len() == old(out)@.len() + reclen,
{
    let ghost o = out@;
    push_le(out, 1, 8);
    push_le(out, next as u64, 8);
    push_le(out, reclen as u64, 2);
    out.push(8);
    let ghost h = out@;
    let mut i = from;
    while i < to
        invariant
            from <= i <= to <= b@.len(),
            out@ == h + b@.subrange(from as int, i as int),
        decreases to - i,
    {
        out.push(b[i]);
        assert(b@.subrange(from as int, i + 1) =~= b@.subrange(from as int, i as int).push(b@[i as int]));
        i = i + 1;
    }
    out.push(0);
    let ghost z = out@;
    let pad = reclen - DIRENT_HEADER_BYTES - (to - from) - 1;
    let mut p: usize = 0;
    while p < pad
        invariant
            p <= pad,
            out@ == z + Seq::new(p as nat, |i: int| 0u8),
        decreases pad - p,
    {
        out.push(0);
        assert(Seq::new((p + 1) as nat, |i: int| 0u8) =~= Seq::new(p as nat, |i: int| 0u8).push(0u8));
        p = p + 1;
    }
    reveal(dirent_bytes);
    assert(out@ =~= o + dirent_bytes(next as int, reclen as int, b@.subrange(from as int, to as int)));
}

/// Takes the line of a listing that starts at `pos`: adds its record to `out` if it has a
/// name that fits, and says where the next line starts, the content offset after it, and
/// whether the listing ended here because the record did not fit.
fn dirent_step(c: &Vec<u8>, pos: usize, len: usize, cur: usize, count: usize, out: &mut Vec<u8>) -> (r: (usize, usize, bool))
    requires
        pos < len <= c@.len(),
        len <= OPEN_FILE_CONTENT_BYTES,
        cur <= pos + 1,
        old(out)@.len() <= count,
    ensures
        r.0 <= len,
        r.1 <= r.0 + 2,
        r.0 < len ==> r.1 <= r.0 + 1,
        final(out)@.len() <= count,
        ({
            let before = dirent_scan(text_lines(c@.subrange(pos as int, len as int)), cur as int, old(out)@.len() as int, count as int);
            let after = dirent_scan(text_lines(c@.subrange(r.0 as int, len as int)), r.1 as int, final(out)@.len() as int, count as int);
            if r.2 {
                &&& final(out)@ == old(out)@
                &&& r.0 == pos && r.1 == cur
                &&& before.0 == Seq::<u8>::empty()
                &&& before.1 == cur as int
            } else {
                &&& pos < r.0
                &&& old(out)@ + before.0 == final(out)@ + after.0
                &&& before.1 == after.1
            }
        }),
{
    let ghost b = c@.subrange(pos as int, len as int);
    let j = find_newline(c, pos, len);
    let line_end = if j < len && j > pos && c[j - 1] == 13 { j - 1 } else { j };
    let next_pos = if j < len { j + 1 } else { len };
    proof {
        lemma_text_lines_step(b, j - pos);
        assert(line_before(b, j - pos) =~= c@.subrange(pos as int, line_end as int));
        assert(rest_after(b, j - pos) =~= c@.subrange(next_pos as int, len as int));
    }
    let ghost lines = text_lines(b);
    assert(lines[0] == c@.subrange(pos as int, line_end as int));
    assert(lines.drop_first() =~= text_lines(c@.subrange(next_pos as int, len as int)));
    let (ns, ne) = trim_range(c, pos, line_end);
    if ns == ne {
        (next_pos, cur, false)
    } else {
        let name_len = ne - ns;
        let reclen = (DIRENT_HEADER_BYTES + name_len + 1 + 7) / 8 * 8;
        let written = out.len();
        if reclen > count - written {
            (pos, cur, true)
        } else {
            let next = cur + (line_end - pos) + 1;
            let ghost o = out@;
            push_dirent(out, next, reclen, c, ns, ne);
            proof {
                let name = c@.subrange(ns as int, ne as int);
                let rest = dirent_scan(lines.drop_first(), next as int, written + reclen, count as int);
                assert(o + (dirent_bytes(next as int, reclen as int, name) + rest.0) =~= out@ + rest.0);
            }
            (next_pos, next, false)
        }
    }
}

/// Lists a directory file: each line of its text from the offset on, trimmed, becomes a
/// `linux_dirent64` record (blank lines are skipped), as long as the records fit in `count`
/// bytes, and the offset moves past the lines taken. The records come back as the bytes to
/// copy out, each padded with zero bytes to its length. At or past the end nothing is
/// listed; text that is not UTF-8 is `EIO`; a bad descriptor is `EBADF`.
pub fn sys_getdents64(fds: &Vec<Option<usize>>, files: &mut OpenFileTable, fd_arg: u64, count_arg: u64) -> (r: (SyscallOutcome, Vec<u8>))
    requires
        fds_wf(fds@),
        table_wf(old(files)@),
    ensures
        table_wf(final(files)@),
        match fd_slot(fds@, (fd_arg as i32) as int) {
            Some(g) => match old(files)@[g as int] {
                Some(f) => if f.offset >= f.content_len {
                    r.0 == ok_outcome(0) && r.1@.len() == 0 && final(files)@ == old(files)@
                } else {
                    let text = f.content.subrange(f.offset as int, f.content_len as int);
                    let d = dirent_scan(text_lines(text), f.offset as int, 0, count_arg as usize as int);
                    if utf8_decode(text) is None {
                        r.0 == err_outcome(EIO) && r.1@.len() == 0 && final(files)@ == old(files)@
                    } else {
                        &&& r.0 == ok_outcome(d.0.len() as i64)
                        &&& r.1@ == d.0
                        &&& final(files)@ == old(files)@.update(g as int, Some(f.with_offset(d.1 as usize)))
                    }
                },
                None => r.0 == err_outcome(EBADF) && r.1@.len() == 0 && final(files)@ == old(files)@,
            },
            None => r.0 == err_outcome(EBADF) && r.1@.len() == 0 && final(files)@ == old(files)@,
        },
{
    let fd = fd_arg as i32;
    let count = count_arg as usize;
    if fd < 0 || fd as usize >= fds.len() {
        return (SyscallOutcome::errno(EBADF), Vec::new());
    }
    let g = match fds[fd as usize] {
        Some(g) => g,
        None => return (SyscallOutcome::errno(EBADF), Vec::new()),
    };
    let ghost t = files@;
    let mut open = match files.slots[g].take() {
        Some(f) => f,
        None => {
            assert(files@ =~= t);
            return (SyscallOutcome::errno(EBADF), Vec::new());
        },
    };
    let ghost f = open@;
    assert(f == t[g as int]->0);
    if open.offset >= open.content_len {
        files.slots.set(g, Some(open));
        assert(files@ =~= t);
        return (SyscallOutcome::success(0), Vec::new());
    }
    let len = open.content_len;
    let start = open.offset;
    let text = vstd::slice::slice_subrange(open.content.as_slice(), start, len);
    if decode_utf8(text).is_none() {
        files.slots.set(g, Some(open));
        assert(files@ =~= t);
        return (SyscallOutcome::errno(EIO), Vec::new());
    }
    let ghost full = dirent_scan(text_lines(f.content.subrange(start as int, len as int)), start as int, 0, count as int);
    let mut out: Vec<u8> = Vec::new();
    let mut pos = start;
    let mut cur = start;
    let mut done = false;
    while pos < len && !done
        invariant
            open@ == f,
            f.wf(),
            start <= pos <= len == f.content_len <= OPEN_FILE_CONTENT_BYTES,
            cur <= pos + 2,
            pos < len ==> cur <= pos + 1,
            out@.len() <= count,
            !done ==> ({
                let rest = dirent_scan(text_lines(f.content.subrange(pos as int, len as int)), cur as int, out@.len() as int, count as int);
                &&& out@ + rest.0 == full.0
                &&& rest.1 == full.1
            }),
            done ==> out@ == full.0 && cur as int == full.1,
        decreases len - pos, (if done { 0int } else { 1int }),
    {
        let (np, nc, stop) = dirent_step(&open.content, pos, len, cur, count, &mut out);
        pos = np;
        cur = nc;
        done = stop;
    }
    proof {
        if !done {
            reveal(text_lines);
            assert(f.content.subrange(pos as int, len as int) =~= Seq::<u8>::empty());
            assert(out@ + Seq::<u8>::empty() =~= out@);
        }
    }
    open.offset = cur;
    files.slots.set(g, Some(open));
    assert(files@ =~= t.update(g as int, Some(f.with_offset(cur))));
    (SyscallOutcome::success(out.len() as i64), out)
}

/// The NUL-terminated string at the start of `window`, the bytes read from user memory
/// from the string's address on (at most `MAX_PATH_BYTES`); `fault` is the error met at the
/// first byte that could not be read, when the window stops short. Without a NUL the
/// error is that fault, or `ERANGE` when the whole window was read.
pub fn user_c_string(window: &[u8], fault: Option<i64>) -> (r: Result<Vec<u8>, i64>)
    requires
        window@.len() <= MAX_PATH_BYTES,
    ensures
        match c_string_end(window@) {
            Some(k) => r matches Ok(v) && v@ == window@.take(k),
            None => r == (if window@.len() < MAX_PATH_BYTES && fault is Some {
                Err::<Vec<u8>, i64>(fault->0)
            } else {
                Err::<Vec<u8>, i64>(ERANGE)
            }),
        },
{
    let mut k: usize = 0;
    while k < window.len() && window[k] != 0
        invariant
            k <= window@.len(),
            forall|j: int| 0 <= j < k ==> window@[j] != 0,
        decreases window@.len() - k,
    {
        k = k + 1;
    }
    proof {
        lemma_c_string_end(window@, k as int);
    }
    if k < window.len() {
        let mut v: Vec<u8> = Vec::new();
        let mut i: usize = 0;
        while i < k
            invariant
                i <= k < window@.len(),
                v@ == window@.take(i as int),
            decreases k - i,
        {
            v.push(window[i]);
            i = i + 1;
            assert(v@ =~= window@.take(i as int));
        }
        Ok(v)
    } else if window.len() < MAX_PATH_BYTES {
        match fault {
            Some(e) => Err(e),
            None => Err(ERANGE),
        }
    } else {
        Err(ERANGE)
    }
}

/// The index of the first NUL of `w`.
pub open spec fn c_string_end(w: Seq<u8>) -> Option<int> {
    if exists|k: int| 0 <= k < w.len() && w[k] == 0 {
        Some(choose|k: int| 0 <= k < w.len() && w[k] == 0 && forall|j: int| 0 <= j < k ==> w[j] != 0)
    } else {
        None
    }
}

proof fn lemma_c_string_end(w: Seq<u8>, k: int)
    requires
        0 <= k <= w.len(),
        forall|j: int| 0 <= j < k ==> w[j] != 0,
        k < w.len() ==> w[k] == 0,
    ensures
        c_string_end(w) == (if k < w.len() { Some(k) } else { None::<int> }),
{
    if k < w.len() {
        assert(0 <= k < w.len() && w[k] == 0 && forall|j: int| 0 <= j < k ==> w[j] != 0);
        let c = choose|i: int| 0 <= i < w.len() && w[i] == 0 && forall|j: int| 0 <= j < i ==> w[j] != 0;
        assert(c == k) by {
            if c < k {
                assert(w[c] != 0);
            } else if c > k {
                assert(w[k] != 0);
            }
        }
    } else {
        assert(!(exists|i: int| 0 <= i < w.len() && w[i] == 0));
    }
}

/// What `stat` answers for a path copied in from user memory (or the error of the copy)
/// and the node the file system has under it (`node`: whether it is a directory, and its
/// size): the copy's error; `EINVAL` for a path that is not UTF-8; `ENOENT` for no node;
/// else the record of `sys_stat`.
pub fn stat_outcome(path: Result<Vec<u8>, i64>, node: Option<(bool, u64)>) -> (r: Result<stat, i64>)
    requires
        node matches Some((d, size)) ==> size <= u64::MAX - 4095,
    ensures
        match path {
            Err(e) => r == Err::<stat, i64>(e),
            Ok(p) => if utf8_decode(p@) is None {
                r == Err::<stat, i64>(EINVAL)
            } else {
                match node {
                    None => r == Err::<stat, i64>(ENOENT),
                    Some((d, size)) => r matches Ok(st) && is_stat_record(
                        st,
                        if d { S_IFDIR_RWX } else { S_IFREG_RW },
                        size as i64,
                        ((size + 4095) / 4096) as i64,
                    ),
                }
            },
        },
{
    let p = match path {
        Err(e) => return Err(e),
        Ok(p) => p,
    };
    if decode_utf8(p.as_slice()).is_none() {
        return Err(EINVAL);
    }
    match node {
        None => Err(ENOENT),
        Some((d, size)) => Ok(sys_stat(d, size)),
    }
}

/// Hands a call to the compatibility daemon: the message goes on the queue and the calling
/// thread yields with 0 (the caller blocks it until the daemon answers).
pub fn forward_to_lcl(queue: &mut LclQueue, pid: u64, tid: u64, number: u64, args: [u64; 6], abi: u64) -> (r: SyscallOutcome)
    requires
        old(queue).shape_ok(),
    ensures
        r == (SyscallOutcome { value: 0, action: SyscallAction::YieldThread }),
        final(queue).shape_ok(),
        final(queue).messages@ == old(queue).messages@.update(
            old(queue).head as int,
            Some(LclMessage { pid, tid, number, args, abi }),
        ),
        final(queue).head == (old(queue).head + 1) % (LCL_QUEUE_SLOTS as int),
        final(queue).tail == old(queue).tail,
        old(queue).wf() && old(queue).count() < LCL_QUEUE_SLOTS ==> final(queue).wf() && final(queue).pending()
            == old(queue).pending().push(LclMessage { pid, tid, number, args, abi }),
{
    queue.enqueue_lcl_message(LclMessage { pid, tid, number, args, abi });
    SyscallOutcome::yield_thread()
}

} // verus!
