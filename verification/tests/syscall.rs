use hxnu::syscall::{
    advance_read_offset, alloc_open_file, close_open_file, copy_c_field_prefix, dispatch,
    dispatch_ghost_bootstrap, dispatch_hxnu_bootstrap, dispatch_linux_bootstrap, exit_group,
    exit_status, ghost_uname, is_read_only_open, lcl_receive, lcl_return, linux_clock_gettime,
    linux_uname, machine_str, parse_fd, purge_open_files_for_process, read_args, read_window,
    resolve_open_path, sys_arch_prctl, sys_dup, sys_dup2, sys_fork, sys_fstat, sys_getdents64, sys_getrandom,
    sys_heterexec_poll, sys_heterexec_submit, sys_ioctl, sys_lseek, sys_pipe, sys_stat,
    sys_wait4, syscall_handler, stat_outcome, user_c_string, EFAULT, value_outcome, wait4_target_supported, write_text,
    write_uts_field, write_with_fd, BrkState, GhostBootstrapProbe, LclMessage, LclQueue,
    LinuxBootstrapProbe, LinuxTimespec, MmapState, OpenFileTable, SyscallAbi, SyscallAction,
    SyscallOutcome, SyscallRequest, UnameFlavor, EBADF, EINVAL, EIO, EMFILE, ENOENT, ENOSYS,
    ERANGE,
};
use hxnu::hsched::HeterogeneousScheduler;

fn fd_table(n: usize) -> Vec<Option<usize>> {
    vec![None; n]
}

fn msg(n: u64) -> LclMessage {
    LclMessage { pid: 10 + n, tid: 20 + n, number: n, args: [n, 1, 2, 3, 4, 5], abi: 3 }
}

#[test]
fn abi_names() {
    assert_eq!(SyscallAbi::LinuxBootstrap.as_str(), "linux-x86_64-bootstrap");
    assert_eq!(SyscallAbi::GhostBootstrap.as_str(), "ghost-bootstrap");
    assert_eq!(SyscallAbi::HxnuNativeBootstrap.as_str(), "hxnu-native-bootstrap");
    assert_eq!(SyscallAbi::PosixLcl.as_str(), "posix-lcl");
}

#[test]
fn outcome_helpers() {
    let ok = SyscallOutcome::success(7);
    assert_eq!(ok.value, 7);
    assert!(ok.action == SyscallAction::Continue);
    let err = SyscallOutcome::errno(ENOSYS);
    assert_eq!(err.value, -38);
    assert_eq!(exit_status(err), (false, 0));
    let exit = SyscallOutcome { value: 0, action: SyscallAction::ExitGroup { status: 17 } };
    assert_eq!(exit_status(exit), (true, 17));
    assert_eq!(exit_status(SyscallOutcome::yield_thread()), (false, 0));
}

#[test]
fn open_flags_and_fd_parsing() {
    assert!(is_read_only_open(0));
    assert!(!is_read_only_open(1));
    assert!(!is_read_only_open(0x40));
    assert!(!is_read_only_open(0x200));
    assert!(!is_read_only_open(0x400));
    assert!(is_read_only_open(0x80000));
    assert_eq!(parse_fd(5), Ok(5));
    assert_eq!(parse_fd(0x8000_0000), Err(EBADF));
}

#[test]
fn lcl_queue_is_first_in_first_out() {
    let mut q = LclQueue::new();
    assert!(q.dequeue_lcl_message().is_none());
    q.enqueue_lcl_message(msg(1));
    q.enqueue_lcl_message(msg(2));
    assert_eq!(q.dequeue_lcl_message().unwrap().number, 1);
    q.enqueue_lcl_message(msg(3));
    assert_eq!(q.dequeue_lcl_message().unwrap().number, 2);
    assert_eq!(q.dequeue_lcl_message().unwrap().number, 3);
    assert!(q.dequeue_lcl_message().is_none());
    assert_eq!(q.head, 3);
    assert_eq!(q.tail, 3);
}

#[test]
fn lcl_queue_wraps_around() {
    let mut q = LclQueue::new();
    for round in 0..3u64 {
        for i in 0..40u64 {
            q.enqueue_lcl_message(msg(round * 100 + i));
        }
        for i in 0..40u64 {
            assert_eq!(q.dequeue_lcl_message().unwrap().number, round * 100 + i);
        }
    }
    assert!(q.dequeue_lcl_message().is_none());
}

#[test]
fn lcl_receive_lays_out_ten_words() {
    let mut q = LclQueue::new();
    assert!(lcl_receive(&mut q).is_none());
    q.enqueue_lcl_message(LclMessage { pid: 7, tid: 8, number: 59, args: [1, 2, 3, 4, 5, 6], abi: 3 });
    let words = lcl_receive(&mut q).unwrap();
    assert_eq!(words, [59, 1, 2, 3, 4, 5, 6, 7, 8, 3]);
    assert!(lcl_receive(&mut q).is_none());
    assert_eq!(lcl_return(true).value, 0);
    assert_eq!(lcl_return(false).value, -EINVAL);
}

#[test]
fn linux_routing_table() {
    let args = [3, 0x1000, 64, 0, 0, 0];
    assert!(matches!(dispatch_linux_bootstrap(0, args), SyscallRequest::Read { fd: 3, buffer: 0x1000, count: 64 }));
    assert!(matches!(dispatch_linux_bootstrap(1, [1, 0x2000, 16, 0, 0, 0]), SyscallRequest::Write { fd: 1, .. }));
    match dispatch_linux_bootstrap(1, [5, 0, 0, 0, 0, 0]) {
        SyscallRequest::Done(o) => assert_eq!(o.value, -EBADF),
        _ => panic!("a write to another descriptor is refused at once"),
    }
    assert!(matches!(dispatch_linux_bootstrap(2, args), SyscallRequest::Open { dirfd: -100, path: 3, flags: 0x1000 }));
    assert!(matches!(dispatch_linux_bootstrap(257, [u64::MAX - 99, 5, 0, 0, 0, 0]), SyscallRequest::Open { dirfd: -100, path: 5, flags: 0 }));
    assert!(matches!(dispatch_linux_bootstrap(4, args), SyscallRequest::Stat { .. }));
    assert!(matches!(dispatch_linux_bootstrap(262, args), SyscallRequest::Stat { .. }));
    assert!(matches!(dispatch_linux_bootstrap(60, [0x1_0000_0011, 0, 0, 0, 0, 0]), SyscallRequest::ExitGroup { status: 17 }));
    assert!(matches!(dispatch_linux_bootstrap(231, args), SyscallRequest::ExitGroup { status: 3 }));
    assert!(matches!(dispatch_linux_bootstrap(63, args), SyscallRequest::Uname { flavor: UnameFlavor::LinuxAbi, .. }));
    match dispatch_linux_bootstrap(24, args) {
        SyscallRequest::Done(o) => assert!(o == SyscallOutcome::success(0)),
        _ => panic!("sched_yield is answered at once"),
    }
    match dispatch_linux_bootstrap(334, args) {
        SyscallRequest::Done(o) => assert_eq!(o.value, -38),
        _ => panic!("rseq is unsupported"),
    }
    match dispatch_linux_bootstrap(9999, args) {
        SyscallRequest::Done(o) => assert_eq!(o.value, -38),
        _ => panic!("unknown calls are unsupported"),
    }
}

#[test]
fn ghost_and_native_routing_tables() {
    let args = [2, 0x2000, 16, 0, 0, 0];
    assert!(matches!(dispatch_ghost_bootstrap(1, args), SyscallRequest::Write { fd: 2, .. }));
    match dispatch_ghost_bootstrap(1, [0; 6]) {
        SyscallRequest::Done(o) => assert_eq!(o.value, -EBADF),
        _ => panic!("fd 0 is not writable"),
    }
    assert!(matches!(dispatch_ghost_bootstrap(5, args), SyscallRequest::Uptime));
    assert!(matches!(dispatch_ghost_bootstrap(6, args), SyscallRequest::Uname { flavor: UnameFlavor::GhostAbi, .. }));
    assert!(matches!(dispatch_hxnu_bootstrap(0x484e_0001, args), SyscallRequest::LogWrite { buffer: 2, count: 0x2000 }));
    match dispatch_hxnu_bootstrap(0x484e_0005, args) {
        SyscallRequest::Done(o) => assert!(o.action == SyscallAction::YieldThread),
        _ => panic!("yield is answered at once"),
    }
    match dispatch_hxnu_bootstrap(0x484e_0006, args) {
        SyscallRequest::Done(o) => assert_eq!(o.value, 0x0001_0000),
        _ => panic!("the ABI version is answered at once"),
    }
    assert!(matches!(dispatch_hxnu_bootstrap(0x484e_0010, [0x1_23, 0, 0, 0, 0, 0]), SyscallRequest::HeterexecSubmit { target: 0x23 }));
    let mut q = LclQueue::new();
    match dispatch(&mut q, 7, 8, SyscallAbi::PosixLcl, 57, args) {
        SyscallRequest::Done(o) => assert!(o == SyscallOutcome { value: 0, action: SyscallAction::YieldThread }),
        _ => panic!("a forwarded call yields"),
    }
    assert!(matches!(dispatch(&mut q, 7, 8, SyscallAbi::GhostBootstrap, 5, args), SyscallRequest::Uptime));
    assert!(matches!(syscall_handler(&mut q, 7, 8, 2, 0x484e_0003, args), SyscallRequest::ProcessId));
    assert!(matches!(syscall_handler(&mut q, 7, 9, 0, 58, args), SyscallRequest::Done(_)));
    let first = q.dequeue_lcl_message().unwrap();
    assert_eq!((first.pid, first.tid, first.number, first.abi), (7, 8, 57, 3));
    assert_eq!(first.args, args);
    let second = q.dequeue_lcl_message().unwrap();
    assert_eq!((second.tid, second.number, second.abi), (9, 58, 0));
    assert!(q.dequeue_lcl_message().is_none());
}

#[test]
fn open_read_close_round_trip() {
    let mut fds = fd_table(8);
    let mut files = OpenFileTable::new();
    let fd = alloc_open_file(&mut fds, &mut files, b"/proc/version", b"HXNU 0.1\n").unwrap();
    assert_eq!(fd, 3);
    assert_eq!(fds[3], Some(0));
    let (slot, bytes) = read_window(&fds, &files, 3, 4).unwrap();
    assert_eq!(slot, 0);
    assert_eq!(bytes, b"HXNU".to_vec());
    advance_read_offset(&mut files, slot, bytes.len());
    let (_, rest) = read_window(&fds, &files, 3, 64).unwrap();
    assert_eq!(rest, b" 0.1\n".to_vec());
    advance_read_offset(&mut files, slot, rest.len());
    let (_, none) = read_window(&fds, &files, 3, 64).unwrap();
    assert!(none.is_empty());
    assert_eq!(close_open_file(&mut fds, &mut files, 3), Ok(0));
    assert!(files.slots[0].is_none());
    assert_eq!(close_open_file(&mut fds, &mut files, 3), Err(EBADF));
    assert_eq!(read_window(&fds, &files, 3, 1).err(), Some(EBADF));
    assert_eq!(read_window(&fds, &files, -1, 1).err(), Some(EBADF));
}

#[test]
fn open_file_buffers_are_cut() {
    let mut fds = fd_table(8);
    let mut files = OpenFileTable::new();
    let long_path = vec![b'a'; 200];
    let big = vec![7u8; 5000];
    alloc_open_file(&mut fds, &mut files, &long_path, &big).unwrap();
    let f = files.slots[0].as_ref().unwrap();
    assert_eq!(f.path_len, 128);
    assert_eq!(f.content_len, 4096);
    assert_eq!(f.path.len(), 128);
    assert_eq!(f.content.len(), 4096);
    assert_eq!(f.ref_count, 1);
}

#[test]
fn descriptors_run_out() {
    let mut fds = fd_table(5);
    let mut files = OpenFileTable::new();
    assert_eq!(alloc_open_file(&mut fds, &mut files, b"/a", b"1"), Ok(3));
    assert_eq!(alloc_open_file(&mut fds, &mut files, b"/b", b"2"), Ok(4));
    assert_eq!(alloc_open_file(&mut fds, &mut files, b"/c", b"3"), Err(EMFILE));
    assert!(files.slots[2].is_none());
}

#[test]
fn dup_shares_and_close_releases() {
    let mut fds = fd_table(8);
    let mut files = OpenFileTable::new();
    alloc_open_file(&mut fds, &mut files, b"/f", b"data").unwrap();
    let dup = sys_dup(&mut fds, &mut files, 3);
    assert_eq!(dup.value, 4);
    assert_eq!(files.slots[0].as_ref().unwrap().ref_count, 2);
    assert_eq!(close_open_file(&mut fds, &mut files, 4), Ok(0));
    assert_eq!(files.slots[0].as_ref().unwrap().ref_count, 1);
    assert_eq!(sys_dup(&mut fds, &mut files, 6).value, -EBADF);
}

#[test]
fn dup2_replaces_the_target() {
    let mut fds = fd_table(8);
    let mut files = OpenFileTable::new();
    alloc_open_file(&mut fds, &mut files, b"/f", b"one").unwrap();
    alloc_open_file(&mut fds, &mut files, b"/g", b"two").unwrap();
    assert_eq!(sys_dup2(&mut fds, &mut files, 3, 3).value, 3);
    assert_eq!(sys_dup2(&mut fds, &mut files, 3, 4).value, 4);
    assert_eq!(fds[4], Some(0));
    assert!(files.slots[1].is_none());
    assert_eq!(files.slots[0].as_ref().unwrap().ref_count, 2);
    assert_eq!(sys_dup2(&mut fds, &mut files, 3, 99).value, -EBADF);
    assert_eq!(sys_dup2(&mut fds, &mut files, 5, 6).value, -EBADF);
}

#[test]
fn pipe_opens_two_ends() {
    let mut fds = fd_table(8);
    let mut files = OpenFileTable::new();
    let (r, w) = sys_pipe(&mut fds, &mut files).unwrap();
    assert_eq!((r, w), (3, 4));
    let reader = files.slots[0].as_ref().unwrap();
    assert_eq!(&reader.path[..reader.path_len], b"pipe:read");
    let writer = files.slots[1].as_ref().unwrap();
    assert_eq!(&writer.path[..writer.path_len], b"pipe:write");
    let mut small = fd_table(4);
    let mut files2 = OpenFileTable::new();
    assert_eq!(sys_pipe(&mut small, &mut files2), Err(EMFILE));
    assert!(files2.slots[0].is_none());
}

#[test]
fn lseek_moves_the_offset() {
    let mut fds = fd_table(8);
    let mut files = OpenFileTable::new();
    alloc_open_file(&mut fds, &mut files, b"/f", b"abcdef").unwrap();
    assert_eq!(sys_lseek(&fds, &mut files, 3, 2, 0).value, 2);
    assert_eq!(read_window(&fds, &files, 3, 2).unwrap().1, b"cd".to_vec());
    assert_eq!(sys_lseek(&fds, &mut files, 3, 1, 1).value, 3);
    assert_eq!(sys_lseek(&fds, &mut files, 3, (-10i64) as u64, 2).value, 4086);
    assert_eq!(sys_lseek(&fds, &mut files, 3, (-5000i64) as u64, 2).value, -EINVAL);
    assert_eq!(sys_lseek(&fds, &mut files, 3, 0, 7).value, -EINVAL);
    assert_eq!(sys_lseek(&fds, &mut files, 5, 0, 0).value, -EBADF);
    assert_eq!(sys_lseek(&fds, &mut files, 3, 0, 0).value, 0);
    assert_eq!(read_window(&fds, &files, 3, 3).unwrap().1, b"abc".to_vec());
}

#[test]
fn ioctl_and_fstat_check_descriptors() {
    let mut fds = fd_table(8);
    let mut files = OpenFileTable::new();
    alloc_open_file(&mut fds, &mut files, b"/f", b"x").unwrap();
    assert_eq!(sys_ioctl(&fds, 3).value, 0);
    assert_eq!(sys_ioctl(&fds, 4).value, -EBADF);
    assert_eq!(sys_ioctl(&fds, 100).value, -EBADF);
    let st = sys_fstat(8, 3).unwrap();
    assert_eq!(st.st_mode, 0o100644);
    assert_eq!(st.st_size, 4096);
    assert_eq!(st.st_blocks, 1);
    assert_eq!(st.st_ino, 1);
    assert_eq!(sys_fstat(8, 8).err(), Some(EBADF));
}

#[test]
fn stat_of_nodes() {
    let dir = sys_stat(true, 0);
    assert_eq!(dir.st_mode, 0o040755);
    assert_eq!(dir.st_blocks, 0);
    let file = sys_stat(false, 4097);
    assert_eq!(file.st_mode, 0o100644);
    assert_eq!(file.st_size, 4097);
    assert_eq!(file.st_blocks, 2);
    assert_eq!(file.st_blksize, 4096);
}

#[test]
fn exit_group_closes_process_descriptors() {
    let mut fds = fd_table(8);
    fds[1] = Some(5);
    let mut files = OpenFileTable::new();
    alloc_open_file(&mut fds, &mut files, b"/f", b"x").unwrap();
    sys_dup(&mut fds, &mut files, 3);
    let out = exit_group(&mut fds, &mut files, 0x1_0000_0013);
    assert!(out.action == SyscallAction::ExitGroup { status: 19 });
    assert_eq!(fds[1], Some(5));
    assert!(fds[3].is_none() && fds[4].is_none());
    assert!(files.slots[0].is_none());
    let mut fds2 = fd_table(8);
    let mut files2 = OpenFileTable::new();
    alloc_open_file(&mut fds2, &mut files2, b"/g", b"y").unwrap();
    purge_open_files_for_process(&mut fds2, &mut files2);
    assert!(files2.slots[0].is_none());
}

#[test]
fn clock_and_uname() {
    assert_eq!(linux_clock_gettime(1, 3_500_000_001), Ok(LinuxTimespec { tv_sec: 3, tv_nsec: 500_000_001 }));
    assert_eq!(linux_clock_gettime(0, 7), Ok(LinuxTimespec { tv_sec: 0, tv_nsec: 7 }));
    assert_eq!(linux_clock_gettime(2, 7), Err(EINVAL));
    let u = linux_uname();
    assert_eq!(&u.sysname[..6], b"Linux\0");
    assert_eq!(&u.machine[..7], b"x86_64\0");
    assert_eq!(u.machine.len(), 65);
    let g = ghost_uname();
    assert_eq!(&g.sysname[..6], b"Ghost\0");
    assert_eq!(&g.domainname[..7], b"legacy\0");
    let mut field = vec![0xAAu8; 65];
    write_uts_field(&mut field, &[b'z'; 100]);
    assert!(field[..64].iter().all(|b| *b == b'z'));
    assert_eq!(field[64], 0);
}

#[test]
fn machine_names() {
    let mut out = vec![9u8; 16];
    let mut field = vec![0u8; 65];
    field[..6].copy_from_slice(b"x86_64");
    assert_eq!(copy_c_field_prefix(&mut out, &field), 6);
    assert_eq!(&out[..6], b"x86_64");
    assert_eq!(out[6], 9);
    let s: String = machine_str(&[0x61, 0x62, 0x63], 2).into_iter().collect();
    assert_eq!(s, "ab");
    let bad: String = machine_str(&[0xff, 0xfe], 2).into_iter().collect();
    assert_eq!(bad, "<invalid>");
    let probe = LinuxBootstrapProbe::with_results(1, 2, 3, 4, 5, 6, 7, 8, 9, LinuxTimespec { tv_sec: 1, tv_nsec: 2 }, 0,
        SyscallOutcome { value: 0, action: SyscallAction::ExitGroup { status: 17 } }, &field);
    assert!(probe.exit_group_captured);
    assert_eq!(probe.exit_group_status, 17);
    assert_eq!(probe.machine_str().into_iter().collect::<String>(), "x86_64");
    let ghost = GhostBootstrapProbe::with_results(1, 2, 3, 4, 5, 6, 7, 8, 9, SyscallOutcome::success(0), &field);
    assert!(!ghost.exit_group_captured);
    assert_eq!(ghost.machine_len, 6);
}

#[test]
fn read_and_write_argument_checks() {
    assert_eq!(read_args(3, 100), Ok((3, 100)));
    assert_eq!(read_args(3, 65537), Err(ERANGE));
    assert_eq!(read_args(1 << 40, 1), Err(EBADF));
    assert_eq!(write_text(0), Ok(0));
    assert_eq!(write_text(500), Ok(500));
    assert_eq!(write_text(5000), Ok(1024));
    assert_eq!(write_text(16385), Err(ERANGE));
    assert_eq!(write_with_fd(1, 10), Ok(10));
    assert_eq!(write_with_fd(2, 10), Ok(10));
    assert_eq!(write_with_fd(3, 10), Err(EBADF));
}

#[test]
fn open_paths_resolve() {
    assert_eq!(resolve_open_path(-100, b"/proc/version"), Ok(b"/proc/version".to_vec()));
    assert_eq!(resolve_open_path(-100, b"etc/motd"), Ok(b"/etc/motd".to_vec()));
    assert_eq!(resolve_open_path(5, b"etc/motd"), Err(ENOSYS));
    assert_eq!(resolve_open_path(5, b"/abs"), Ok(b"/abs".to_vec()));
    assert_eq!(resolve_open_path(-100, b""), Err(EINVAL));
    assert_eq!(resolve_open_path(-100, &[0xff, 0x41]), Err(EINVAL));
}

#[test]
fn small_handlers() {
    assert!(sys_arch_prctl(0x1002, 0xdead) == (SyscallOutcome::success(0), Some(0xdead)));
    assert!(sys_arch_prctl(0x1003, 0xdead) == (SyscallOutcome::errno(EINVAL), None));
    let bytes = sys_getrandom(300);
    assert_eq!(bytes.len(), 256);
    assert_eq!(bytes[0], 13);
    assert_eq!(bytes[1], 50);
    assert_eq!(bytes[7], (7u32 * 37 + 13) as u8);
    assert_eq!(sys_getrandom(3).len(), 3);
    assert_eq!(sys_fork(Some(9)).value, 9);
    assert_eq!(sys_fork(None).value, -ENOSYS);
    assert!(wait4_target_supported(u64::MAX));
    assert!(!wait4_target_supported(4));
    let (o, word) = sys_wait4(u64::MAX, 0x1000, 0, Ok((12, 3)));
    assert_eq!(o.value, 12);
    assert_eq!(word, Some(3 << 8));
    assert_eq!(sys_wait4(u64::MAX, 0, 0, Ok((12, 3))).1, None);
    assert_eq!(sys_wait4(u64::MAX, 0, 0, Err(false)).0.value, -ENOENT);
    assert_eq!(sys_wait4(u64::MAX, 0, 1, Err(true)).0.value, 0);
    assert!(sys_wait4(u64::MAX, 0, 0, Err(true)).0.action == SyscallAction::YieldThread);
    assert_eq!(sys_wait4(4, 0, 0, Ok((12, 3))).0.value, -ENOSYS);
    assert_eq!(value_outcome(42).value, 42);
    assert_eq!(value_outcome(u64::MAX).value, -ERANGE);
}

#[test]
fn heterexec_calls() {
    let mut sched = HeterogeneousScheduler::new();
    let first = sys_heterexec_submit(&mut sched, 2);
    assert!(first.value >= 0);
    let mut last = first;
    for _ in 0..20 {
        last = sys_heterexec_submit(&mut sched, 1);
    }
    assert_eq!(last.value, -EIO);
    assert_eq!(sys_heterexec_poll(0, 3, 5).value, (3i64 << 32) | 5);
    assert_eq!(sys_heterexec_poll(2, 3, 5).value, 1);
    assert_eq!(sys_heterexec_poll(9, 3, 5).value, 0);
}

#[test]
fn brk_and_mmap() {
    let mut brk = BrkState::new();
    let base = 0x0000_6000_0000_0000u64;
    let (o, pages) = brk.sys_brk(0);
    assert_eq!(o.value, base as i64);
    assert!(pages.is_none());
    let (o, pages) = brk.sys_brk(base + 10);
    assert_eq!(o.value, (base + 10) as i64);
    assert_eq!(pages, Some((base, base + 4096)));
    let (_, pages) = brk.sys_brk(base + 20);
    assert!(pages.is_none());
    assert_eq!(brk.sys_brk(base).0.value, (base + 20) as i64);
    let mut mm = MmapState::new();
    assert_eq!(mm.sys_mmap(0, 0), Err(EINVAL));
    assert_eq!(mm.sys_mmap(0, 100), Ok((0x0000_7000_0000_0000, 4096)));
    assert_eq!(mm.next, 0x0000_7000_0000_1000);
    assert_eq!(mm.sys_mmap(0x2_0000_0000, 5000), Ok((0x2_0000_0000, 8192)));
    assert_eq!(mm.next, 0x0000_7000_0000_1000);
    assert_eq!(mm.sys_mmap(0x2_0000_0001, 1), Ok((0x0000_7000_0000_1000, 4096)));
}

#[test]
fn error_numbers() {
    assert_eq!((ENOENT, EIO, EBADF, EINVAL, EMFILE, ERANGE, ENOSYS), (2, 5, 9, 22, 24, 34, 38));
}

fn dirent(next: u64, reclen: u16, name: &[u8]) -> Vec<u8> {
    let mut v = Vec::new();
    v.extend_from_slice(&1u64.to_le_bytes());
    v.extend_from_slice(&next.to_le_bytes());
    v.extend_from_slice(&reclen.to_le_bytes());
    v.push(8);
    v.extend_from_slice(name);
    v.push(0);
    v.resize(reclen as usize, 0);
    v
}

#[test]
fn getdents_lists_trimmed_lines() {
    let mut fds = fd_table(8);
    let mut files = OpenFileTable::new();
    alloc_open_file(&mut fds, &mut files, b"/dir", b"  bin \r\n\n etc\nusr").unwrap();
    let (r, bytes) = sys_getdents64(&fds, &mut files, 3, 4096);
    let mut expected = dirent(7, 24, b"bin");
    expected.extend(dirent(12, 24, b"etc"));
    expected.extend(dirent(16, 24, b"usr"));
    assert_eq!(r.value, 72);
    assert_eq!(bytes, expected);
    assert_eq!(files.slots[0].as_ref().unwrap().offset, 16);
}

#[test]
fn getdents_stops_at_the_first_record_that_does_not_fit() {
    let mut fds = fd_table(8);
    let mut files = OpenFileTable::new();
    alloc_open_file(&mut fds, &mut files, b"/dir", b"a\nb\n").unwrap();
    let (r, bytes) = sys_getdents64(&fds, &mut files, 3, 30);
    assert_eq!(r.value, 24);
    assert_eq!(bytes, dirent(2, 24, b"a"));
    assert_eq!(files.slots[0].as_ref().unwrap().offset, 2);
    let (r, bytes) = sys_getdents64(&fds, &mut files, 3, 23);
    assert_eq!(r.value, 0);
    assert!(bytes.is_empty());
    assert_eq!(files.slots[0].as_ref().unwrap().offset, 2);
    let (r, bytes) = sys_getdents64(&fds, &mut files, 3, 4096);
    assert_eq!(r.value, 24);
    assert_eq!(bytes, dirent(4, 24, b"b"));
    let (r, bytes) = sys_getdents64(&fds, &mut files, 3, 4096);
    assert_eq!(r.value, 0);
    assert!(bytes.is_empty());
}

#[test]
fn getdents_errors() {
    let mut fds = fd_table(8);
    let mut files = OpenFileTable::new();
    assert_eq!(sys_getdents64(&fds, &mut files, 3, 64).0.value, -EBADF);
    alloc_open_file(&mut fds, &mut files, b"/bad", &[0x66, 0xff, 0x0a]).unwrap();
    assert_eq!(sys_getdents64(&fds, &mut files, 3, 64).0.value, -EIO);
}

#[test]
fn stat_outcomes() {
    let mut window = b"/tmp/x".to_vec();
    window.push(0);
    window.extend_from_slice(b"junk");
    assert_eq!(user_c_string(&window, None), Ok(b"/tmp/x".to_vec()));
    assert_eq!(user_c_string(b"/tmp", Some(EFAULT)), Err(EFAULT));
    assert_eq!(user_c_string(&vec![b'a'; 1024], None), Err(ERANGE));
    let st = stat_outcome(Ok(b"/tmp/x".to_vec()), Some((false, 5000))).unwrap();
    assert_eq!((st.st_mode, st.st_size, st.st_blocks), (0o100644, 5000, 2));
    let dir = stat_outcome(Ok(b"/tmp".to_vec()), Some((true, 0))).unwrap();
    assert_eq!(dir.st_mode, 0o040755);
    assert_eq!(stat_outcome(Ok(b"/none".to_vec()), None).err(), Some(ENOENT));
    assert_eq!(stat_outcome(Ok(vec![0xff, 0xfe]), None).err(), Some(EINVAL));
    assert_eq!(stat_outcome(Err(ERANGE), None).err(), Some(ERANGE));
}
