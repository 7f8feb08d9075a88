//! The device file system: `/dev` and its fixed device nodes, each read as a short
//! status text.
use vstd::prelude::*;
use crate::text::{chars_eq_str, dec_text, hex_min_text, line_text, push_hex_min, push_line_dec, push_line_str, push_str};
use crate::tty::TtyStats;

verus! {

#[derive(Copy, Clone, Debug, PartialEq, Eq, Structural)]
pub enum DevfsNodeKind {
    Directory,
    Device,
}

#[derive(Copy, Clone, Debug)]
pub struct DevfsSummary {
    pub directory_count: usize,
    pub node_count: usize,
    pub entry_count: usize,
}

#[derive(Copy, Clone, Debug)]
pub struct DevfsMmapInfo {
    pub physical_address: u64,
    pub size: usize,
}

#[derive(Copy, Clone, Debug, PartialEq, Eq, Structural)]
pub enum DevfsError {
    AlreadyInitialized,
}

impl DevfsError {
    pub fn as_str(self) -> (s: &'static str)
        ensures
            s@ == "devfs is already initialized"@,
    {
        match self {
            DevfsError::AlreadyInitialized => "devfs is already initialized",
        }
    }
}

/// The framebuffer as the devices see it.
#[derive(Copy, Clone, Debug)]
pub struct FramebufferInfo {
    pub width: usize,
    pub height: usize,
    pub pitch: usize,
    pub bpp: u16,
}

/// The device node paths.
pub open spec fn device_nodes() -> Seq<Seq<char>> {
    seq![
        "/dev/console"@,
        "/dev/tty0"@,
        "/dev/tty1"@,
        "/dev/tty2"@,
        "/dev/tty3"@,
        "/dev/null"@,
        "/dev/zero"@,
        "/dev/kmsg"@,
        "/dev/fb0"@,
    ]
}

pub fn summary() -> (s: DevfsSummary)
    ensures
        s.directory_count == 2 && s.node_count == 9 && s.entry_count == 11,
{
    DevfsSummary { directory_count: 2, node_count: 9, entry_count: 11 }
}

pub open spec fn is_dev_dir(path: Seq<char>) -> bool {
    path == "/dev"@ || path == "/dev/"@
}

/// `/dev` is the directory; the device nodes are devices.
pub open spec fn kind_of(path: Seq<char>) -> Option<DevfsNodeKind> {
    if is_dev_dir(path) {
        Some(DevfsNodeKind::Directory)
    } else if device_nodes().contains(path) {
        Some(DevfsNodeKind::Device)
    } else {
        None
    }
}

/// The index of the device node at `path`.
fn node_index(path: &[char]) -> (r: Option<usize>)
    ensures
        match r {
            Some(i) => i < 9 && device_nodes()[i as int] == path@,
            None => !device_nodes().contains(path@),
        },
{
    proof {
        reveal_strlit("/dev/console");
        reveal_strlit("/dev/tty0");
        reveal_strlit("/dev/tty1");
        reveal_strlit("/dev/tty2");
        reveal_strlit("/dev/tty3");
        reveal_strlit("/dev/null");
        reveal_strlit("/dev/zero");
        reveal_strlit("/dev/kmsg");
        reveal_strlit("/dev/fb0");
    }
    if chars_eq_str(path, "/dev/console") {
        Some(0)
    } else if chars_eq_str(path, "/dev/tty0") {
        Some(1)
    } else if chars_eq_str(path, "/dev/tty1") {
        Some(2)
    } else if chars_eq_str(path, "/dev/tty2") {
        Some(3)
    } else if chars_eq_str(path, "/dev/tty3") {
        Some(4)
    } else if chars_eq_str(path, "/dev/null") {
        Some(5)
    } else if chars_eq_str(path, "/dev/zero") {
        Some(6)
    } else if chars_eq_str(path, "/dev/kmsg") {
        Some(7)
    } else if chars_eq_str(path, "/dev/fb0") {
        Some(8)
    } else {
        proof {
            assert forall|i: int| 0 <= i < 9 implies device_nodes()[i] != path@ by {
                if i == 0 { assert(device_nodes()[0] == "/dev/console"@); }
            }
        }
        None
    }
}

pub fn node_kind(path: &[char]) -> (r: Option<DevfsNodeKind>)
    ensures
        r == kind_of(path@),
{
    if chars_eq_str(path, "/dev") || chars_eq_str(path, "/dev/") {
        return Some(DevfsNodeKind::Directory);
    }
    match node_index(path) {
        Some(_) => Some(DevfsNodeKind::Device),
        None => None,
    }
}

/// The framebuffer's mapping for `/dev/fb0`.
pub fn mmap(path: &[char], fb: Option<FramebufferInfo>, physical_address: Option<u64>) -> (r: Option<DevfsMmapInfo>)
    requires
        fb matches Some(f) ==> f.pitch * f.height <= usize::MAX,
    ensures
        path@ != "/dev/fb0"@ ==> r is None,
        path@ == "/dev/fb0"@ ==> match (fb, physical_address) {
            (Some(f), Some(p)) => r matches Some(m) && m.physical_address == p && m.size == f.pitch * f.height,
            _ => r is None,
        },
{
    if !chars_eq_str(path, "/dev/fb0") {
        return None;
    }
    match (fb, physical_address) {
        (Some(f), Some(p)) => Some(DevfsMmapInfo { physical_address: p, size: f.pitch * f.height }),
        _ => None,
    }
}

/// What the device file system remembers from boot.
#[derive(Copy, Clone, Debug)]
pub struct DevfsState {
    pub boot_console_id: u32,
    pub boot_output_count: u8,
}

/// The device file system, once initialized.
pub struct Devfs {
    pub state: Option<DevfsState>,
}

impl Devfs {
    pub fn new() -> (d: Self)
        ensures
            d.state is None,
    {
        Devfs { state: None }
    }

    /// Comes up, remembering the console at boot.
    pub fn initialize(&mut self, tty: TtyStats) -> (r: Result<DevfsSummary, DevfsError>)
        ensures
            old(self).state is Some ==> r == Err::<DevfsSummary, DevfsError>(DevfsError::AlreadyInitialized)
                && final(self).state == old(self).state,
            old(self).state is None ==> final(self).state == Some(
                DevfsState { boot_console_id: tty.console_id, boot_output_count: tty.output_count },
            ) && (r matches Ok(s) && s.directory_count == 2 && s.node_count == 9 && s.entry_count == 11),
    {
        if self.state.is_some() {
            return Err(DevfsError::AlreadyInitialized);
        }
        self.state = Some(DevfsState { boot_console_id: tty.console_id, boot_output_count: tty.output_count });
        Ok(summary())
    }
}

/// The listing of `/dev`: the node names one per line.
pub open spec fn root_text() -> Seq<char> {
    "console\ntty0\ntty1\ntty2\ntty3\nnull\nzero\nkmsg\nfb0\n"@
}

pub fn render_root() -> (t: Vec<char>)
    ensures
        t@ == root_text(),
{
    let mut t: Vec<char> = Vec::new();
    push_str(&mut t, "console\ntty0\ntty1\ntty2\ntty3\nnull\nzero\nkmsg\nfb0\n");
    assert(t@ =~= root_text());
    t
}

/// The status of a console node.
pub open spec fn console_text(state: DevfsState, path: Seq<char>, tty: TtyStats) -> Seq<char> {
    line_text("path"@, path) + line_text("kind"@, "tty-console"@) + line_text(
        "console_id"@,
        dec_text(tty.console_id as nat),
    ) + line_text("outputs"@, dec_text(tty.output_count as nat)) + line_text(
        "bytes"@,
        dec_text(tty.bytes_written as nat),
    ) + line_text("lines"@, dec_text(tty.lines_written as nat)) + line_text(
        "boot_console_id"@,
        dec_text(state.boot_console_id as nat),
    ) + line_text("boot_outputs"@, dec_text(state.boot_output_count as nat))
}

pub fn render_console(state: &DevfsState, path: &str, tty: &TtyStats) -> (t: Vec<char>)
    ensures
        t@ == console_text(*state, path@, *tty),
{
    let mut t: Vec<char> = Vec::new();
    push_line_str(&mut t, "path", path);
    push_line_str(&mut t, "kind", "tty-console");
    push_line_dec(&mut t, "console_id", tty.console_id as u64);
    push_line_dec(&mut t, "outputs", tty.output_count as u64);
    push_line_dec(&mut t, "bytes", tty.bytes_written);
    push_line_dec(&mut t, "lines", tty.lines_written);
    push_line_dec(&mut t, "boot_console_id", state.boot_console_id as u64);
    push_line_dec(&mut t, "boot_outputs", state.boot_output_count as u64);
    assert(t@ =~= console_text(*state, path@, *tty));
    t
}

/// The status of a fixed node: its path, kind and two behaviours.
pub open spec fn fixed_text(path: Seq<char>, kind: Seq<char>, a: Seq<char>, b: Seq<char>) -> Seq<char> {
    line_text("path"@, path) + line_text("kind"@, kind) + a + seq!['\n'] + b + seq!['\n']
}

fn render_fixed(path: &str, kind: &str, a: &str, b: &str) -> (t: Vec<char>)
    ensures
        t@ == fixed_text(path@, kind@, a@, b@),
{
    let mut t: Vec<char> = Vec::new();
    push_line_str(&mut t, "path", path);
    push_line_str(&mut t, "kind", kind);
    push_str(&mut t, a);
    t.push('\n');
    push_str(&mut t, b);
    t.push('\n');
    assert(t@ =~= fixed_text(path@, kind@, a@, b@));
    t
}

pub fn render_null() -> (t: Vec<char>)
    ensures
        t@ == fixed_text("/dev/null"@, "sink"@, "reads eof"@, "writes discard"@),
{
    render_fixed("/dev/null", "sink", "reads eof", "writes discard")
}

pub fn render_zero() -> (t: Vec<char>)
    ensures
        t@ == fixed_text("/dev/zero"@, "source"@, "reads zero-fill"@, "writes discard"@),
{
    render_fixed("/dev/zero", "source", "reads zero-fill", "writes discard")
}

pub fn render_kmsg() -> (t: Vec<char>)
    ensures
        t@ == fixed_text("/dev/kmsg"@, "kernel-log"@, "writes append"@, "reads snapshot-unavailable"@),
{
    render_fixed("/dev/kmsg", "kernel-log", "writes append", "reads snapshot-unavailable")
}

/// The status of the framebuffer node: its geometry and address when known.
pub open spec fn fb0_text(fb: Option<FramebufferInfo>, phys: Option<u64>) -> Seq<char> {
    line_text("path"@, "/dev/fb0"@) + line_text("kind"@, "framebuffer"@) + match fb {
        Some(f) => line_text("width"@, dec_text(f.width as nat)) + line_text("height"@, dec_text(f.height as nat))
            + line_text("pitch"@, dec_text(f.pitch as nat)) + line_text("bpp"@, dec_text(f.bpp as nat)),
        None => Seq::empty(),
    } + match phys {
        Some(p) => line_text("phys_addr"@, seq!['0', 'x'] + hex_min_text(p as nat)),
        None => Seq::empty(),
    }
}

pub fn render_fb0(fb: Option<FramebufferInfo>, physical_address: Option<u64>) -> (t: Vec<char>)
    ensures
        t@ == fb0_text(fb, physical_address),
{
    let mut t: Vec<char> = Vec::new();
    push_line_str(&mut t, "path", "/dev/fb0");
    push_line_str(&mut t, "kind", "framebuffer");
    let ghost head = t@;
    match fb {
        Some(f) => {
            push_line_dec(&mut t, "width", f.width as u64);
            push_line_dec(&mut t, "height", f.height as u64);
            push_line_dec(&mut t, "pitch", f.pitch as u64);
            push_line_dec(&mut t, "bpp", f.bpp as u64);
        },
        None => {},
    }
    let ghost mid = t@;
    match physical_address {
        Some(p) => {
            push_str(&mut t, "phys_addr");
            t.push(' ');
            t.push('0');
            t.push('x');
            push_hex_min(&mut t, p);
            t.push('\n');
        },
        None => {},
    }
    proof {
        assert(usize::MAX <= u64::MAX) by {
            vstd::layout::unsigned_int_max_values();
            vstd::arithmetic::power2::lemma2_to64();
            assert(usize::BITS == 32 || usize::BITS == 64);
        }
    }
    assert(t@ =~= fb0_text(fb, physical_address));
    t
}

/// What reading a node gives, before initialization nothing.
pub open spec fn read_text(
    state: Option<DevfsState>,
    path: Seq<char>,
    tty: TtyStats,
    fb: Option<FramebufferInfo>,
    phys: Option<u64>,
) -> Option<Seq<char>> {
    match state {
        None => None,
        Some(s) => if is_dev_dir(path) {
            Some(root_text())
        } else if path == "/dev/console"@ || path == "/dev/tty0"@ || path == "/dev/tty1"@ || path == "/dev/tty2"@
            || path == "/dev/tty3"@ {
            Some(console_text(s, path, tty))
        } else if path == "/dev/null"@ {
            Some(fixed_text("/dev/null"@, "sink"@, "reads eof"@, "writes discard"@))
        } else if path == "/dev/zero"@ {
            Some(fixed_text("/dev/zero"@, "source"@, "reads zero-fill"@, "writes discard"@))
        } else if path == "/dev/kmsg"@ {
            Some(fixed_text("/dev/kmsg"@, "kernel-log"@, "writes append"@, "reads snapshot-unavailable"@))
        } else if path == "/dev/fb0"@ {
            Some(fb0_text(fb, phys))
        } else {
            None
        },
    }
}

/// Reads a node of the device file system.
pub fn read(
    devfs: &Devfs,
    path: &[char],
    tty: &TtyStats,
    fb: Option<FramebufferInfo>,
    physical_address: Option<u64>,
) -> (r: Option<Vec<char>>)
    ensures
        match read_text(devfs.state, path@, *tty, fb, physical_address) {
            Some(t) => r matches Some(v) && v@ == t,
            None => r is None,
        },
{
    let state = match &devfs.state {
        Some(s) => s,
        None => return None,
    };
    if chars_eq_str(path, "/dev") || chars_eq_str(path, "/dev/") {
        return Some(render_root());
    }
    if chars_eq_str(path, "/dev/console") {
        return Some(render_console(state, "/dev/console", tty));
    }
    if chars_eq_str(path, "/dev/tty0") {
        return Some(render_console(state, "/dev/tty0", tty));
    }
    if chars_eq_str(path, "/dev/tty1") {
        return Some(render_console(state, "/dev/tty1", tty));
    }
    if chars_eq_str(path, "/dev/tty2") {
        return Some(render_console(state, "/dev/tty2", tty));
    }
    if chars_eq_str(path, "/dev/tty3") {
        return Some(render_console(state, "/dev/tty3", tty));
    }
    if chars_eq_str(path, "/dev/null") {
        return Some(render_null());
    }
    if chars_eq_str(path, "/dev/zero") {
        return Some(render_zero());
    }
    if chars_eq_str(path, "/dev/kmsg") {
        return Some(render_kmsg());
    }
    if chars_eq_str(path, "/dev/fb0") {
        return Some(render_fb0(fb, physical_address));
    }
    None
}

} // verus!
