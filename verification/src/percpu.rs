//! Per-processor areas: one page per processor, headed by a small record that names the
//! processor and the area's own addresses.
use vstd::prelude::*;
use crate::smp::{CpuTopologyEntry, SmpTopology};
use crate::text::{dec_text, hex_text, push_dec, push_hex, push_str};
use crate::vector::yes_no_text;

verus! {

pub const PERCPU_AREA_BYTES: usize = 4096;
pub const PERCPU_MAGIC: u32 = 0x5043_5055;
pub const PERCPU_VERSION: u16 = 1;
pub const PERCPU_FLAG_BSP: u16 = 1;
pub const PERCPU_FLAG_ONLINE: u16 = 2;
pub const PERCPU_HEADER_BYTES: usize = 40;

#[derive(Copy, Clone, Debug, PartialEq, Eq, Structural)]
pub struct PerCpuEntry {
    pub index: usize,
    pub apic_id: u32,
    pub processor_uid: u32,
    pub is_bsp: bool,
    pub online: bool,
    pub enabled: bool,
    pub physical_base: u64,
    pub virtual_base: u64,
    pub area_bytes: usize,
}

#[derive(Copy, Clone, Debug)]
pub struct PerCpuSummary {
    pub cpu_count: usize,
    pub online_cpus: usize,
    pub current_cpu_index: usize,
    pub current_apic_id: u32,
    pub area_bytes: usize,
    pub total_bytes: usize,
}

#[derive(Copy, Clone, Debug, PartialEq, Eq, Structural)]
pub enum PerCpuError {
    AlreadyInitialized,
    MissingTopology,
    MissingHhdm,
    MissingCurrentCpu,
    FrameAllocationFailed,
}

impl PerCpuError {
    pub fn as_str(self) -> (s: &'static str)
        ensures
            self == PerCpuError::AlreadyInitialized ==> s@ == "per-cpu state is already initialized"@,
            self == PerCpuError::MissingTopology ==> s@ == "smp topology is not initialized"@,
            self == PerCpuError::MissingHhdm ==> s@ == "limine HHDM offset is not available"@,
            self == PerCpuError::MissingCurrentCpu ==> s@ == "current apic id is not present in smp topology"@,
            self == PerCpuError::FrameAllocationFailed ==> s@ == "failed to allocate bootstrap per-cpu frame"@,
    {
        match self {
            PerCpuError::AlreadyInitialized => "per-cpu state is already initialized",
            PerCpuError::MissingTopology => "smp topology is not initialized",
            PerCpuError::MissingHhdm => "limine HHDM offset is not available",
            PerCpuError::MissingCurrentCpu => "current apic id is not present in smp topology",
            PerCpuError::FrameAllocationFailed => "failed to allocate bootstrap per-cpu frame",
        }
    }
}

/// The header flags of a processor: bootstrap and online.
pub open spec fn flag_bits(c: CpuTopologyEntry) -> u16 {
    (if c.is_bsp { PERCPU_FLAG_BSP } else { 0u16 }) | (if c.online { PERCPU_FLAG_ONLINE } else { 0u16 })
}

pub fn cpu_flag_bits(cpu: CpuTopologyEntry) -> (f: u16)
    ensures
        f == flag_bits(cpu),
{
    (if cpu.is_bsp { PERCPU_FLAG_BSP } else { 0u16 }) | (if cpu.online { PERCPU_FLAG_ONLINE } else { 0u16 })
}

/// The size of the area header.
pub fn header_size() -> (n: usize)
    ensures
        n == PERCPU_HEADER_BYTES,
{
    PERCPU_HEADER_BYTES
}

pub open spec fn le16(x: u16) -> Seq<u8> {
    seq![(x & 0xff) as u8, ((x >> 8u16) & 0xff) as u8]
}

pub open spec fn le64(x: u64) -> Seq<u8> {
    crate::cpuid::le_bytes((x & 0xffff_ffff) as u32) + crate::cpuid::le_bytes((x >> 32u64) as u32)
}

/// The header bytes at the start of a processor's area: magic, version, flags, index,
/// APIC id, processor uid, a reserved word, then the area's virtual and physical bases.
pub open spec fn header_bytes_of(c: CpuTopologyEntry, virt: u64, phys: u64) -> Seq<u8> {
    crate::cpuid::le_bytes(PERCPU_MAGIC) + le16(PERCPU_VERSION) + le16(flag_bits(c)) + crate::cpuid::le_bytes(
        c.index as u32,
    ) + crate::cpuid::le_bytes(c.apic_id) + crate::cpuid::le_bytes(c.processor_uid) + crate::cpuid::le_bytes(0)
        + le64(virt) + le64(phys)
}

fn push_le32(out: &mut Vec<u8>, x: u32)
    ensures
        final(out)@ == old(out)@ + crate::cpuid::le_bytes(x),
{
    out.push((x & 0xff) as u8);
    out.push(((x >> 8u32) & 0xff) as u8);
    out.push(((x >> 16u32) & 0xff) as u8);
    out.push(((x >> 24u32) & 0xff) as u8);
    assert(out@ =~= old(out)@ + crate::cpuid::le_bytes(x));
}

fn push_le16(out: &mut Vec<u8>, x: u16)
    ensures
        final(out)@ == old(out)@ + le16(x),
{
    out.push((x & 0xff) as u8);
    out.push(((x >> 8u16) & 0xff) as u8);
    assert(out@ =~= old(out)@ + le16(x));
}

fn push_le64(out: &mut Vec<u8>, x: u64)
    ensures
        final(out)@ == old(out)@ + le64(x),
{
    push_le32(out, (x & 0xffff_ffff) as u32);
    push_le32(out, (x >> 32u64) as u32);
    assert(out@ =~= old(out)@ + le64(x));
}

/// The header written at the start of a processor's area.
pub fn area_header_bytes(cpu: CpuTopologyEntry, virtual_base: u64, physical_base: u64) -> (b: Vec<u8>)
    ensures
        b@ == header_bytes_of(cpu, virtual_base, physical_base),
        b@.len() == PERCPU_HEADER_BYTES,
{
    let mut b: Vec<u8> = Vec::new();
    push_le32(&mut b, PERCPU_MAGIC);
    push_le16(&mut b, PERCPU_VERSION);
    push_le16(&mut b, cpu_flag_bits(cpu));
    push_le32(&mut b, cpu.index as u32);
    push_le32(&mut b, cpu.apic_id);
    push_le32(&mut b, cpu.processor_uid);
    push_le32(&mut b, 0);
    push_le64(&mut b, virtual_base);
    push_le64(&mut b, physical_base);
    assert(b@ =~= header_bytes_of(cpu, virtual_base, physical_base));
    b
}

/// The per-processor state: the running processor and one entry per processor.
pub struct PerCpuState {
    pub current_cpu_index: usize,
    pub current_apic_id: u32,
    pub entries: Vec<PerCpuEntry>,
}

pub open spec fn count_online(s: Seq<PerCpuEntry>) -> int
    decreases s.len(),
{
    if s.len() == 0 { 0 } else { count_online(s.drop_last()) + if s.last().online { 1int } else { 0 } }
}

proof fn lemma_count_online_bound(s: Seq<PerCpuEntry>)
    ensures
        0 <= count_online(s) <= s.len(),
    decreases s.len(),
{
    if s.len() > 0 {
        lemma_count_online_bound(s.drop_last());
    }
}

/// The first processor with `apic_id`.
pub open spec fn position_of(cpus: Seq<CpuTopologyEntry>, apic_id: u32, i: int) -> Option<int>
    decreases cpus.len() - i,
{
    if i < 0 || i >= cpus.len() {
        None
    } else if cpus[i].apic_id == apic_id {
        Some(i)
    } else {
        position_of(cpus, apic_id, i + 1)
    }
}

/// The entry for a processor whose area is the frame at `phys`.
pub open spec fn entry_of(c: CpuTopologyEntry, phys: u64, virt: u64) -> PerCpuEntry {
    PerCpuEntry {
        index: c.index,
        apic_id: c.apic_id,
        processor_uid: c.processor_uid,
        is_bsp: c.is_bsp,
        online: c.online,
        enabled: c.enabled,
        physical_base: phys,
        virtual_base: virt,
        area_bytes: PERCPU_AREA_BYTES,
    }
}

impl PerCpuState {
    pub fn summary(&self) -> (s: PerCpuSummary)
        ensures
            s.cpu_count == self.entries@.len(),
            s.online_cpus == count_online(self.entries@),
            s.current_cpu_index == self.current_cpu_index,
            s.current_apic_id == self.current_apic_id,
            s.area_bytes == if self.entries@.len() == 0 { 0 } else { self.entries@[0].area_bytes as int },
            s.total_bytes == if s.area_bytes * s.cpu_count > usize::MAX {
                usize::MAX as int
            } else {
                s.area_bytes * s.cpu_count
            },
    {
        let mut online: usize = 0;
        let mut i: usize = 0;
        while i < self.entries.len()
            invariant
                i <= self.entries@.len(),
                online == count_online(self.entries@.subrange(0, i as int)),
            decreases self.entries@.len() - i,
        {
            proof {
                assert(self.entries@.subrange(0, i + 1).drop_last() =~= self.entries@.subrange(0, i as int));
                lemma_count_online_bound(self.entries@.subrange(0, i as int));
            }
            if self.entries[i].online {
                online = online + 1;
            }
            i = i + 1;
        }
        assert(self.entries@.subrange(0, self.entries@.len() as int) =~= self.entries@);
        let cpu_count = self.entries.len();
        let area_bytes = if cpu_count == 0 { 0 } else { self.entries[0].area_bytes };
        PerCpuSummary {
            cpu_count,
            online_cpus: online,
            current_cpu_index: self.current_cpu_index,
            current_apic_id: self.current_apic_id,
            area_bytes,
            total_bytes: match area_bytes.checked_mul(cpu_count) {
                Some(v) => v,
                None => usize::MAX,
            },
        }
    }

    /// Lays out the per-processor areas: the running processor must be in the topology,
    /// and each processor gets the next frame of `frames`, addressed through the direct map.
    pub fn initialize(
        already: bool,
        topology: Option<&SmpTopology>,
        hhdm: Option<u64>,
        current_apic_id: u32,
        frames: &[u64],
    ) -> (r: Result<PerCpuState, PerCpuError>)
        ensures
            already ==> r == Err::<PerCpuState, PerCpuError>(PerCpuError::AlreadyInitialized),
            !already && topology is None ==> r == Err::<PerCpuState, PerCpuError>(PerCpuError::MissingTopology),
            !already && topology is Some && hhdm is None ==> r == Err::<PerCpuState, PerCpuError>(
                PerCpuError::MissingHhdm,
            ),
            !already ==> match (topology, hhdm) {
                (Some(t), Some(h)) => match position_of(t.cpus@, current_apic_id, 0) {
                    None => r == Err::<PerCpuState, PerCpuError>(PerCpuError::MissingCurrentCpu),
                    Some(idx) => {
                        let n = t.cpus@.len();
                        if frames@.len() < n {
                            r == Err::<PerCpuState, PerCpuError>(PerCpuError::FrameAllocationFailed)
                        } else if exists|i: int| 0 <= i < n && h + #[trigger] frames@[i] > u64::MAX {
                            r == Err::<PerCpuState, PerCpuError>(PerCpuError::MissingHhdm)
                        } else {
                            r matches Ok(s) && s.current_cpu_index == idx && s.current_apic_id == current_apic_id
                                && s.entries@.len() == n && forall|i: int|
                                0 <= i < n ==> #[trigger] s.entries@[i] == entry_of(
                                    t.cpus@[i],
                                    frames@[i],
                                    (h + frames@[i]) as u64,
                                )
                        }
                    },
                },
                _ => true,
            },
    {
        if already {
            return Err(PerCpuError::AlreadyInitialized);
        }
        let t = match topology {
            Some(t) => t,
            None => return Err(PerCpuError::MissingTopology),
        };
        let hhdm_offset = match hhdm {
            Some(h) => h,
            None => return Err(PerCpuError::MissingHhdm),
        };
        let mut current: Option<usize> = None;
        let mut k: usize = 0;
        while k < t.cpus.len() && current.is_none()
            invariant
                k <= t.cpus@.len(),
                current is None ==> position_of(t.cpus@, current_apic_id, 0) == position_of(
                    t.cpus@,
                    current_apic_id,
                    k as int,
                ),
                current matches Some(c) ==> position_of(t.cpus@, current_apic_id, 0) == Some(c as int),
            decreases t.cpus@.len() - k + (if current is None { 1int } else { 0 }),
        {
            if t.cpus[k].apic_id == current_apic_id {
                current = Some(k);
            } else {
                k = k + 1;
            }
        }
        let current_cpu_index = match current {
            Some(c) => c,
            None => return Err(PerCpuError::MissingCurrentCpu),
        };
        if frames.len() < t.cpus.len() {
            return Err(PerCpuError::FrameAllocationFailed);
        }
        let mut entries: Vec<PerCpuEntry> = Vec::new();
        let mut i: usize = 0;
        while i < t.cpus.len()
            invariant
                i <= t.cpus@.len(),
                t.cpus@.len() <= frames@.len(),
                !already,
                topology == Some(t),
                hhdm == Some(hhdm_offset),
                position_of(t.cpus@, current_apic_id, 0) == Some(current_cpu_index as int),
                entries@.len() == i,
                forall|j: int| 0 <= j < i ==> hhdm_offset + #[trigger] frames@[j] <= u64::MAX,
                forall|j: int| 0 <= j < i ==> #[trigger] entries@[j] == entry_of(
                    t.cpus@[j],
                    frames@[j],
                    (hhdm_offset + frames@[j]) as u64,
                ),
            decreases t.cpus@.len() - i,
        {
            let cpu = t.cpus[i];
            let physical_base = frames[i];
            let virtual_base = match hhdm_offset.checked_add(physical_base) {
                Some(v) => v,
                None => return Err(PerCpuError::MissingHhdm),
            };
            entries.push(
                PerCpuEntry {
                    index: cpu.index,
                    apic_id: cpu.apic_id,
                    processor_uid: cpu.processor_uid,
                    is_bsp: cpu.is_bsp,
                    online: cpu.online,
                    enabled: cpu.enabled,
                    physical_base,
                    virtual_base,
                    area_bytes: PERCPU_AREA_BYTES,
                },
            );
            i = i + 1;
        }
        Ok(PerCpuState { current_cpu_index, current_apic_id, entries })
    }
}

/// The virtual base of processor `index`'s area.
pub fn entry_virtual_base(state: Option<&PerCpuState>, index: usize) -> (r: Option<u64>)
    ensures
        r == match state {
            Some(s) => if index < s.entries@.len() { Some(s.entries@[index as int].virtual_base) } else { None },
            None => None,
        },
{
    match state {
        Some(s) => if index < s.entries.len() {
            Some(s.entries[index].virtual_base)
        } else {
            None
        },
        None => None,
    }
}

/// The summary, once initialized.
pub fn summary(state: Option<&PerCpuState>) -> (r: Option<PerCpuSummary>)
    ensures
        state is None ==> r is None,
        state matches Some(s) ==> (r matches Some(x) && x.cpu_count == s.entries@.len() && x.online_cpus
            == count_online(s.entries@)),
{
    match state {
        Some(s) => Some(s.summary()),
        None => None,
    }
}

pub open spec fn hex18(n: u64) -> Seq<char> {
    seq!['0', 'x'] + hex_text(n as nat, 16)
}

pub open spec fn kv(label: Seq<char>, n: nat) -> Seq<char> {
    label + seq![' '] + dec_text(n) + seq!['\n']
}

/// The line for one processor's area.
pub open spec fn cpu_line(e: PerCpuEntry) -> Seq<char> {
    "cpu"@ + dec_text(e.index as nat) + " apic="@ + dec_text(e.apic_id as nat) + " uid="@ + dec_text(
        e.processor_uid as nat,
    ) + " bsp="@ + yes_no_text(e.is_bsp) + " online="@ + yes_no_text(e.online) + " enabled="@ + yes_no_text(
        e.enabled,
    ) + " phys="@ + hex18(e.physical_base) + " virt="@ + hex18(e.virtual_base) + " bytes="@ + dec_text(
        e.area_bytes as nat,
    ) + seq!['\n']
}

pub open spec fn cpu_lines(es: Seq<PerCpuEntry>) -> Seq<char>
    decreases es.len(),
{
    if es.len() == 0 { Seq::empty() } else { cpu_lines(es.drop_last()) + cpu_line(es.last()) }
}

/// The status text for a summary and its entries.
pub open spec fn status_text(s: PerCpuSummary, es: Seq<PerCpuEntry>) -> Seq<char> {
    "initialized yes cpus="@ + dec_text(s.cpu_count as nat) + " online="@ + dec_text(s.online_cpus as nat)
        + " current_index="@ + dec_text(s.current_cpu_index as nat) + " current_apic_id="@ + dec_text(
        s.current_apic_id as nat,
    ) + " area_bytes="@ + dec_text(s.area_bytes as nat) + " total_bytes="@ + dec_text(s.total_bytes as nat)
        + seq!['\n'] + kv("cpus"@, s.cpu_count as nat) + kv("online"@, s.online_cpus as nat) + kv(
        "current_index"@,
        s.current_cpu_index as nat,
    ) + kv("current_apic_id"@, s.current_apic_id as nat) + kv("area_bytes"@, s.area_bytes as nat) + kv(
        "total_bytes"@,
        s.total_bytes as nat,
    ) + cpu_lines(es)
}

fn push_kv(text: &mut Vec<char>, label: &str, n: u64)
    ensures
        final(text)@ == old(text)@ + kv(label@, n as nat),
{
    push_str(text, label);
    text.push(' ');
    push_dec(text, n);
    text.push('\n');
    assert(text@ =~= old(text)@ + kv(label@, n as nat));
}

fn push_yes_no(text: &mut Vec<char>, b: bool)
    ensures
        final(text)@ == old(text)@ + yes_no_text(b),
{
    proof {
        reveal_strlit("yes");
        reveal_strlit("no");
    }
    push_str(text, crate::text::yes_no(b));
}

#[verifier::spinoff_prover]
#[verifier::rlimit(100)]
fn push_cpu_line(text: &mut Vec<char>, e: &PerCpuEntry)
    ensures
        final(text)@ == old(text)@ + cpu_line(*e),
{
    push_str(text, "cpu");
    push_dec(text, e.index as u64);
    push_str(text, " apic=");
    push_dec(text, e.apic_id as u64);
    push_str(text, " uid=");
    push_dec(text, e.processor_uid as u64);
    push_str(text, " bsp=");
    push_yes_no(text, e.is_bsp);
    push_str(text, " online=");
    push_yes_no(text, e.online);
    push_str(text, " enabled=");
    push_yes_no(text, e.enabled);
    push_str(text, " phys=");
    push_hex(text, e.physical_base, 16);
    push_str(text, " virt=");
    push_hex(text, e.virtual_base, 16);
    push_str(text, " bytes=");
    push_dec(text, e.area_bytes as u64);
    text.push('\n');
    assert(text@ =~= old(text)@ + cpu_line(*e));
}

/// Renders the per-processor status; `initialized no` before initialization.
pub fn render_status(state: Option<&PerCpuState>) -> (text: Vec<char>)
    ensures
        state is None ==> text@ == "initialized no\n"@,
        state matches Some(s) ==> text@ == status_text(s.summary_spec(), s.entries@),
{
    let mut text: Vec<char> = Vec::new();
    let s = match state {
        Some(s) => s,
        None => {
            push_str(&mut text, "initialized no\n");
            assert(text@ =~= "initialized no\n"@);
            return text;
        },
    };
    let summary = s.summary();
    push_str(&mut text, "initialized yes cpus=");
    push_dec(&mut text, summary.cpu_count as u64);
    push_str(&mut text, " online=");
    push_dec(&mut text, summary.online_cpus as u64);
    push_str(&mut text, " current_index=");
    push_dec(&mut text, summary.current_cpu_index as u64);
    push_str(&mut text, " current_apic_id=");
    push_dec(&mut text, summary.current_apic_id as u64);
    push_str(&mut text, " area_bytes=");
    push_dec(&mut text, summary.area_bytes as u64);
    push_str(&mut text, " total_bytes=");
    push_dec(&mut text, summary.total_bytes as u64);
    text.push('\n');
    push_kv(&mut text, "cpus", summary.cpu_count as u64);
    push_kv(&mut text, "online", summary.online_cpus as u64);
    push_kv(&mut text, "current_index", summary.current_cpu_index as u64);
    push_kv(&mut text, "current_apic_id", summary.current_apic_id as u64);
    push_kv(&mut text, "area_bytes", summary.area_bytes as u64);
    push_kv(&mut text, "total_bytes", summary.total_bytes as u64);
    let ghost head = text@;
    let mut i: usize = 0;
    while i < s.entries.len()
        invariant
            i <= s.entries@.len(),
            text@ == head + cpu_lines(s.entries@.subrange(0, i as int)),
        decreases s.entries@.len() - i,
    {
        push_cpu_line(&mut text, &s.entries[i]);
        assert(s.entries@.subrange(0, i + 1).drop_last() =~= s.entries@.subrange(0, i as int));
        i = i + 1;
        assert(text@ =~= head + cpu_lines(s.entries@.subrange(0, i as int)));
    }
    assert(s.entries@.subrange(0, s.entries@.len() as int) =~= s.entries@);
    assert(text@ =~= status_text(summary, s.entries@));
    text
}

impl PerCpuState {
    /// The summary as the contracts see it.
    pub open spec fn summary_spec(&self) -> PerCpuSummary {
        let n = self.entries@.len();
        let area = if n == 0 { 0 } else { self.entries@[0].area_bytes as int };
        PerCpuSummary {
            cpu_count: n as usize,
            online_cpus: count_online(self.entries@) as usize,
            current_cpu_index: self.current_cpu_index,
            current_apic_id: self.current_apic_id,
            area_bytes: area as usize,
            total_bytes: if area * n > usize::MAX { usize::MAX } else { (area * n) as usize },
        }
    }
}

} // verus!
