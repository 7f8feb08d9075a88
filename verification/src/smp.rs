//! The processor set: one entry per MADT processor, the bootstrap processor found by its
//! APIC id, and which processors are online.
use vstd::prelude::*;
use crate::acpi::{MadtInfo, MadtProcessor};

verus! {

/// What the bootstrap processor knows about itself.
#[derive(Copy, Clone, Debug)]
pub struct CpuInfo {
    pub initial_apic_id: u32,
    pub bootstrap_processor: bool,
}

#[derive(Copy, Clone, Debug, PartialEq, Eq, Structural)]
pub struct CpuTopologyEntry {
    pub index: usize,
    pub processor_uid: u32,
    pub apic_id: u32,
    pub enabled: bool,
    pub online_capable: bool,
    pub x2apic: bool,
    pub is_bsp: bool,
    pub online: bool,
}

impl CpuTopologyEntry {
    pub fn apic_mode(self) -> (s: &'static str)
        ensures
            self.x2apic ==> s@ == "x2apic"@,
            !self.x2apic ==> s@ == "xapic"@,
    {
        if self.x2apic {
            "x2apic"
        } else {
            "xapic"
        }
    }
}

#[derive(Copy, Clone, Debug)]
pub struct SmpSummary {
    pub total_cpus: usize,
    pub enabled_cpus: usize,
    pub online_cpus: usize,
    pub bringup_targets: usize,
    pub x2apic_cpus: usize,
    pub ap_count: usize,
    pub bsp_apic_id: u32,
    pub current_cpu_index: usize,
}

#[derive(Copy, Clone, Debug, PartialEq, Eq, Structural)]
pub enum SmpError {
    EmptyProcessorSet,
    MissingBspMatch,
}

impl SmpError {
    pub fn as_str(self) -> (s: &'static str)
        ensures
            self == SmpError::EmptyProcessorSet ==> s@ == "madt does not expose any processors"@,
            self == SmpError::MissingBspMatch ==> s@ == "madt does not contain the current bsp apic id"@,
    {
        match self {
            SmpError::EmptyProcessorSet => "madt does not expose any processors",
            SmpError::MissingBspMatch => "madt does not contain the current bsp apic id",
        }
    }
}

/// How many entries satisfy a predicate.
pub open spec fn count_cpus(s: Seq<CpuTopologyEntry>, f: spec_fn(CpuTopologyEntry) -> bool) -> int
    decreases s.len(),
{
    if s.len() == 0 {
        0
    } else {
        count_cpus(s.drop_last(), f) + if f(s.last()) { 1int } else { 0 }
    }
}

proof fn lemma_count_cpus_bound(s: Seq<CpuTopologyEntry>, f: spec_fn(CpuTopologyEntry) -> bool)
    ensures
        0 <= count_cpus(s, f) <= s.len(),
    decreases s.len(),
{
    if s.len() > 0 {
        lemma_count_cpus_bound(s.drop_last(), f);
    }
}

pub open spec fn is_enabled(c: CpuTopologyEntry) -> bool {
    c.enabled
}

pub open spec fn is_online(c: CpuTopologyEntry) -> bool {
    c.online
}

pub open spec fn is_target(c: CpuTopologyEntry) -> bool {
    c.enabled && !c.online
}

pub open spec fn is_x2apic(c: CpuTopologyEntry) -> bool {
    c.x2apic
}

/// The first entry waiting to be brought up.
pub open spec fn first_target(s: Seq<CpuTopologyEntry>, i: int) -> Option<CpuTopologyEntry>
    decreases s.len() - i,
{
    if i < 0 || i >= s.len() {
        None
    } else if is_target(s[i]) {
        Some(s[i])
    } else {
        first_target(s, i + 1)
    }
}

/// The processors, the bootstrap processor's APIC id, and the index of the running one.
pub struct SmpTopology {
    pub bsp_apic_id: u32,
    pub current_cpu_index: usize,
    pub cpus: Vec<CpuTopologyEntry>,
}

impl SmpTopology {
    pub open spec fn wf(&self) -> bool {
        self.current_cpu_index < self.cpus@.len()
    }

    pub fn summary(&self) -> (s: SmpSummary)
        ensures
            s.total_cpus == self.cpus@.len(),
            s.enabled_cpus == count_cpus(self.cpus@, |c: CpuTopologyEntry| is_enabled(c)),
            s.online_cpus == count_cpus(self.cpus@, |c: CpuTopologyEntry| is_online(c)),
            s.bringup_targets == count_cpus(self.cpus@, |c: CpuTopologyEntry| is_target(c)),
            s.x2apic_cpus == count_cpus(self.cpus@, |c: CpuTopologyEntry| is_x2apic(c)),
            s.ap_count == if self.cpus@.len() == 0 { 0 } else { self.cpus@.len() - 1 },
            s.bsp_apic_id == self.bsp_apic_id,
            s.current_cpu_index == self.current_cpu_index,
    {
        let mut enabled: usize = 0;
        let mut online: usize = 0;
        let mut targets: usize = 0;
        let mut x2apic: usize = 0;
        let mut i: usize = 0;
        while i < self.cpus.len()
            invariant
                i <= self.cpus@.len(),
                enabled == count_cpus(self.cpus@.subrange(0, i as int), |c: CpuTopologyEntry| is_enabled(c)),
                online == count_cpus(self.cpus@.subrange(0, i as int), |c: CpuTopologyEntry| is_online(c)),
                targets == count_cpus(self.cpus@.subrange(0, i as int), |c: CpuTopologyEntry| is_target(c)),
                x2apic == count_cpus(self.cpus@.subrange(0, i as int), |c: CpuTopologyEntry| is_x2apic(c)),
            decreases self.cpus@.len() - i,
        {
            proof {
                let sub = self.cpus@.subrange(0, i as int);
                assert(self.cpus@.subrange(0, i + 1).drop_last() =~= sub);
                lemma_count_cpus_bound(sub, |c: CpuTopologyEntry| is_enabled(c));
                lemma_count_cpus_bound(sub, |c: CpuTopologyEntry| is_online(c));
                lemma_count_cpus_bound(sub, |c: CpuTopologyEntry| is_target(c));
                lemma_count_cpus_bound(sub, |c: CpuTopologyEntry| is_x2apic(c));
            }
            let c = self.cpus[i];
            if c.enabled {
                enabled = enabled + 1;
            }
            if c.online {
                online = online + 1;
            }
            if c.enabled && !c.online {
                targets = targets + 1;
            }
            if c.x2apic {
                x2apic = x2apic + 1;
            }
            i = i + 1;
        }
        assert(self.cpus@.subrange(0, self.cpus@.len() as int) =~= self.cpus@);
        let total = self.cpus.len();
        SmpSummary {
            total_cpus: total,
            enabled_cpus: enabled,
            online_cpus: online,
            bringup_targets: targets,
            x2apic_cpus: x2apic,
            ap_count: total.saturating_sub(1),
            bsp_apic_id: self.bsp_apic_id,
            current_cpu_index: self.current_cpu_index,
        }
    }

    pub fn current_cpu(&self) -> (c: CpuTopologyEntry)
        requires
            self.wf(),
        ensures
            c == self.cpus@[self.current_cpu_index as int],
    {
        self.cpus[self.current_cpu_index]
    }

    pub fn first_bringup_target(&self) -> (r: Option<CpuTopologyEntry>)
        ensures
            r == first_target(self.cpus@, 0),
    {
        let mut i: usize = 0;
        while i < self.cpus.len()
            invariant
                i <= self.cpus@.len(),
                first_target(self.cpus@, 0) == first_target(self.cpus@, i as int),
            decreases self.cpus@.len() - i,
        {
            let c = self.cpus[i];
            if c.enabled && !c.online {
                return Some(c);
            }
            i = i + 1;
        }
        None
    }
}

/// The entry for MADT processor `index`; it is the bootstrap processor, and online, when
/// this is the bootstrap processor and the APIC ids match.
pub open spec fn cpu_entry(index: usize, p: MadtProcessor, bsp_apic_id: u32, bootstrap: bool) -> CpuTopologyEntry {
    let is_bsp = bootstrap && p.apic_id == bsp_apic_id;
    CpuTopologyEntry {
        index,
        processor_uid: p.processor_uid,
        apic_id: p.apic_id,
        enabled: p.enabled,
        online_capable: p.online_capable,
        x2apic: p.x2apic,
        is_bsp,
        online: is_bsp,
    }
}

pub fn build_cpu_entry(index: usize, processor: MadtProcessor, bsp_apic_id: u32, bootstrap_processor: bool) -> (e: CpuTopologyEntry)
    ensures
        e == cpu_entry(index, processor, bsp_apic_id, bootstrap_processor),
{
    let is_bsp = bootstrap_processor && processor.apic_id == bsp_apic_id;
    CpuTopologyEntry {
        index,
        processor_uid: processor.processor_uid,
        apic_id: processor.apic_id,
        enabled: processor.enabled,
        online_capable: processor.online_capable,
        x2apic: processor.x2apic,
        is_bsp,
        online: is_bsp,
    }
}

/// The last processor index that is the bootstrap processor, before `n`.
pub open spec fn last_bsp(ps: Seq<MadtProcessor>, n: int, bsp_apic_id: u32, bootstrap: bool) -> Option<int>
    decreases n,
{
    if n <= 0 {
        None
    } else if bootstrap && ps[n - 1].apic_id == bsp_apic_id {
        Some(n - 1)
    } else {
        last_bsp(ps, n - 1, bsp_apic_id, bootstrap)
    }
}

/// The processor set, once built.
pub struct SmpState {
    pub topology: Option<SmpTopology>,
}

impl SmpState {
    pub fn new() -> (s: Self)
        ensures
            s.topology is None,
    {
        SmpState { topology: None }
    }

    /// Builds the processor set from the MADT; the running processor must be among them.
    pub fn initialize(&mut self, cpu_info: &CpuInfo, madt: &MadtInfo) -> (r: Result<SmpSummary, SmpError>)
        ensures
            madt.processors@.len() == 0 ==> r == Err::<SmpSummary, SmpError>(SmpError::EmptyProcessorSet)
                && final(self).topology == old(self).topology,
            madt.processors@.len() > 0 && last_bsp(
                madt.processors@,
                madt.processors@.len() as int,
                cpu_info.initial_apic_id,
                cpu_info.bootstrap_processor,
            ) is None ==> r == Err::<SmpSummary, SmpError>(SmpError::MissingBspMatch) && final(self).topology
                == old(self).topology,
            r is Ok ==> (final(self).topology matches Some(t) && t.wf() && t.bsp_apic_id == cpu_info.initial_apic_id
                && Some(t.current_cpu_index as int) == last_bsp(
                madt.processors@,
                madt.processors@.len() as int,
                cpu_info.initial_apic_id,
                cpu_info.bootstrap_processor,
            ) && t.cpus@.len() == madt.processors@.len() && (forall|i: int|
                0 <= i < t.cpus@.len() ==> #[trigger] t.cpus@[i] == cpu_entry(
                    i as usize,
                    madt.processors@[i],
                    cpu_info.initial_apic_id,
                    cpu_info.bootstrap_processor,
                ))),
            r is Err ==> final(self).topology == old(self).topology,
            madt.processors@.len() > 0 && last_bsp(
                madt.processors@,
                madt.processors@.len() as int,
                cpu_info.initial_apic_id,
                cpu_info.bootstrap_processor,
            ) is Some ==> r is Ok,
    {
        if madt.processors.len() == 0 {
            return Err(SmpError::EmptyProcessorSet);
        }
        let bsp_apic_id = cpu_info.initial_apic_id;
        let mut cpus: Vec<CpuTopologyEntry> = Vec::new();
        let mut current: Option<usize> = None;
        let mut index: usize = 0;
        while index < madt.processors.len()
            invariant
                index <= madt.processors@.len(),
                cpus@.len() == index,
                bsp_apic_id == cpu_info.initial_apic_id,
                forall|i: int| 0 <= i < index ==> #[trigger] cpus@[i] == cpu_entry(
                    i as usize,
                    madt.processors@[i],
                    bsp_apic_id,
                    cpu_info.bootstrap_processor,
                ),
                match current {
                    Some(c) => last_bsp(madt.processors@, index as int, bsp_apic_id, cpu_info.bootstrap_processor)
                        == Some(c as int),
                    None => last_bsp(madt.processors@, index as int, bsp_apic_id, cpu_info.bootstrap_processor) is None,
                },
            decreases madt.processors@.len() - index,
        {
            let entry = build_cpu_entry(index, madt.processors[index], bsp_apic_id, cpu_info.bootstrap_processor);
            if entry.is_bsp {
                current = Some(index);
            }
            cpus.push(entry);
            index = index + 1;
        }
        let current_cpu_index = match current {
            Some(c) => c,
            None => return Err(SmpError::MissingBspMatch),
        };
        proof {
            lemma_last_bsp_bound(madt.processors@, madt.processors@.len() as int, bsp_apic_id, cpu_info.bootstrap_processor);
        }
        let topology = SmpTopology { bsp_apic_id, current_cpu_index, cpus };
        let summary = topology.summary();
        self.topology = Some(topology);
        Ok(summary)
    }

    /// Marks processor `index` online; out of range or before initialization nothing changes.
    pub fn mark_cpu_online(&mut self, index: usize)
        ensures
            match old(self).topology {
                None => final(self).topology is None,
                Some(t) => final(self).topology matches Some(t2) && t2.bsp_apic_id == t.bsp_apic_id
                    && t2.current_cpu_index == t.current_cpu_index && if index < t.cpus@.len() {
                    t2.cpus@ == t.cpus@.update(index as int, CpuTopologyEntry { online: true, ..t.cpus@[index as int] })
                } else {
                    t2.cpus@ == t.cpus@
                },
            },
    {
        match self.topology.take() {
            None => {},
            Some(mut t) => {
                if index < t.cpus.len() {
                    let mut c = t.cpus[index];
                    c.online = true;
                    t.cpus.set(index, c);
                }
                self.topology = Some(t);
            },
        }
    }
}

proof fn lemma_last_bsp_bound(ps: Seq<MadtProcessor>, n: int, id: u32, b: bool)
    ensures
        last_bsp(ps, n, id, b) matches Some(i) ==> 0 <= i < n,
    decreases n,
{
    if n > 0 && !(b && ps[n - 1].apic_id == id) {
        lemma_last_bsp_bound(ps, n - 1, id, b);
    }
}

} // verus!
