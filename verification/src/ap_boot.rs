//! Bringing up the application processors: the trampoline page at 0x8000, its GDT
//! patched to run from there, a mailbox per processor, and the INIT-SIPI-SIPI handshake.
//! The decisions are a state machine; the caller maps pages, allocates frames, sends the
//! interrupts, waits, and reports back.
use vstd::prelude::*;
use crate::smp::CpuTopologyEntry;

verus! {

pub const TRAMPOLINE_PHYSICAL_BASE: u64 = 0x8000;
pub const MAILBOX_OFFSET: usize = 0x380;
pub const MAILBOX_DONE_FLAG: usize = 0x380;
pub const MAILBOX_CPU_INDEX: usize = 0x384;
pub const MAILBOX_STACK_PTR: usize = 0x388;
pub const MAILBOX_PAGE_TABLE: usize = 0x390;
pub const MAILBOX_RUST_ENTRY: usize = 0x398;
pub const MAILBOX_PERCPU_BASE: usize = 0x3A0;
pub const GDTR_BASE_OFFSET: usize = 0x02F2;
pub const GDT_OFFSET: u64 = 0x0300;
pub const GDT_32BIT_CODE_DESC_OFFSET: usize = 0x0308;
pub const GDT_32BIT_DATA_DESC_OFFSET: usize = 0x0310;
pub const CR3_ADDRESS_MASK: u64 = 0x000f_ffff_ffff_f000;
pub const AP_STACK_BYTES: u64 = 4096;
/// The startup vector: the trampoline's page number.
pub const STARTUP_VECTOR: u8 = 8;
pub const INIT_SETTLE_NS: u64 = 10_000_000;
pub const FIRST_STARTUP_WAIT_NS: u64 = 10_000_000;
pub const SECOND_STARTUP_WAIT_NS: u64 = 50_000_000;

#[derive(Copy, Clone, Debug, PartialEq, Eq, Structural)]
pub struct ApBringUpSummary {
    pub attempted: usize,
    pub online: usize,
    pub failed: usize,
}

/// What a processor finds in the mailbox when it wakes: its index, the top of its stack,
/// the page tables to load and its per-CPU area.
#[derive(Copy, Clone, Debug, PartialEq, Eq, Structural)]
pub struct ApMailbox {
    pub cpu_index: u32,
    pub stack_top: u64,
    pub page_table: u64,
    pub percpu_base: u64,
}

/// The byte writes that point a 32-bit descriptor's base at `base`: bytes 0 to 2 of the base
/// at offsets 2 to 4, byte 3 at offset 7.
pub open spec fn base_patch(desc: usize, base: u32) -> Seq<(usize, u8)> {
    seq![
        ((desc + 2) as usize, (base & 0xff) as u8),
        ((desc + 3) as usize, ((base >> 8u32) & 0xff) as u8),
        ((desc + 4) as usize, ((base >> 16u32) & 0xff) as u8),
        ((desc + 7) as usize, ((base >> 24u32) & 0xff) as u8),
    ]
}

/// The trampoline's GDT patched to run at its physical base: the GDT register's base is
/// the GDT's physical address, and both 32-bit descriptors get the trampoline base.
pub open spec fn trampoline_patch_bytes() -> Seq<(usize, u8)> {
    base_patch(GDT_32BIT_CODE_DESC_OFFSET, TRAMPOLINE_PHYSICAL_BASE as u32) + base_patch(
        GDT_32BIT_DATA_DESC_OFFSET,
        TRAMPOLINE_PHYSICAL_BASE as u32,
    )
}

/// What the bring-up asks the caller to do next.
#[derive(Copy, Clone, Debug)]
pub enum ApAction {
    /// Identity-map the trampoline page.
    MapTrampoline { phys: u64 },
    /// Copy the trampoline into its page, store `gdtr_base` at the GDT register's base
    /// field, make the byte writes, then read CR3.
    InstallTrampoline { gdtr_base: u32, patches: [(usize, u8); 8] },
    /// Allocate a frame for the next processor's stack.
    AllocateStack,
    /// Look up the per-CPU area of processor `cpu_index`.
    LookupPercpu { cpu_index: usize },
    /// Fill the mailbox, send INIT, wait, de-assert, wait, send the startup IPI with
    /// `vector`, and wait up to `wait_ns` for the done flag.
    StartCpu { apic_id: u32, mailbox: ApMailbox, vector: u8, wait_ns: u64 },
    /// Send the startup IPI once more and wait up to `wait_ns` for the done flag.
    RetryStartup { apic_id: u32, vector: u8, wait_ns: u64 },
    /// Mark processor `cpu_index` online.
    MarkOnline { cpu_index: usize },
    /// Bring-up is over.
    Finished(ApBringUpSummary),
}

/// What the caller reports back.
#[derive(Copy, Clone, Debug, PartialEq, Eq, Structural)]
pub enum ApEvent {
    Start,
    TrampolineMapped(bool),
    /// The raw CR3 value read after the trampoline went in.
    TrampolineInstalled(u64),
    /// The physical address of a stack frame, if one was allocated.
    StackFrame(Option<u64>),
    /// The per-CPU area, if the processor has one.
    PercpuBase(Option<u64>),
    /// Whether the processor raised its done flag in time.
    StartupDone(bool),
    MarkedOnline,
}

#[derive(Copy, Clone, Debug, PartialEq, Eq, Structural)]
pub enum ApPhase {
    Idle,
    Mapping,
    Installing,
    AwaitStack,
    AwaitPercpu,
    AwaitFirstStartup,
    AwaitSecondStartup,
    AwaitMark,
    Done,
}

/// A processor to bring up: its index and APIC id.
#[derive(Copy, Clone, Debug, PartialEq, Eq, Structural)]
pub struct ApTarget {
    pub index: usize,
    pub apic_id: u32,
}

/// The processors to bring up, in topology order: the enabled ones other than the
/// bootstrap processor.
pub open spec fn ap_targets(cpus: Seq<CpuTopologyEntry>) -> Seq<ApTarget>
    decreases cpus.len(),
{
    if cpus.len() == 0 {
        Seq::empty()
    } else {
        let rest = ap_targets(cpus.drop_last());
        let c = cpus.last();
        if c.enabled && !c.is_bsp { rest.push(ApTarget { index: c.index, apic_id: c.apic_id }) } else { rest }
    }
}

pub struct ApBringUp {
    pub hhdm_offset: u64,
    pub targets: Vec<ApTarget>,
    /// The target being worked on; those before it are done.
    pub pos: usize,
    pub phase: ApPhase,
    pub page_table: u64,
    pub stack_top: u64,
    pub online: usize,
    pub failed: usize,
}

impl ApBringUp {
    pub open spec fn wf(&self) -> bool {
        &&& self.pos <= self.targets@.len()
        &&& self.online + self.failed == self.pos
        &&& (self.phase == ApPhase::AwaitStack || self.phase == ApPhase::AwaitPercpu || self.phase
            == ApPhase::AwaitFirstStartup || self.phase == ApPhase::AwaitSecondStartup || self.phase
            == ApPhase::AwaitMark) ==> self.pos < self.targets@.len()
        &&& (self.phase == ApPhase::Idle || self.phase == ApPhase::Mapping || self.phase
            == ApPhase::Installing) ==> self.pos == 0
    }

    pub fn new(cpus: &Vec<CpuTopologyEntry>, hhdm_offset: u64) -> (b: Self)
        ensures
            b.wf(),
            b.targets@ == ap_targets(cpus@),
            b.hhdm_offset == hhdm_offset,
            b.phase == ApPhase::Idle,
            b.pos == 0 && b.online == 0 && b.failed == 0,
            b.reports_left() == 3 + 5 * ap_targets(cpus@).len(),
    {
        let mut targets: Vec<ApTarget> = Vec::new();
        let mut i: usize = 0;
        while i < cpus.len()
            invariant
                i <= cpus@.len(),
                targets@ == ap_targets(cpus@.take(i as int)),
            decreases cpus.len() - i,
        {
            let c = cpus[i];
            if c.enabled && !c.is_bsp {
                targets.push(ApTarget { index: c.index, apic_id: c.apic_id });
            }
            proof {
                assert(cpus@.take(i + 1).drop_last() =~= cpus@.take(i as int));
            }
            i = i + 1;
        }
        assert(cpus@.take(cpus@.len() as int) =~= cpus@);
        ApBringUp {
            hhdm_offset,
            targets,
            pos: 0,
            phase: ApPhase::Idle,
            page_table: 0,
            stack_top: 0,
            online: 0,
            failed: 0,
        }
    }

    /// An upper bound on the reports still to come before bring-up finishes: three to
    /// install the trampoline, then at most five per processor.
    pub open spec fn reports_left(&self) -> nat {
        let later = if self.pos < self.targets@.len() {
            (self.targets@.len() - self.pos - 1) as nat
        } else {
            0nat
        };
        match self.phase {
            ApPhase::Idle => 3 + 5 * self.targets@.len(),
            ApPhase::Mapping => 2 + 5 * self.targets@.len(),
            ApPhase::Installing => 1 + 5 * self.targets@.len(),
            ApPhase::AwaitStack => 5 + 5 * later,
            ApPhase::AwaitPercpu => 4 + 5 * later,
            ApPhase::AwaitFirstStartup => 3 + 5 * later,
            ApPhase::AwaitSecondStartup => 2 + 5 * later,
            ApPhase::AwaitMark => 1 + 5 * later,
            ApPhase::Done => 0,
        }
    }

    /// The summary once every target was tried.
    pub open spec fn final_summary(&self) -> ApBringUpSummary {
        ApBringUpSummary {
            attempted: (self.online + self.failed) as usize,
            online: self.online,
            failed: self.failed,
        }
    }

    /// Moves to the next target, or finishes.
    fn next_target(&mut self) -> (a: ApAction)
        requires
            old(self).pos <= old(self).targets@.len(),
            old(self).online + old(self).failed == old(self).pos,
        ensures
            final(self).wf(),
            final(self).pos == old(self).pos && final(self).online == old(self).online
                && final(self).failed == old(self).failed,
            final(self).targets == old(self).targets && final(self).hhdm_offset == old(self).hhdm_offset
                && final(self).page_table == old(self).page_table && final(self).stack_top == old(self).stack_top,
            old(self).pos == old(self).targets@.len() ==> final(self).phase == ApPhase::Done && a
                == ApAction::Finished(old(self).final_summary()),
            old(self).pos < old(self).targets@.len() ==> final(self).phase == ApPhase::AwaitStack && a
                == ApAction::AllocateStack,
    {
        if self.pos == self.targets.len() {
            self.phase = ApPhase::Done;
            ApAction::Finished(
                ApBringUpSummary { attempted: self.online + self.failed, online: self.online, failed: self.failed },
            )
        } else {
            self.phase = ApPhase::AwaitStack;
            ApAction::AllocateStack
        }
    }

    /// The current target failed; on to the next.
    fn fail_target(&mut self) -> (a: ApAction)
        requires
            old(self).wf(),
            old(self).pos < old(self).targets@.len(),
        ensures
            final(self).wf(),
            final(self).pos == old(self).pos + 1 && final(self).online == old(self).online
                && final(self).failed == old(self).failed + 1,
            final(self).targets == old(self).targets && final(self).hhdm_offset == old(self).hhdm_offset,
            final(self).pos == final(self).targets@.len() ==> final(self).phase == ApPhase::Done && a
                == ApAction::Finished(final(self).final_summary()),
            final(self).pos < final(self).targets@.len() ==> final(self).phase == ApPhase::AwaitStack
                && a == ApAction::AllocateStack,
    {
        assert(self.pos < self.targets.len());
        self.failed = self.failed + 1;
        self.pos = self.pos + 1;
        self.next_target()
    }

    /// Takes one report and says what to do next; `None` for a report the current phase
    /// does not expect, which changes nothing.
    pub fn step(&mut self, event: ApEvent) -> (a: Option<ApAction>)
        requires
            old(self).wf(),
            old(self).phase == ApPhase::AwaitStack ==> (event matches ApEvent::StackFrame(Some(phys))
                ==> old(self).hhdm_offset + phys + AP_STACK_BYTES <= u64::MAX),
        ensures
            final(self).wf(),
            final(self).targets == old(self).targets,
            final(self).hhdm_offset == old(self).hhdm_offset,
            a matches Some(ApAction::Finished(s)) ==> final(self).phase == ApPhase::Done && s.attempted
                == old(self).targets@.len() && s.attempted == s.online + s.failed,
            a is Some ==> final(self).reports_left() < old(self).reports_left(),
            final(self).phase == ApPhase::Done && old(self).phase != ApPhase::Done ==> a matches Some(
                ApAction::Finished(_),
            ),
            match (old(self).phase, event) {
                (ApPhase::Idle, ApEvent::Start) => if old(self).targets@.len() == 0 {
                    a == Some(ApAction::Finished(ApBringUpSummary { attempted: 0, online: 0, failed: 0 }))
                } else {
                    a == Some(ApAction::MapTrampoline { phys: TRAMPOLINE_PHYSICAL_BASE })
                        && final(self).phase == ApPhase::Mapping
                },
                (ApPhase::Mapping, ApEvent::TrampolineMapped(ok)) => if ok {
                    a matches Some(ApAction::InstallTrampoline { gdtr_base, patches })
                        && gdtr_base == (TRAMPOLINE_PHYSICAL_BASE + GDT_OFFSET) as u32
                        && patches@ == trampoline_patch_bytes()
                        && final(self).phase == ApPhase::Installing
                } else {
                    a == Some(ApAction::Finished(ApBringUpSummary {
                        attempted: old(self).targets@.len() as usize,
                        online: 0,
                        failed: old(self).targets@.len() as usize,
                    }))
                },
                (ApPhase::Installing, ApEvent::TrampolineInstalled(cr3)) => final(self).page_table == cr3
                    & CR3_ADDRESS_MASK && final(self).pos == 0 && if old(self).targets@.len() == 0 {
                    a matches Some(ApAction::Finished(_))
                } else {
                    a == Some(ApAction::AllocateStack)
                },
                (ApPhase::AwaitStack, ApEvent::StackFrame(None)) => final(self).failed == old(self).failed + 1
                    && final(self).pos == old(self).pos + 1 && final(self).online == old(self).online
                    && (a == Some(ApAction::AllocateStack) || a matches Some(ApAction::Finished(_))),
                (ApPhase::AwaitStack, ApEvent::StackFrame(Some(phys))) => final(self).stack_top
                    == old(self).hhdm_offset + phys + AP_STACK_BYTES && a == Some(ApAction::LookupPercpu {
                    cpu_index: old(self).targets@[old(self).pos as int].index,
                }) && final(self).phase == ApPhase::AwaitPercpu,
                (ApPhase::AwaitPercpu, ApEvent::PercpuBase(None)) => final(self).failed == old(self).failed + 1
                    && final(self).pos == old(self).pos + 1 && final(self).online == old(self).online
                    && (a == Some(ApAction::AllocateStack) || a matches Some(ApAction::Finished(_))),
                (ApPhase::AwaitPercpu, ApEvent::PercpuBase(Some(base))) => a == Some(ApAction::StartCpu {
                    apic_id: old(self).targets@[old(self).pos as int].apic_id,
                    mailbox: ApMailbox {
                        cpu_index: old(self).targets@[old(self).pos as int].index as u32,
                        stack_top: old(self).stack_top,
                        page_table: old(self).page_table,
                        percpu_base: base,
                    },
                    vector: STARTUP_VECTOR,
                    wait_ns: FIRST_STARTUP_WAIT_NS,
                }) && final(self).phase == ApPhase::AwaitFirstStartup,
                (ApPhase::AwaitFirstStartup, ApEvent::StartupDone(done)) => if done {
                    a == Some(ApAction::MarkOnline { cpu_index: old(self).targets@[old(self).pos as int].index })
                        && final(self).phase == ApPhase::AwaitMark
                } else {
                    a == Some(ApAction::RetryStartup {
                        apic_id: old(self).targets@[old(self).pos as int].apic_id,
                        vector: STARTUP_VECTOR,
                        wait_ns: SECOND_STARTUP_WAIT_NS,
                    }) && final(self).phase == ApPhase::AwaitSecondStartup
                },
                (ApPhase::AwaitSecondStartup, ApEvent::StartupDone(done)) => if done {
                    a == Some(ApAction::MarkOnline { cpu_index: old(self).targets@[old(self).pos as int].index })
                        && final(self).phase == ApPhase::AwaitMark
                } else {
                    final(self).failed == old(self).failed + 1 && final(self).pos == old(self).pos + 1
                        && (a == Some(ApAction::AllocateStack) || a matches Some(ApAction::Finished(_)))
                },
                (ApPhase::AwaitMark, ApEvent::MarkedOnline) => final(self).online == old(self).online + 1
                    && final(self).pos == old(self).pos + 1 && final(self).failed == old(self).failed
                    && (a == Some(ApAction::AllocateStack) || a matches Some(ApAction::Finished(_))),
                _ => a is None && final(self).phase == old(self).phase && final(self).pos == old(self).pos
                    && final(self).online == old(self).online && final(self).failed == old(self).failed,
            },
    {
        match (self.phase, event) {
            (ApPhase::Idle, ApEvent::Start) => {
                if self.targets.len() == 0 {
                    self.phase = ApPhase::Done;
                    Some(ApAction::Finished(ApBringUpSummary { attempted: 0, online: 0, failed: 0 }))
                } else {
                    self.phase = ApPhase::Mapping;
                    Some(ApAction::MapTrampoline { phys: TRAMPOLINE_PHYSICAL_BASE })
                }
            },
            (ApPhase::Mapping, ApEvent::TrampolineMapped(ok)) => {
                if ok {
                    self.phase = ApPhase::Installing;
                    let base: u32 = TRAMPOLINE_PHYSICAL_BASE as u32;
                    let patches: [(usize, u8); 8] = [
                        (GDT_32BIT_CODE_DESC_OFFSET + 2, (base & 0xff) as u8),
                        (GDT_32BIT_CODE_DESC_OFFSET + 3, ((base >> 8u32) & 0xff) as u8),
                        (GDT_32BIT_CODE_DESC_OFFSET + 4, ((base >> 16u32) & 0xff) as u8),
                        (GDT_32BIT_CODE_DESC_OFFSET + 7, ((base >> 24u32) & 0xff) as u8),
                        (GDT_32BIT_DATA_DESC_OFFSET + 2, (base & 0xff) as u8),
                        (GDT_32BIT_DATA_DESC_OFFSET + 3, ((base >> 8u32) & 0xff) as u8),
                        (GDT_32BIT_DATA_DESC_OFFSET + 4, ((base >> 16u32) & 0xff) as u8),
                        (GDT_32BIT_DATA_DESC_OFFSET + 7, ((base >> 24u32) & 0xff) as u8),
                    ];
                    assert(patches@ =~= trampoline_patch_bytes());
                    Some(
                        ApAction::InstallTrampoline {
                            gdtr_base: (TRAMPOLINE_PHYSICAL_BASE + GDT_OFFSET) as u32,
                            patches,
                        },
                    )
                } else {
                    self.phase = ApPhase::Done;
                    let n = self.targets.len();
                    Some(ApAction::Finished(ApBringUpSummary { attempted: n, online: 0, failed: n }))
                }
            },
            (ApPhase::Installing, ApEvent::TrampolineInstalled(cr3)) => {
                self.page_table = cr3 & CR3_ADDRESS_MASK;
                Some(self.next_target())
            },
            (ApPhase::AwaitStack, ApEvent::StackFrame(frame)) => {
                match frame {
                    None => Some(self.fail_target()),
                    Some(phys) => {
                        self.stack_top = self.hhdm_offset + phys + AP_STACK_BYTES;
                        self.phase = ApPhase::AwaitPercpu;
                        Some(ApAction::LookupPercpu { cpu_index: self.targets[self.pos].index })
                    },
                }
            },
            (ApPhase::AwaitPercpu, ApEvent::PercpuBase(base)) => {
                match base {
                    None => Some(self.fail_target()),
                    Some(percpu_base) => {
                        let t = self.targets[self.pos];
                        self.phase = ApPhase::AwaitFirstStartup;
                        Some(
                            ApAction::StartCpu {
                                apic_id: t.apic_id,
                                mailbox: ApMailbox {
                                    cpu_index: t.index as u32,
                                    stack_top: self.stack_top,
                                    page_table: self.page_table,
                                    percpu_base,
                                },
                                vector: STARTUP_VECTOR,
                                wait_ns: FIRST_STARTUP_WAIT_NS,
                            },
                        )
                    },
                }
            },
            (ApPhase::AwaitFirstStartup, ApEvent::StartupDone(done)) => {
                let t = self.targets[self.pos];
                if done {
                    self.phase = ApPhase::AwaitMark;
                    Some(ApAction::MarkOnline { cpu_index: t.index })
                } else {
                    self.phase = ApPhase::AwaitSecondStartup;
                    Some(
                        ApAction::RetryStartup {
                            apic_id: t.apic_id,
                            vector: STARTUP_VECTOR,
                            wait_ns: SECOND_STARTUP_WAIT_NS,
                        },
                    )
                }
            },
            (ApPhase::AwaitSecondStartup, ApEvent::StartupDone(done)) => {
                if done {
                    self.phase = ApPhase::AwaitMark;
                    Some(ApAction::MarkOnline { cpu_index: self.targets[self.pos].index })
                } else {
                    Some(self.fail_target())
                }
            },
            (ApPhase::AwaitMark, ApEvent::MarkedOnline) => {
                assert(self.pos < self.targets.len());
                self.online = self.online + 1;
                self.pos = self.pos + 1;
                Some(self.next_target())
            },
            _ => None,
        }
    }
}

} // verus!
