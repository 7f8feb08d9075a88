use hxnu::ap_boot::{ApAction, ApBringUp, ApEvent, ApPhase, STARTUP_VECTOR};
use hxnu::handover::{
    cache_geometry, cache_levels, cpacr_with_fp_simd, dcache_line_bytes, dcache_range_start,
    get_current_el, handover_hex, jump_to_hxnu, perform_handover, sctlr_without_mmu,
    set_way_operand, sre_enable, way_shift, HandoverEntry,
};
use hxnu::pcie_ep::{PcieEpAction, PcieEpInit};
use hxnu::smp::CpuTopologyEntry;

fn cpu(index: usize, apic: u32, enabled: bool, bsp: bool) -> CpuTopologyEntry {
    CpuTopologyEntry {
        index,
        processor_uid: index as u32,
        apic_id: apic,
        enabled,
        online_capable: false,
        x2apic: false,
        is_bsp: bsp,
        online: bsp,
    }
}

#[test]
fn no_application_processors() {
    let cpus = vec![cpu(0, 0, true, true), cpu(1, 1, false, false)];
    let mut b = ApBringUp::new(&cpus, 0xffff_8000_0000_0000);
    match b.step(ApEvent::Start) {
        Some(ApAction::Finished(s)) => assert_eq!((s.attempted, s.online, s.failed), (0, 0, 0)),
        _ => panic!("nothing to bring up"),
    }
}

#[test]
fn trampoline_mapping_failure_fails_every_target() {
    let cpus = vec![cpu(0, 0, true, true), cpu(1, 2, true, false), cpu(2, 4, true, false)];
    let mut b = ApBringUp::new(&cpus, 0);
    assert!(matches!(b.step(ApEvent::Start), Some(ApAction::MapTrampoline { phys: 0x8000 })));
    match b.step(ApEvent::TrampolineMapped(false)) {
        Some(ApAction::Finished(s)) => assert_eq!((s.attempted, s.online, s.failed), (2, 0, 2)),
        _ => panic!("mapping failure ends bring-up"),
    }
}

#[test]
fn bring_up_two_processors() {
    let hhdm = 0xffff_8000_0000_0000u64;
    let cpus = vec![cpu(0, 0, true, true), cpu(1, 2, true, false), cpu(2, 4, true, false)];
    let mut b = ApBringUp::new(&cpus, hhdm);
    assert_eq!(b.targets.len(), 2);
    b.step(ApEvent::Start);
    match b.step(ApEvent::TrampolineMapped(true)) {
        Some(ApAction::InstallTrampoline { gdtr_base, patches }) => {
            assert_eq!(gdtr_base, 0x8300);
            assert_eq!(patches[0], (0x30A, 0x00));
            assert_eq!(patches[1], (0x30B, 0x80));
            assert_eq!(patches[3], (0x30F, 0x00));
            assert_eq!(patches[5], (0x313, 0x80));
        }
        _ => panic!("the trampoline goes in next"),
    }
    assert!(matches!(b.step(ApEvent::TrampolineInstalled(0x1234_5678_9abc_def1)), Some(ApAction::AllocateStack)));
    assert_eq!(b.page_table, 0x0004_5678_9abc_d000);
    assert!(matches!(b.step(ApEvent::StackFrame(Some(0x10_0000))), Some(ApAction::LookupPercpu { cpu_index: 1 })));
    match b.step(ApEvent::PercpuBase(Some(0x5000))) {
        Some(ApAction::StartCpu { apic_id, mailbox, vector, wait_ns }) => {
            assert_eq!(apic_id, 2);
            assert_eq!(mailbox.cpu_index, 1);
            assert_eq!(mailbox.stack_top, hhdm + 0x10_0000 + 4096);
            assert_eq!(mailbox.percpu_base, 0x5000);
            assert_eq!(vector, STARTUP_VECTOR);
            assert_eq!(wait_ns, 10_000_000);
        }
        _ => panic!("the processor is started next"),
    }
    assert!(matches!(b.step(ApEvent::StartupDone(true)), Some(ApAction::MarkOnline { cpu_index: 1 })));
    assert!(matches!(b.step(ApEvent::MarkedOnline), Some(ApAction::AllocateStack)));
    b.step(ApEvent::StackFrame(Some(0x20_0000)));
    b.step(ApEvent::PercpuBase(Some(0x6000)));
    assert!(matches!(b.step(ApEvent::StartupDone(false)), Some(ApAction::RetryStartup { apic_id: 4, vector: 8, wait_ns: 50_000_000 })));
    match b.step(ApEvent::StartupDone(false)) {
        Some(ApAction::Finished(s)) => assert_eq!((s.attempted, s.online, s.failed), (2, 1, 1)),
        _ => panic!("both targets were tried"),
    }
    assert!(b.phase == ApPhase::Done);
    assert!(b.step(ApEvent::MarkedOnline).is_none());
}

#[test]
fn missing_stack_or_percpu_fails_the_target() {
    let cpus = vec![cpu(0, 0, true, true), cpu(1, 1, true, false), cpu(2, 2, true, false)];
    let mut b = ApBringUp::new(&cpus, 0);
    b.step(ApEvent::Start);
    b.step(ApEvent::TrampolineMapped(true));
    b.step(ApEvent::TrampolineInstalled(0));
    assert!(matches!(b.step(ApEvent::StackFrame(None)), Some(ApAction::AllocateStack)));
    b.step(ApEvent::StackFrame(Some(0)));
    match b.step(ApEvent::PercpuBase(None)) {
        Some(ApAction::Finished(s)) => assert_eq!((s.attempted, s.online, s.failed), (2, 0, 2)),
        _ => panic!("both targets failed"),
    }
}

fn run_pcie(pmu_reads: u32, pll_reads: u32) -> (Vec<(u64, u32)>, bool) {
    let mut init = PcieEpInit::new();
    let mut writes = Vec::new();
    let mut read = 0u32;
    let mut pmu_left = pmu_reads;
    let mut pll_left = pll_reads;
    loop {
        match init.next(read) {
            PcieEpAction::Write { addr, value } => writes.push((addr, value)),
            PcieEpAction::Read { addr } => {
                read = if addr == 0xFD8D_0080 {
                    if pmu_left > 0 { pmu_left -= 1; 0x10 } else { 0 }
                } else if pll_left > 0 {
                    pll_left -= 1;
                    0
                } else {
                    1
                };
            }
            PcieEpAction::Spin { iterations } => assert_eq!(iterations, 1000),
            PcieEpAction::Done { pll_locked } => return (writes, pll_locked),
        }
    }
}

#[test]
fn pcie_endpoint_write_sequence() {
    let (writes, locked) = run_pcie(2, 3);
    assert!(locked);
    assert_eq!(
        writes,
        vec![
            (0xFD58_0300, 0x0010_0010),
            (0xFD5B_0000, 0x0001_0001),
            (0xFD5B_8000, 0x0003_0001),
            (0xFD8D_0000, 0x0010_0000),
            (0xFD7C_0370, 0x0007_0000),
            (0xFD7C_0374, 0x0030_0000),
            (0xFD7C_0A70, 0x000F_000F),
            (0xFD7C_0A70, 0x0008_0000),
            (0xFD5B_8000, 0x0010_0010),
            (0xFD7C_0A70, 0x0007_0000),
        ]
    );
}

#[test]
fn pcie_power_wait_times_out() {
    let mut init = PcieEpInit::new();
    for _ in 0..5 {
        init.next(0);
    }
    let mut polls = 0u32;
    loop {
        match init.next(0x10) {
            PcieEpAction::Read { .. } => polls += 1,
            PcieEpAction::Write { addr, .. } => {
                assert_eq!(addr, 0xFD7C_0370);
                break;
            }
            _ => panic!("unexpected action"),
        }
    }
    assert_eq!(polls, 99_999);
    assert!(init.power_timed_out);
}

#[test]
fn handover_plan_per_exception_level() {
    let p = perform_handover(0x20_0000, 0x0A00_0000, 3);
    assert_eq!(p.dtb_flush, (0x0A00_0000, 0x0A01_0000));
    assert_eq!(p.kernel_flush, (0x20_0000, 0x40_0000));
    assert!(p.entry == HandoverEntry::FromEl3 { scr_bits: 0xD01, hcr_el2: 0x8000_0000, spsr: 0x3C5 });
    assert!(perform_handover(0, 0, 2).entry == HandoverEntry::FromEl2 { hcr_el2: 0x8000_0000, spsr: 0x3C5 });
    assert!(jump_to_hxnu(0, 0, 1).entry == HandoverEntry::FromEl1 { spsr: 0x3C5 });
    assert_eq!(get_current_el(0b1100), 3);
    assert_eq!(get_current_el(0b0100), 1);
}

#[test]
fn cache_maintenance_values() {
    assert_eq!(dcache_line_bytes(4 << 16), 64);
    assert_eq!(dcache_range_start(0x1234, 64), 0x1200);
    assert_eq!(cache_levels(3 << 24), 3);
    let g = cache_geometry((127 << 13) | (3 << 3) | 2);
    assert_eq!((g.line_shift, g.num_ways, g.num_sets), (6, 4, 128));
    assert_eq!(way_shift(4), 30);
    assert_eq!(set_way_operand(3, 5, 1, 30, 6), (3u64 << 30) | (5 << 6) | 2);
    assert_eq!(sctlr_without_mmu(0xFFFF), 0xEFFA);
    assert_eq!(cpacr_with_fp_simd(0), 0x30_0000);
    assert_eq!(sre_enable(6), Some(7));
    assert_eq!(sre_enable(7), None);
    assert_eq!(handover_hex(0x20_0000).into_iter().collect::<String>(), "0x200000");
    assert_eq!(handover_hex(0).into_iter().collect::<String>(), "0x0");
    assert_eq!(handover_hex(0xABC).into_iter().collect::<String>(), "0xABC");
}
