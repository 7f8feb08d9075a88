use hxnu::apic::{
    enable_svr, ensure_timer_ready, icr_busy, icr_destination, mask_periodic_timer,
    masked_timer_entry, send_init_ipi, send_init_ipi_deassert, send_startup_ipi,
    start_periodic_timer, LocalApicInfo, SpuriousLatch, TimerError, TimerTicks,
};
use hxnu::bga::{is_available, mode_color_masks, probe_caps, set_mode, target_mode, BgaCaps, ColorMasks};
use hxnu::context::{initialize_kernel_thread, TaskContext};
use hxnu::early_map::{MapError, FLAG_WRITE_THROUGH};
use hxnu::lcl::hxnu_module_dispatch_lcl;
use hxnu::live_update::clone_kernel_state;
use hxnu::module_loader::{is_deferred_module, module_page_copy, module_page_plan};
use hxnu::init_exec::{
    build_activation, ExecutableFormat, ExecutableLoadPrep, InitExecActivateError, InitExecState, VmMapPlanEntry,
    MAX_INIT_RESTARTS,
};
use hxnu::neoio::{
    reconfigure_iommu_group, HotplugOutcome, HpsHookCounter, NeoIoManager, OculinkBridge,
};
use hxnu::serial;
use hxnu::slice_writer::SliceWriter;
use hxnu::speaker::{play_md80_altitude_warning, play_tone, speaker_gate_on, stop_tone};
use hxnu::topkapi::hxnu_module_dispatch_topkapi;

fn apic(supported: bool, x2: bool, global: bool, base: u64) -> LocalApicInfo {
    LocalApicInfo { local_apic_supported: supported, x2apic_enabled: x2, apic_global_enabled: global, apic_base: base }
}

#[test]
fn timer_readiness_errors() {
    assert_eq!(ensure_timer_ready(apic(false, false, true, 1)), Err(TimerError::Unsupported));
    assert_eq!(ensure_timer_ready(apic(true, true, true, 1)), Err(TimerError::X2ApicModeUnsupported));
    assert_eq!(ensure_timer_ready(apic(true, false, false, 1)), Err(TimerError::GlobalEnableMissing));
    assert_eq!(ensure_timer_ready(apic(true, false, true, 0)), Err(TimerError::MissingBaseAddress));
    assert_eq!(ensure_timer_ready(apic(true, false, true, 0xFEE0_0000)), Ok(()));
    assert_eq!(TimerError::Timeout.as_str(), "timer interrupt did not arrive before timeout");
    assert_eq!(TimerError::from_map_error(MapError::PageTableAllocationFailed), TimerError::PageTableAllocationFailed);
    assert_eq!(TimerError::from_map_error(MapError::MappingConflict), TimerError::MissingBaseAddress);
}

#[test]
fn apic_register_values() {
    assert_eq!(masked_timer_entry(), 0x1_0020);
    let mut ticks = TimerTicks::new();
    ticks.ticks = 5;
    ticks.log_budget = 2;
    assert_eq!(start_periodic_timer(apic(true, true, true, 1), &mut ticks).err(), Some(TimerError::X2ApicModeUnsupported));
    assert_eq!((ticks.ticks, ticks.log_budget), (5, 2));
    let (writes, timer) = start_periodic_timer(apic(true, false, true, 0xFEE0_0000), &mut ticks).unwrap();
    assert_eq!((ticks.ticks, ticks.log_budget), (0, 0));
    assert_eq!(writes, vec![(0x320, 0x1_0020), (0x3e0, 3), (0x320, 0x2_0020), (0x380, 250_000)]);
    assert_eq!((timer.vector, timer.divide_value, timer.initial_count), (0x20, 16, 250_000));
    assert_eq!(mask_periodic_timer(), vec![(0x320, 0x1_0020), (0x380, 0)]);
    assert_eq!(enable_svr(0xABCD_EF12), 0xABCD_EFFF | 0x100);
    assert_eq!(icr_destination(3), 0x0300_0000);
    assert_eq!(send_init_ipi(), 0xC500);
    assert_eq!(send_init_ipi_deassert(), 0x8500);
    assert_eq!(send_startup_ipi(8), 0x608);
    assert!(icr_busy(0x1000));
    assert!(!icr_busy(0x0fff));
}

#[test]
fn timer_ticks_and_spurious_latch() {
    let mut t = TimerTicks::new();
    t.log_budget = 1;
    assert_eq!(t.handle_timer_interrupt(), (1, true));
    assert_eq!(t.handle_timer_interrupt(), (2, false));
    let mut latch = SpuriousLatch { reported: false };
    assert!(latch.handle_spurious_interrupt());
    assert!(!latch.handle_spurious_interrupt());
}

#[test]
fn bochs_adapter() {
    assert!(is_available(0xB0C5));
    assert!(is_available(0xB0C0));
    assert!(!is_available(0xB0BF));
    assert!(!is_available(0xFFFF));
    let caps = probe_caps(0, 768, 0);
    assert_eq!((caps.max_width, caps.max_height, caps.max_bpp), (1920, 768, 32));
    let (writes, mode) = set_mode(1024, 768, 32);
    assert_eq!(writes, vec![(4, 0), (1, 1024), (2, 768), (3, 32), (4, 0x41)]);
    assert_eq!(mode.pitch, 4096);
}

#[test]
fn speaker_tones() {
    assert_eq!(play_tone(0), None);
    let div = 1_193_180u32 / 500;
    assert_eq!(play_tone(500), Some(((div & 0xff) as u8, (div >> 8) as u8)));
    assert_eq!(speaker_gate_on(0x10), Some(0x13));
    assert_eq!(speaker_gate_on(0x13), None);
    assert_eq!(stop_tone(0x17), 0x14);
    assert_eq!(play_md80_altitude_warning(), [250, 500, 626]);
}

#[test]
fn serial_line_endings() {
    assert_eq!(serial::write_str(b"a\nb\n"), b"a\r\nb\r\n".to_vec());
    assert_eq!(serial::write_str(b""), Vec::<u8>::new());
    assert_eq!(serial::init().len(), 7);
    assert!(serial::transmit_ready(0x60));
    assert!(!serial::transmit_ready(0x40));
}

#[test]
fn slice_writer_refuses_overflow() {
    let mut w = SliceWriter::new(vec![0u8; 8]);
    assert!(w.write_str("abc").is_ok());
    assert!(w.write_str("defgh").is_ok());
    assert_eq!(w.len(), 8);
    assert!(w.write_str("i").is_err());
    assert_eq!(w.as_bytes(), b"abcdefgh");
    let mut w2 = SliceWriter::new(vec![0u8; 2]);
    assert!(w2.write_str("xyz").is_err());
    assert_eq!(w2.len(), 0);
}

#[test]
fn neoio_hotplug() {
    let mut m = NeoIoManager::new();
    assert_eq!(m.inject_dynamic_fdt_node(1, 2, false, true), HotplugOutcome::Ignored);
    m.init();
    assert_eq!(m.inject_dynamic_fdt_node(0x10de, 0x2204, false, true), HotplugOutcome::Isolated);
    assert_eq!(m.get_tree().node_count, 1);
    let n = m.get_tree().nodes[0].unwrap();
    assert!(n.iommu_domain_isolated && n.is_gpu && n.vendor_id == 0x10de);
    for _ in 0..63 {
        m.inject_dynamic_fdt_node(1, 1, true, false);
    }
    assert_eq!(m.inject_dynamic_fdt_node(1, 1, true, false), HotplugOutcome::CapacityExceeded);
    assert_eq!(m.get_tree().node_count, 64);
    assert!(reconfigure_iommu_group(0, 0, 0).1.contains("DENY ALL"));
    assert!(OculinkBridge::handshake_hxnu_peer(1, 0, 0));
    let mut hook = HpsHookCounter { calls: usize::MAX };
    hook.test_hps_hook(42, true);
    assert_eq!(hook.calls, 0);
}

#[test]
fn compatibility_modules_refuse() {
    assert_eq!(hxnu_module_dispatch_lcl(9, [0; 6], 0).value, -1);
    assert_eq!(hxnu_module_dispatch_lcl(9, [0; 6], 5).value, -38);
    assert_eq!(hxnu_module_dispatch_lcl(1000, [0; 6], 5).value, -38);
    assert_eq!(hxnu_module_dispatch_topkapi(0x18, [0; 6], 0).value, -1);
    assert_eq!(hxnu_module_dispatch_topkapi(0x4E, [0; 6], 1).value, -38);
}

#[test]
fn modules_and_contexts() {
    assert!(is_deferred_module(b"/modules/heterexec.hxext"));
    assert!(!is_deferred_module(b"/modules/net.hxmd"));
    assert!(!is_deferred_module(b"hxext"));
    assert_eq!(module_page_copy(0x1000, 0x1800, 0x1000, 0x40, 0x2000), Some((0x800, 0x40, 0x800)));
    assert_eq!(module_page_copy(0x2000, 0x1800, 0x1000, 0x40, 0x2000), Some((0, 0x840, 0x800)));
    assert_eq!(module_page_copy(0x3000, 0x1800, 0x1000, 0x40, 0x2000), None);
    assert_eq!(module_page_copy(0x1000, 0x1800, 0x1000, 0x40, 0x100), None);
    let (hdr, size) = clone_kernel_state();
    assert_eq!((hdr.magic, hdr.version, hdr.active_syscalls, size), (0x48584E55434C4F4E, 1, 0, 16));
    let c = initialize_kernel_thread(0x1000, 0x8000, 0x1007);
    assert_eq!(c.rsp, 0x9000 - 16);
    assert_eq!(c.cr3, 0x1000);
    assert_eq!(TaskContext::empty().kind, 0);
}

#[test]
fn module_segment_page_plan() {
    let seg = VmMapPlanEntry {
        index: 0,
        file_offset: 0x40,
        file_bytes: 0x1000,
        memory_bytes: 0x2000,
        virtual_start: 0x1800,
        virtual_end: 0x3800,
        map_start: 0x1000,
        map_end: 0x4000,
        readable: true,
        writable: true,
        executable: false,
    };
    let plan = module_page_plan(&seg, 0x2000);
    assert_eq!(plan.len(), 3);
    assert_eq!((plan[0].page, plan[0].flags, plan[0].copy), (0x1000, FLAG_WRITE_THROUGH, Some((0x800, 0x40, 0x800))));
    assert_eq!((plan[1].page, plan[1].copy), (0x2000, Some((0, 0x840, 0x800))));
    assert_eq!((plan[2].page, plan[2].copy), (0x3000, None));
    let ro = VmMapPlanEntry { writable: false, ..seg };
    assert_eq!(module_page_plan(&ro, 0x2000)[0].flags, 0);
    let empty = VmMapPlanEntry { map_end: 0x1000, ..seg };
    assert!(module_page_plan(&empty, 0x2000).is_empty());
}

fn init_prep(format: ExecutableFormat, entry: Option<u64>) -> ExecutableLoadPrep {
    ExecutableLoadPrep {
        path: "/initrd/init".chars().collect(),
        format,
        entry_point: entry,
        image_type: Some(2),
        machine: Some(0x3e),
        vm_map_entries: vec![VmMapPlanEntry {
            index: 0,
            file_offset: 0,
            file_bytes: 16,
            memory_bytes: 0x1000,
            virtual_start: 0x40_0000,
            virtual_end: 0x40_1000,
            map_start: 0x40_0000,
            map_end: 0x40_1000,
            readable: true,
            writable: false,
            executable: true,
        }],
        vm_map_total_bytes: 0x1000,
        vm_map_zero_fill_bytes: 0xff0,
    }
}

#[test]
fn init_status_text() {
    let mut s = InitExecState::new();
    assert_eq!(s.render_status().iter().collect::<String>(), "armed no\nlast_error <none>\n");
    assert!(s.activate_init_handoff(Ok(init_prep(ExecutableFormat::Elf, None)), Some(vec![0u8; 16])).is_err());
    assert_eq!(
        s.render_status().iter().collect::<String>(),
        "armed no\nlast_error init executable has no entry point\n"
    );
    assert!(s.activate_init_handoff(Ok(init_prep(ExecutableFormat::Elf, Some(0x40_0004))), Some(vec![0x90u8; 16])).is_ok());
    let text: String = s.render_status().iter().collect();
    assert_eq!(
        text,
        "armed yes\npath /initrd/init\nformat elf\nmachine 0x003e\nimage_type 0x0002\n\
         entry_point 0x0000000000400004\nvm_range 0x0000000000400000..0x0000000000401000\nsegments 1\n\
         bytes 4096\nzero_fill 4080\nentry_segment 0\nentry_offset 4\n\
         segment0 idx=0 vaddr=0x0000000000400000..0x0000000000401000 map=0x0000000000400000..0x0000000000401000 \
         file=16 mem=4096 perms=r-x bytes=16\nlast_error <none>\n"
    );
}

#[test]
fn init_activation_errors_and_restarts() {
    assert!(matches!(
        build_activation(init_prep(ExecutableFormat::Script, Some(0x40_0000)), &[0u8; 16]),
        Err(InitExecActivateError::UnsupportedFormat)
    ));
    assert!(matches!(
        build_activation(init_prep(ExecutableFormat::Elf, Some(0x40_0000)), &[0u8; 8]),
        Err(InitExecActivateError::InvalidSegmentMap)
    ));
    let mut s = InitExecState::new();
    assert!(s.activate_init_handoff(Ok(init_prep(ExecutableFormat::Elf, Some(0x40_0000))), Some(vec![0u8; 16])).is_ok());
    assert!(s.note_init_exit(7, 1, 0).is_none());
    assert!(s.activation.is_some());
    let mut restarts = 0;
    let mut pid = 10;
    s.record_spawned(1, pid);
    loop {
        let d = s.note_init_exit(pid, 1, 3).expect("init exited");
        if !d.restart_scheduled {
            break;
        }
        assert_eq!(s.begin_pending_restart(), Some(3));
        restarts += 1;
        pid += 1;
        s.record_spawned(1, pid);
    }
    assert_eq!(restarts, MAX_INIT_RESTARTS);
    assert_eq!(s.restart_count, MAX_INIT_RESTARTS);
    assert_eq!(s.begin_pending_restart(), None);
    assert!(s.activation.is_some() && s.last_error.is_none());
}

#[test]
fn display_mode_choice() {
    assert_eq!(target_mode(&BgaCaps { max_width: 2560, max_height: 1600, max_bpp: 32 }), (1920, 1080, 32));
    assert_eq!(target_mode(&BgaCaps { max_width: 1024, max_height: 768, max_bpp: 24 }), (1024, 768, 24));
    let zero = ColorMasks { red_size: 0, red_shift: 3, green_size: 0, green_shift: 5, blue_size: 0, blue_shift: 0 };
    assert_eq!(
        mode_color_masks(zero),
        ColorMasks { red_size: 8, red_shift: 16, green_size: 8, green_shift: 8, blue_size: 8, blue_shift: 0 }
    );
    let bgr = ColorMasks { red_size: 8, red_shift: 0, green_size: 8, green_shift: 8, blue_size: 8, blue_shift: 16 };
    assert_eq!(mode_color_masks(bgr), bgr);
}
