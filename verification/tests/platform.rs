use hxnu::acpi::{
    checksum, discover, oem_id_str, parse_fadt, parse_madt, AcpiError, MadtInfo, MadtProcessor, PhysMemory, PhysRegion,
    PowerProfile, RootKind,
};
use hxnu::bytes::{read_u16_le, read_u32_le, read_u64_le};
use hxnu::cpuid::{
    max_basic_leaf, max_extended_leaf, query, query_count, read_identity, read_topology,
    bitmask, decode_identity, decode_topology, parse_topology_level_type, CpuVendor, CpuidRegs,
    TopologyLeafKind, TopologyLevelType,
};
use hxnu::percpu::{area_header_bytes, cpu_flag_bits, PERCPU_MAGIC};
use hxnu::smp::{CpuInfo, CpuTopologyEntry, SmpError, SmpState};
use hxnu::text::{push_dec, push_hex, push_str, yes_no};
use hxnu::tty::{count_newline_bytes, normalize_glyph_byte, TtyConsole};
use hxnu::vector::{decode_x86_caps, VectorContextMode, VectorContextPolicy, FEATURE_AVX, FEATURE_AVX2};

fn fix_checksum(table: &mut [u8], at: usize) {
    table[at] = 0;
    let sum = table.iter().fold(0u8, |a, b| a.wrapping_add(*b));
    table[at] = 0u8.wrapping_sub(sum);
}

fn sdt(signature: &[u8; 4], body: &[u8]) -> Vec<u8> {
    let mut t = vec![0u8; 36];
    t[..4].copy_from_slice(signature);
    t[4..8].copy_from_slice(&((36 + body.len()) as u32).to_le_bytes());
    t[8] = 1;
    t[10..16].copy_from_slice(b"HXNUOE");
    t.extend_from_slice(body);
    fix_checksum(&mut t, 9);
    t
}

fn madt_table() -> Vec<u8> {
    let mut body = Vec::new();
    body.extend_from_slice(&0xFEE0_0000u32.to_le_bytes());
    body.extend_from_slice(&1u32.to_le_bytes());
    body.extend_from_slice(&[0, 8, 0, 0, 1, 0, 0, 0]);
    body.extend_from_slice(&[0, 8, 1, 3, 1, 0, 0, 0]);
    body.extend_from_slice(&[1, 12, 9, 0]);
    body.extend_from_slice(&0xFEC0_0000u32.to_le_bytes());
    body.extend_from_slice(&0u32.to_le_bytes());
    sdt(b"APIC", &body)
}

fn rsdp(rsdt: u32) -> Vec<u8> {
    let mut r = vec![0u8; 20];
    r[..8].copy_from_slice(b"RSD PTR ");
    r[9..15].copy_from_slice(b"HXNUOE");
    r[15] = 0;
    r[16..20].copy_from_slice(&rsdt.to_le_bytes());
    fix_checksum(&mut r, 8);
    r
}

fn memory(rsdp_bytes: Vec<u8>) -> PhysMemory {
    let rsdt = sdt(b"RSDT", &0x2000u32.to_le_bytes());
    PhysMemory {
        regions: vec![
            PhysRegion { base: 0xE0000, bytes: rsdp_bytes },
            PhysRegion { base: 0x1000, bytes: rsdt },
            PhysRegion { base: 0x2000, bytes: madt_table() },
        ],
    }
}

#[test]
fn acpi_discovery_finds_the_madt() {
    let mem = memory(rsdp(0x1000));
    let d = discover(0xFFFF_8000_0000_0000, 0xE0000, &mem).ok().unwrap();
    assert_eq!(d.revision, 0);
    assert_eq!(&d.oem_id, b"HXNUOE");
    assert!(d.root_kind == RootKind::Rsdt);
    assert_eq!(d.root_address, 0x1000);
    assert_eq!(d.table_count, 1);
    assert_eq!(d.valid_table_count, 1);
    assert_eq!(d.invalid_table_count, 0);
    let madt = d.madt.unwrap();
    assert_eq!(madt.local_apic_address, 0xFEE0_0000);
    assert_eq!(madt.processors.len(), 2);
    assert!(madt.processors[1] == MadtProcessor { processor_uid: 1, apic_id: 3, enabled: true, online_capable: false, x2apic: false });
    assert_eq!(madt.io_apics.len(), 1);
    assert_eq!(madt.io_apics[0].address, 0xFEC0_0000);
    assert!(d.fadt.is_none());
}

#[test]
fn acpi_discovery_errors() {
    let mut bad_sig = rsdp(0x1000);
    bad_sig[0] = b'X';
    assert!(discover(0, 0xE0000, &memory(bad_sig)).err() == Some(AcpiError::InvalidRsdpSignature));
    let mut bad_sum = rsdp(0x1000);
    bad_sum[8] = bad_sum[8].wrapping_add(1);
    assert!(discover(0, 0xE0000, &memory(bad_sum)).err() == Some(AcpiError::InvalidRsdpChecksum));
    assert!(discover(0, 0xF0000, &memory(rsdp(0x1000))).err() == Some(AcpiError::MappingFailed));
    assert!(discover(0, 0xE0000, &memory(rsdp(0))).err() == Some(AcpiError::MissingRootTable));
    assert!(discover(u64::MAX, 0xE0000, &memory(rsdp(0x1000))).err() == Some(AcpiError::AddressOverflow));
    assert_eq!(AcpiError::InvalidRootChecksum.as_str(), "invalid acpi root table checksum");
}

#[test]
fn madt_and_fadt_fields() {
    let madt: MadtInfo = parse_madt(&madt_table()).unwrap();
    assert_eq!(madt.flags, 1);
    assert_eq!(madt.processors[0].apic_id, 0);
    assert!(parse_madt(&[0u8; 20]).is_none());
    assert_eq!(checksum(&madt_table()), 0);
    assert_eq!(checksum(&[1, 2, 3]), 6);
    let mut fadt = vec![0u8; 129];
    fadt[45] = 2;
    fadt[46..48].copy_from_slice(&9u16.to_le_bytes());
    fadt[112..116].copy_from_slice(&0x400u32.to_le_bytes());
    fadt[116] = 1;
    fadt[117] = 8;
    fadt[120..128].copy_from_slice(&0xCF9u64.to_le_bytes());
    fadt[128] = 6;
    let f = parse_fadt(6, 129, &fadt).unwrap();
    assert!(f.preferred_pm_profile == PowerProfile::Mobile);
    assert_eq!(f.sci_interrupt, 9);
    assert!(f.reset_supported());
    assert!(!f.hardware_reduced());
    assert!(parse_fadt(6, 100, &fadt[..100]).is_none());
}

fn regs(eax: u32, ebx: u32, ecx: u32, edx: u32) -> CpuidRegs {
    CpuidRegs { eax, ebx, ecx, edx }
}

#[test]
fn cpu_identity_and_topology() {
    let leaf0 = regs(0x16, 0x756e_6547, 0x6c65_746e, 0x4965_6e69);
    let id = decode_identity(leaf0, 0x8000_0000, regs(0, 0, 0x8000_0000, 0), &[]);
    assert!(id.vendor == CpuVendor::Intel);
    assert_eq!(&id.vendor_id, b"GenuineIntel");
    assert_eq!(id.max_basic_leaf, 0x16);
    assert!(id.hypervisor_present);
    assert_eq!(id.brand, [0u8; 48]);
    let amd = decode_identity(regs(1, 0x6874_7541, 0x444d_4163, 0x6974_6e65), 0, regs(0, 0, 0, 0), &[]);
    assert!(amd.vendor == CpuVendor::Amd);
    assert!(!amd.hypervisor_present);
    let levels = [regs(1, 2, 0x100, 0x13), regs(4, 8, 0x201, 0x13), regs(0, 0, 2, 0x13)];
    let t = decode_topology(TopologyLeafKind::Leaf0x0b, &levels).unwrap();
    assert_eq!(t.level_count, 2);
    assert_eq!(t.x2apic_id, 0x13);
    assert_eq!(t.smt_shift, 1);
    assert_eq!(t.core_shift, 4);
    assert_eq!(t.threads_per_core, 2);
    assert_eq!(t.logical_processors_per_package, 8);
    assert_eq!(t.smt_id, 1);
    assert_eq!(t.core_id, 1);
    assert_eq!(t.package_id, 1);
    assert!(decode_topology(TopologyLeafKind::Leaf0x1f, &[regs(0, 0, 0, 0)]).is_none());
    assert_eq!(bitmask(0), 0);
    assert_eq!(bitmask(3), 7);
    assert_eq!(bitmask(40), u32::MAX);
    assert!(parse_topology_level_type(2) == TopologyLevelType::Core);
    assert!(parse_topology_level_type(7) == TopologyLevelType::Unknown(7));
}

#[test]
fn vector_capabilities() {
    let avx2 = decode_x86_caps((1 << 26) | (1 << 27) | (1 << 28), 1 << 24, 1 << 5, 0x7);
    assert!(avx2.context_mode == VectorContextMode::Xsave);
    assert_eq!(avx2.base_bits, FEATURE_AVX | FEATURE_AVX2);
    assert_eq!(avx2.xsave_mask, 6);
    let fx = decode_x86_caps(0, 1 << 24, 0, 0);
    assert!(fx.context_mode == VectorContextMode::Fxsave);
    assert_eq!(fx.base_bits, 0);
    let scalar = decode_x86_caps(0, 0, 0, 0);
    assert!(scalar.context_mode == VectorContextMode::ScalarOnly);
    assert!(scalar.policy == VectorContextPolicy::ScalarFallback);
    assert_eq!(VectorContextMode::Xsave.as_str(), "xsave");
}

fn processor(uid: u32, apic_id: u32) -> MadtProcessor {
    MadtProcessor { processor_uid: uid, apic_id, enabled: true, online_capable: false, x2apic: false }
}

#[test]
fn smp_topology_from_the_madt() {
    let madt = MadtInfo {
        local_apic_address: 0xFEE0_0000,
        flags: 0,
        processors: vec![processor(0, 0), processor(1, 2), processor(2, 4)],
        io_apics: vec![],
        interrupt_source_overrides: vec![],
    };
    let mut smp = SmpState::new();
    let s = smp.initialize(&CpuInfo { initial_apic_id: 2, bootstrap_processor: true }, &madt).ok().unwrap();
    assert_eq!(s.total_cpus, 3);
    assert_eq!(s.enabled_cpus, 3);
    assert_eq!(s.online_cpus, 1);
    assert_eq!(s.bsp_apic_id, 2);
    assert_eq!(s.current_cpu_index, 1);
    let t = smp.topology.as_ref().unwrap();
    assert!(t.cpus[1].is_bsp && t.cpus[1].online);
    smp.mark_cpu_online(2);
    assert!(smp.topology.as_ref().unwrap().cpus[2].online);
    let mut other = SmpState::new();
    assert!(other.initialize(&CpuInfo { initial_apic_id: 9, bootstrap_processor: true }, &madt).err() == Some(SmpError::MissingBspMatch));
    let empty = MadtInfo { processors: vec![], ..madt };
    assert!(other.initialize(&CpuInfo { initial_apic_id: 0, bootstrap_processor: true }, &empty).err() == Some(SmpError::EmptyProcessorSet));
}

#[test]
fn percpu_area_header() {
    let cpu = CpuTopologyEntry {
        index: 2,
        processor_uid: 5,
        apic_id: 4,
        enabled: true,
        online_capable: false,
        x2apic: false,
        is_bsp: true,
        online: true,
    };
    assert_eq!(cpu_flag_bits(cpu), 3);
    let h = area_header_bytes(cpu, 0xFFFF_8000_0010_0000, 0x10_0000);
    assert_eq!(h.len(), 40);
    assert_eq!(read_u32_le(&h, 0), PERCPU_MAGIC);
    assert_eq!(read_u16_le(&h, 4), 1);
    assert_eq!(read_u16_le(&h, 6), 3);
    assert_eq!(read_u32_le(&h, 8), 2);
    assert_eq!(read_u32_le(&h, 12), 4);
    assert_eq!(read_u32_le(&h, 16), 5);
    assert_eq!(read_u64_le(&h, 24), 0xFFFF_8000_0010_0000);
    assert_eq!(read_u64_le(&h, 32), 0x10_0000);
}

#[test]
fn text_formatting() {
    let mut t: Vec<char> = Vec::new();
    push_str(&mut t, "n=");
    push_dec(&mut t, 1205);
    push_str(&mut t, " h=");
    push_hex(&mut t, 0xBEEF, 6);
    assert_eq!(t.iter().collect::<String>(), "n=1205 h=0x00beef");
    assert_eq!(yes_no(true), "yes");
    assert_eq!(yes_no(false), "no");
}

#[test]
fn tty_console_counts() {
    assert_eq!(count_newline_bytes(b"a\nb\n\n"), 3);
    assert_eq!(normalize_glyph_byte(b'A'), b'A');
    assert_eq!(normalize_glyph_byte(0x07), b'?');
    let mut tty = TtyConsole::new();
    tty.initialize(false, None);
    tty.write_str(b"one\ntwo\n");
    let s = tty.stats();
    assert_eq!(s.bytes_written, 8);
    assert_eq!(s.lines_written, 2);
}

#[test]
fn oem_id_text_forms() {
    assert_eq!(oem_id_str(b"HXNU  ").iter().collect::<String>(), "HXNU");
    assert_eq!(oem_id_str(b"BOCHS ").iter().collect::<String>(), "BOCHS");
    assert_eq!(oem_id_str(&[0xFF, b'A', b'B', b'C', b'D', b'E']).iter().collect::<String>(), "??????");
    assert_eq!(oem_id_str(&[b'A', 0xC3, 0xA9, b'B', b' ', b' ']).iter().collect::<String>(), "A\u{e9}B");
}

#[test]
fn cpuid_queries_on_this_machine() {
    let l0 = query(0).registers();
    assert_eq!(max_basic_leaf(), l0.eax);
    assert_eq!(max_extended_leaf(), query(0x8000_0000).registers().eax);
    assert_eq!(query_count(0, 0).registers(), l0);
    let id = read_identity();
    assert_eq!(id.max_basic_leaf, l0.eax);
    let mut vendor = Vec::new();
    vendor.extend_from_slice(&l0.ebx.to_le_bytes());
    vendor.extend_from_slice(&l0.edx.to_le_bytes());
    vendor.extend_from_slice(&l0.ecx.to_le_bytes());
    assert_eq!(&id.vendor_id[..], &vendor[..]);
    assert_eq!(id.hypervisor_present, query(1).registers().ecx & (1 << 31) != 0);
    if let Some(t) = read_topology(id.max_basic_leaf) {
        assert!(t.level_count >= 1 && t.level_count <= 4);
        assert_eq!(t.package_id, t.x2apic_id >> t.core_shift);
    }
}
