//! ACPI discovery: validates the RSDP and the root table, walks the table list, and
//! decodes the MADT (processors, I/O APICs, interrupt overrides) and the FADT.
use vstd::prelude::*;
use crate::bytes::{le_u16, le_u32, le_u64, read_u16_le, read_u32_le, read_u64_le};
use crate::early_map::MapError;

verus! {

pub const SDT_HEADER_BYTES: usize = 36;
pub const RSDP_BYTES: usize = 20;
pub const RSDP20_BYTES: usize = 36;
pub const MADT_HEADER_BYTES: usize = 44;

pub const MADT_ENTRY_LOCAL_APIC: u8 = 0;
pub const MADT_ENTRY_IO_APIC: u8 = 1;
pub const MADT_ENTRY_INTERRUPT_SOURCE_OVERRIDE: u8 = 2;
pub const MADT_ENTRY_LOCAL_APIC_ADDRESS_OVERRIDE: u8 = 5;
pub const MADT_ENTRY_LOCAL_X2APIC: u8 = 9;

pub const MADT_LOCAL_APIC_FLAG_ENABLED: u32 = 1;
pub const MADT_LOCAL_APIC_FLAG_ONLINE_CAPABLE: u32 = 2;

pub const FADT_FLAGS_RESET_REG_SUPPORTED: u32 = 0x400;
pub const FADT_FLAGS_HW_REDUCED_ACPI: u32 = 0x100000;

pub const FADT_OFFSET_PREFERRED_PM_PROFILE: usize = 45;
pub const FADT_OFFSET_SCI_INTERRUPT: usize = 46;
pub const FADT_OFFSET_SMI_COMMAND_PORT: usize = 48;
pub const FADT_OFFSET_ACPI_ENABLE: usize = 52;
pub const FADT_OFFSET_ACPI_DISABLE: usize = 53;
pub const FADT_OFFSET_PM1A_CONTROL_BLOCK: usize = 64;
pub const FADT_OFFSET_PM1B_CONTROL_BLOCK: usize = 68;
pub const FADT_OFFSET_BOOT_ARCH_FLAGS: usize = 109;
pub const FADT_OFFSET_FLAGS: usize = 112;
pub const FADT_OFFSET_RESET_REGISTER: usize = 116;
pub const FADT_OFFSET_RESET_VALUE: usize = 128;

#[derive(Copy, Clone, Debug, PartialEq, Eq, Structural)]
pub enum RootKind {
    Rsdt,
    Xsdt,
}

impl RootKind {
    pub fn as_str(self) -> (s: &'static str)
        ensures
            self == RootKind::Rsdt ==> s@ == "RSDT"@,
            self == RootKind::Xsdt ==> s@ == "XSDT"@,
    {
        match self {
            RootKind::Rsdt => "RSDT",
            RootKind::Xsdt => "XSDT",
        }
    }
}

#[derive(Copy, Clone, Debug, PartialEq, Eq, Structural)]
pub struct MadtProcessor {
    pub processor_uid: u32,
    pub apic_id: u32,
    pub enabled: bool,
    pub online_capable: bool,
    pub x2apic: bool,
}

impl MadtProcessor {
    pub fn apic_mode(self) -> (s: &'static str)
        ensures
            self.x2apic ==> s@ == "x2apic"@,
            !self.x2apic ==> s@ == "xapic"@,
    {
        if self.x2apic {
            "x2apic"
        } else {
            "xapic"
        }
    }
}

#[derive(Copy, Clone, Debug, PartialEq, Eq, Structural)]
pub struct IoApicInfo {
    pub io_apic_id: u8,
    pub address: u32,
    pub global_system_interrupt_base: u32,
}

#[derive(Copy, Clone, Debug, PartialEq, Eq, Structural)]
pub struct InterruptSourceOverride {
    pub source: u8,
    pub global_system_interrupt: u32,
    pub flags: u16,
}

/// What the MADT says: the local APIC address, the flags, and its entries.
pub struct MadtInfo {
    pub local_apic_address: u64,
    pub flags: u32,
    pub processors: Vec<MadtProcessor>,
    pub io_apics: Vec<IoApicInfo>,
    pub interrupt_source_overrides: Vec<InterruptSourceOverride>,
}

/// A MADT as the contracts see it.
pub ghost struct MadtView {
    pub local_apic_address: u64,
    pub flags: u32,
    pub processors: Seq<MadtProcessor>,
    pub io_apics: Seq<IoApicInfo>,
    pub interrupt_source_overrides: Seq<InterruptSourceOverride>,
}

impl View for MadtInfo {
    type V = MadtView;

    open spec fn view(&self) -> MadtView {
        MadtView {
            local_apic_address: self.local_apic_address,
            flags: self.flags,
            processors: self.processors@,
            io_apics: self.io_apics@,
            interrupt_source_overrides: self.interrupt_source_overrides@,
        }
    }
}

/// How many processors satisfy a predicate.
pub open spec fn count_processors(ps: Seq<MadtProcessor>, f: spec_fn(MadtProcessor) -> bool) -> int
    decreases ps.len(),
{
    if ps.len() == 0 {
        0
    } else {
        count_processors(ps.drop_last(), f) + if f(ps.last()) { 1int } else { 0 }
    }
}

proof fn lemma_count_processors_bound(ps: Seq<MadtProcessor>, f: spec_fn(MadtProcessor) -> bool)
    ensures
        0 <= count_processors(ps, f) <= ps.len(),
    decreases ps.len(),
{
    if ps.len() > 0 {
        lemma_count_processors_bound(ps.drop_last(), f);
    }
}

impl MadtInfo {
    pub fn total_processor_count(&self) -> (n: usize)
        ensures
            n == self.processors@.len(),
    {
        self.processors.len()
    }

    pub fn enabled_processor_count(&self) -> (n: usize)
        ensures
            n == count_processors(self.processors@, |p: MadtProcessor| p.enabled),
    {
        let mut n: usize = 0;
        let mut i: usize = 0;
        while i < self.processors.len()
            invariant
                i <= self.processors@.len(),
                n == count_processors(self.processors@.subrange(0, i as int), |p: MadtProcessor| p.enabled),
            decreases self.processors@.len() - i,
        {
            proof {
                assert(self.processors@.subrange(0, i + 1).drop_last() =~= self.processors@.subrange(0, i as int));
                lemma_count_processors_bound(self.processors@.subrange(0, i as int), |p: MadtProcessor| p.enabled);
            }
            if self.processors[i].enabled {
                n = n + 1;
            }
            i = i + 1;
        }
        assert(self.processors@.subrange(0, self.processors@.len() as int) =~= self.processors@);
        n
    }

    pub fn local_x2apic_count(&self) -> (n: usize)
        ensures
            n == count_processors(self.processors@, |p: MadtProcessor| p.x2apic),
    {
        let mut n: usize = 0;
        let mut i: usize = 0;
        while i < self.processors.len()
            invariant
                i <= self.processors@.len(),
                n == count_processors(self.processors@.subrange(0, i as int), |p: MadtProcessor| p.x2apic),
            decreases self.processors@.len() - i,
        {
            proof {
                assert(self.processors@.subrange(0, i + 1).drop_last() =~= self.processors@.subrange(0, i as int));
                lemma_count_processors_bound(self.processors@.subrange(0, i as int), |p: MadtProcessor| p.x2apic);
            }
            if self.processors[i].x2apic {
                n = n + 1;
            }
            i = i + 1;
        }
        assert(self.processors@.subrange(0, self.processors@.len() as int) =~= self.processors@);
        n
    }
}

#[derive(Copy, Clone, Debug, PartialEq, Eq, Structural)]
pub enum PowerProfile {
    Unspecified,
    Desktop,
    Mobile,
    Workstation,
    EnterpriseServer,
    SohoServer,
    AppliancePc,
    PerformanceServer,
    Tablet,
    Unknown,
}

impl PowerProfile {
    pub fn as_str(self) -> (s: &'static str)
        ensures
            self == PowerProfile::Unspecified ==> s@ == "unspecified"@,
            self == PowerProfile::Desktop ==> s@ == "desktop"@,
            self == PowerProfile::Mobile ==> s@ == "mobile"@,
            self == PowerProfile::Workstation ==> s@ == "workstation"@,
            self == PowerProfile::EnterpriseServer ==> s@ == "enterprise-server"@,
            self == PowerProfile::SohoServer ==> s@ == "soho-server"@,
            self == PowerProfile::AppliancePc ==> s@ == "appliance-pc"@,
            self == PowerProfile::PerformanceServer ==> s@ == "performance-server"@,
            self == PowerProfile::Tablet ==> s@ == "tablet"@,
            self == PowerProfile::Unknown ==> s@ == "unknown"@,
    {
        match self {
            PowerProfile::Unspecified => "unspecified",
            PowerProfile::Desktop => "desktop",
            PowerProfile::Mobile => "mobile",
            PowerProfile::Workstation => "workstation",
            PowerProfile::EnterpriseServer => "enterprise-server",
            PowerProfile::SohoServer => "soho-server",
            PowerProfile::AppliancePc => "appliance-pc",
            PowerProfile::PerformanceServer => "performance-server",
            PowerProfile::Tablet => "tablet",
            PowerProfile::Unknown => "unknown",
        }
    }
}

pub open spec fn power_profile_of(raw: u8) -> PowerProfile {
    if raw == 0 {
        PowerProfile::Unspecified
    } else if raw == 1 {
        PowerProfile::Desktop
    } else if raw == 2 {
        PowerProfile::Mobile
    } else if raw == 3 {
        PowerProfile::Workstation
    } else if raw == 4 {
        PowerProfile::EnterpriseServer
    } else if raw == 5 {
        PowerProfile::SohoServer
    } else if raw == 6 {
        PowerProfile::AppliancePc
    } else if raw == 7 {
        PowerProfile::PerformanceServer
    } else if raw == 8 {
        PowerProfile::Tablet
    } else {
        PowerProfile::Unknown
    }
}

pub fn power_profile_from_raw(raw: u8) -> (p: PowerProfile)
    ensures
        p == power_profile_of(raw),
{
    match raw {
        0 => PowerProfile::Unspecified,
        1 => PowerProfile::Desktop,
        2 => PowerProfile::Mobile,
        3 => PowerProfile::Workstation,
        4 => PowerProfile::EnterpriseServer,
        5 => PowerProfile::SohoServer,
        6 => PowerProfile::AppliancePc,
        7 => PowerProfile::PerformanceServer,
        8 => PowerProfile::Tablet,
        _ => PowerProfile::Unknown,
    }
}

#[derive(Copy, Clone, Debug, PartialEq, Eq, Structural)]
pub struct GenericAddress {
    pub address_space: u8,
    pub bit_width: u8,
    pub bit_offset: u8,
    pub access_size: u8,
    pub address: u64,
}

impl GenericAddress {
    pub fn address_space_str(self) -> (s: &'static str)
        ensures
            self.address_space == 0 ==> s@ == "system-memory"@,
            self.address_space == 1 ==> s@ == "system-io"@,
            self.address_space == 2 ==> s@ == "pci-config"@,
            self.address_space == 3 ==> s@ == "embedded-controller"@,
            self.address_space == 4 ==> s@ == "smbus"@,
            self.address_space == 0x0a ==> s@ == "platform-comm"@,
            self.address_space == 0x7f ==> s@ == "functional-fixed"@,
            !(self.address_space <= 4 || self.address_space == 0x0a || self.address_space == 0x7f) ==> s@
                == "unknown"@,
    {
        match self.address_space {
            0 => "system-memory",
            1 => "system-io",
            2 => "pci-config",
            3 => "embedded-controller",
            4 => "smbus",
            0x0a => "platform-comm",
            0x7f => "functional-fixed",
            _ => "unknown",
        }
    }
}

/// The generic address structure at `off`, when the twelve bytes are there.
pub open spec fn generic_address_at(b: Seq<u8>, off: int) -> Option<GenericAddress> {
    if b.len() < off + 12 {
        None
    } else {
        Some(
            GenericAddress {
                address_space: b[off],
                bit_width: b[off + 1],
                bit_offset: b[off + 2],
                access_size: b[off + 3],
                address: le_u64(b, off + 4) as u64,
            },
        )
    }
}

pub fn parse_generic_address(table_bytes: &[u8], offset: usize) -> (r: Option<GenericAddress>)
    ensures
        r == generic_address_at(table_bytes@, offset as int),
{
    if table_bytes.len() < 12 || offset > table_bytes.len() - 12 {
        return None;
    }
    Some(
        GenericAddress {
            address_space: table_bytes[offset],
            bit_width: table_bytes[offset + 1],
            bit_offset: table_bytes[offset + 2],
            access_size: table_bytes[offset + 3],
            address: read_u64_le(table_bytes, offset + 4),
        },
    )
}

#[derive(Copy, Clone, Debug, PartialEq, Eq, Structural)]
pub struct FadtInfo {
    pub revision: u8,
    pub length: u32,
    pub preferred_pm_profile: PowerProfile,
    pub sci_interrupt: u16,
    pub smi_command_port: u32,
    pub acpi_enable: u8,
    pub acpi_disable: u8,
    pub pm1a_control_block: u32,
    pub pm1b_control_block: u32,
    pub boot_architecture_flags: u16,
    pub flags: u32,
    pub reset_register: Option<GenericAddress>,
    pub reset_value: u8,
}

impl FadtInfo {
    pub fn reset_supported(self) -> (b: bool)
        ensures
            b == ((self.flags & FADT_FLAGS_RESET_REG_SUPPORTED) != 0 && self.reset_register is Some
                && self.reset_value != 0),
    {
        (self.flags & FADT_FLAGS_RESET_REG_SUPPORTED) != 0 && self.reset_register.is_some() && self.reset_value != 0
    }

    pub fn hardware_reduced(self) -> (b: bool)
        ensures
            b == ((self.flags & FADT_FLAGS_HW_REDUCED_ACPI) != 0),
    {
        (self.flags & FADT_FLAGS_HW_REDUCED_ACPI) != 0
    }
}

/// The FADT fields a table of `b` gives; `None` when it is too short to hold the flags.
pub open spec fn fadt_of(revision: u8, length: u32, b: Seq<u8>) -> Option<FadtInfo> {
    if b.len() < FADT_OFFSET_FLAGS + 4 {
        None
    } else {
        Some(
            FadtInfo {
                revision,
                length,
                preferred_pm_profile: power_profile_of(b[FADT_OFFSET_PREFERRED_PM_PROFILE as int]),
                sci_interrupt: le_u16(b, FADT_OFFSET_SCI_INTERRUPT as int) as u16,
                smi_command_port: le_u32(b, FADT_OFFSET_SMI_COMMAND_PORT as int) as u32,
                acpi_enable: b[FADT_OFFSET_ACPI_ENABLE as int],
                acpi_disable: b[FADT_OFFSET_ACPI_DISABLE as int],
                pm1a_control_block: le_u32(b, FADT_OFFSET_PM1A_CONTROL_BLOCK as int) as u32,
                pm1b_control_block: le_u32(b, FADT_OFFSET_PM1B_CONTROL_BLOCK as int) as u32,
                boot_architecture_flags: if b.len() >= FADT_OFFSET_BOOT_ARCH_FLAGS + 2 {
                    le_u16(b, FADT_OFFSET_BOOT_ARCH_FLAGS as int) as u16
                } else {
                    0
                },
                flags: le_u32(b, FADT_OFFSET_FLAGS as int) as u32,
                reset_register: if b.len() >= FADT_OFFSET_RESET_REGISTER + 12 {
                    generic_address_at(b, FADT_OFFSET_RESET_REGISTER as int)
                } else {
                    None
                },
                reset_value: if b.len() > FADT_OFFSET_RESET_VALUE {
                    b[FADT_OFFSET_RESET_VALUE as int]
                } else {
                    0
                },
            },
        )
    }
}

pub fn parse_fadt(revision: u8, length: u32, table_bytes: &[u8]) -> (r: Option<FadtInfo>)
    ensures
        r == fadt_of(revision, length, table_bytes@),
{
    if table_bytes.len() < FADT_OFFSET_FLAGS + 4 {
        return None;
    }
    let flags = read_u32_le(table_bytes, FADT_OFFSET_FLAGS);
    let reset_register = if table_bytes.len() >= FADT_OFFSET_RESET_REGISTER + 12 {
        parse_generic_address(table_bytes, FADT_OFFSET_RESET_REGISTER)
    } else {
        None
    };
    Some(
        FadtInfo {
            revision,
            length,
            preferred_pm_profile: power_profile_from_raw(table_bytes[FADT_OFFSET_PREFERRED_PM_PROFILE]),
            sci_interrupt: read_u16_le(table_bytes, FADT_OFFSET_SCI_INTERRUPT),
            smi_command_port: read_u32_le(table_bytes, FADT_OFFSET_SMI_COMMAND_PORT),
            acpi_enable: table_bytes[FADT_OFFSET_ACPI_ENABLE],
            acpi_disable: table_bytes[FADT_OFFSET_ACPI_DISABLE],
            pm1a_control_block: read_u32_le(table_bytes, FADT_OFFSET_PM1A_CONTROL_BLOCK),
            pm1b_control_block: read_u32_le(table_bytes, FADT_OFFSET_PM1B_CONTROL_BLOCK),
            boot_architecture_flags: if table_bytes.len() >= FADT_OFFSET_BOOT_ARCH_FLAGS + 2 {
                read_u16_le(table_bytes, FADT_OFFSET_BOOT_ARCH_FLAGS)
            } else {
                0
            },
            flags,
            reset_register,
            reset_value: if table_bytes.len() > FADT_OFFSET_RESET_VALUE {
                table_bytes[FADT_OFFSET_RESET_VALUE]
            } else {
                0
            },
        },
    )
}

/// A processor entry of the MADT with the given flags.
pub open spec fn processor_of(uid: int, apic_id: int, flags: u32, x2apic: bool) -> MadtProcessor {
    MadtProcessor {
        processor_uid: uid as u32,
        apic_id: apic_id as u32,
        enabled: (flags & MADT_LOCAL_APIC_FLAG_ENABLED) != 0,
        online_capable: (flags & MADT_LOCAL_APIC_FLAG_ONLINE_CAPABLE) != 0,
        x2apic,
    }
}

/// The MADT after the entry at `off` of length `l`.
pub open spec fn madt_entry(b: Seq<u8>, off: int, l: int, m: MadtView) -> MadtView {
    let t = b[off];
    if t == MADT_ENTRY_LOCAL_APIC && l >= 8 {
        MadtView {
            processors: m.processors.push(processor_of(b[off + 2] as int, b[off + 3] as int, le_u32(b, off + 4) as u32, false)),
            ..m
        }
    } else if t == MADT_ENTRY_IO_APIC && l >= 12 {
        MadtView {
            io_apics: m.io_apics.push(
                IoApicInfo {
                    io_apic_id: b[off + 2],
                    address: le_u32(b, off + 4) as u32,
                    global_system_interrupt_base: le_u32(b, off + 8) as u32,
                },
            ),
            ..m
        }
    } else if t == MADT_ENTRY_INTERRUPT_SOURCE_OVERRIDE && l >= 10 {
        MadtView {
            interrupt_source_overrides: m.interrupt_source_overrides.push(
                InterruptSourceOverride {
                    source: b[off + 3],
                    global_system_interrupt: le_u32(b, off + 4) as u32,
                    flags: le_u16(b, off + 8) as u16,
                },
            ),
            ..m
        }
    } else if t == MADT_ENTRY_LOCAL_APIC_ADDRESS_OVERRIDE && l >= 12 {
        MadtView { local_apic_address: le_u64(b, off + 4) as u64, ..m }
    } else if t == MADT_ENTRY_LOCAL_X2APIC && l >= 16 {
        MadtView {
            processors: m.processors.push(
                processor_of(le_u32(b, off + 12), le_u32(b, off + 4), le_u32(b, off + 8) as u32, true),
            ),
            ..m
        }
    } else {
        m
    }
}

/// The MADT after its entries from `off` on; the walk stops at an entry that is too
/// short or runs past the table.
pub open spec fn madt_scan(b: Seq<u8>, off: int, m: MadtView) -> MadtView
    decreases b.len() - off,
{
    if off < 0 || off + 2 > b.len() {
        m
    } else {
        let l = b[off + 1] as int;
        if l < 2 || off + l > b.len() {
            m
        } else {
            madt_scan(b, off + l, madt_entry(b, off, l, m))
        }
    }
}

/// Walking the MADT's entries only adds records: the processors, I/O APICs and source
/// overrides known before the walk stay, in place, at the front of each list.
pub proof fn lemma_madt_scan_appends(b: Seq<u8>, off: int, m: MadtView)
    ensures
        ({
            let r = madt_scan(b, off, m);
            &&& r.processors.len() >= m.processors.len()
            &&& r.io_apics.len() >= m.io_apics.len()
            &&& r.interrupt_source_overrides.len() >= m.interrupt_source_overrides.len()
            &&& forall|i: int| 0 <= i < m.processors.len() ==> #[trigger] r.processors[i] == m.processors[i]
            &&& forall|i: int| 0 <= i < m.io_apics.len() ==> #[trigger] r.io_apics[i] == m.io_apics[i]
            &&& forall|i: int|
                0 <= i < m.interrupt_source_overrides.len() ==> #[trigger] r.interrupt_source_overrides[i]
                    == m.interrupt_source_overrides[i]
        }),
    decreases b.len() - off,
{
    if !(off < 0 || off + 2 > b.len()) {
        let l = b[off + 1] as int;
        if !(l < 2 || off + l > b.len()) {
            let m2 = madt_entry(b, off, l, m);
            lemma_madt_scan_appends(b, off + l, m2);
            let r = madt_scan(b, off, m);
            assert forall|i: int| 0 <= i < m.processors.len() implies #[trigger] r.processors[i] == m.processors[i] by {
                assert(m2.processors[i] == m.processors[i]);
            }
            assert forall|i: int| 0 <= i < m.io_apics.len() implies #[trigger] r.io_apics[i] == m.io_apics[i] by {
                assert(m2.io_apics[i] == m.io_apics[i]);
            }
            assert forall|i: int| 0 <= i < m.interrupt_source_overrides.len() implies #[trigger] r.interrupt_source_overrides[i]
                == m.interrupt_source_overrides[i] by {
                assert(m2.interrupt_source_overrides[i] == m.interrupt_source_overrides[i]);
            }
        }
    }
}

proof fn lemma_flag_bits(b0: u8, b1: u8, b2: u8, b3: u8)
    ensures
        ({
            let x = (b0 + 256 * b1 + 65536 * b2 + 16777216 * b3) as u32;
            &&& (x & 1 != 0) == (b0 % 2 == 1)
            &&& (x & 2 != 0) == ((b0 / 2) % 2 == 1)
        }),
{
    assert({
        let x = (b0 + 256 * b1 + 65536 * b2 + 16777216 * b3) as u32;
        &&& (x & 1 != 0) == (b0 % 2 == 1)
        &&& (x & 2 != 0) == ((b0 / 2) % 2 == 1)
    }) by (bit_vector);
}

/// What one MADT entry records, from its bytes (type at 0, length at 1): a processor-local
/// APIC (type 0, 8 bytes) gives the processor id at 2 and APIC id at 3, enabled when bit 0
/// of the flag byte at 4 is set and online-capable when bit 1 is; an I/O APIC (type 1, 12
/// bytes) its id at 2, its address at 4 and its interrupt base at 8; an interrupt source
/// override (type 2, 10 bytes) the bus-relative source IRQ at 3, the global system
/// interrupt at 4 and the flags at 8, whatever the bus byte at 2 holds; an x2APIC (type 9,
/// 16 bytes) its x2APIC id at 4, flags at 8 and processor id at 12.
pub proof fn lemma_madt_entry_records(b: Seq<u8>, off: int, l: int, m: MadtView)
    requires
        0 <= off,
        2 <= l,
        off + l <= b.len(),
    ensures
        ({
            let r = madt_entry(b, off, l, m);
            &&& b[off] == 0 && l >= 8 ==> r == MadtView {
                processors: m.processors.push(
                    MadtProcessor {
                        processor_uid: b[off + 2] as u32,
                        apic_id: b[off + 3] as u32,
                        enabled: b[off + 4] % 2 == 1,
                        online_capable: (b[off + 4] / 2) % 2 == 1,
                        x2apic: false,
                    },
                ),
                ..m
            }
            &&& b[off] == 1 && l >= 12 ==> r == MadtView {
                io_apics: m.io_apics.push(
                    IoApicInfo {
                        io_apic_id: b[off + 2],
                        address: (b[off + 4] + 256 * b[off + 5] + 65536 * b[off + 6] + 16777216 * b[off + 7]) as u32,
                        global_system_interrupt_base: (b[off + 8] + 256 * b[off + 9] + 65536 * b[off + 10] + 16777216
                            * b[off + 11]) as u32,
                    },
                ),
                ..m
            }
            &&& b[off] == 2 && l >= 10 ==> r == MadtView {
                interrupt_source_overrides: m.interrupt_source_overrides.push(
                    InterruptSourceOverride {
                        source: b[3 + off],
                        global_system_interrupt: (b[off + 4] + 256 * b[off + 5] + 65536 * b[off + 6] + 16777216
                            * b[off + 7]) as u32,
                        flags: (b[off + 8] + 256 * b[off + 9]) as u16,
                    },
                ),
                ..m
            }
            &&& b[off] == 2 && l >= 10 ==> forall|x: u8| #[trigger] madt_entry(b.update(off + 2, x), off, l, m) == r
            &&& b[off] == 5 && l >= 12 ==> r == MadtView {
                local_apic_address: (b[off + 4] + 256 * b[off + 5] + 65536 * b[off + 6] + 16777216 * b[off + 7]
                    + 4294967296 * (b[off + 8] + 256 * b[off + 9] + 65536 * b[off + 10] + 16777216 * b[off + 11])) as u64,
                ..m
            }
            &&& !(b[off] == 0 || b[off] == 1 || b[off] == 2 || b[off] == 5 || b[off] == 9) ==> r == m
            &&& b[off] == 9 && l >= 16 ==> r.processors == m.processors.push(
                MadtProcessor {
                    processor_uid: (b[off + 12] + 256 * b[off + 13] + 65536 * b[off + 14] + 16777216 * b[off + 15]) as u32,
                    apic_id: (b[off + 4] + 256 * b[off + 5] + 65536 * b[off + 6] + 16777216 * b[off + 7]) as u32,
                    enabled: b[off + 8] % 2 == 1,
                    online_capable: (b[off + 8] / 2) % 2 == 1,
                    x2apic: true,
                },
            )
        }),
{
    lemma_flag_bits(b[off + 4], b[off + 5], b[off + 6], b[off + 7]);
    if l >= 16 {
        lemma_flag_bits(b[off + 8], b[off + 9], b[off + 10], b[off + 11]);
    }
    if b[off] == 2 && l >= 10 {
        assert forall|x: u8| #[trigger] madt_entry(b.update(off + 2, x), off, l, m) == madt_entry(b, off, l, m) by {
            let c = b.update(off + 2, x);
            assert(c[off] == b[off] && c[off + 3] == b[off + 3]);
            assert(le_u32(c, off + 4) == le_u32(b, off + 4));
            assert(le_u16(c, off + 8) == le_u16(b, off + 8));
        }
    }
}

/// The MADT header: a table shorter than 44 bytes gives no MADT; otherwise, before its
/// entries are walked, the local APIC address is the 32-bit word at 36 and the flags the
/// word at 40.
pub proof fn lemma_madt_header(b: Seq<u8>)
    ensures
        b.len() < 44 ==> madt_of(b) is None,
        b.len() >= 44 ==> madt_of(b) == Some(
            madt_scan(
                b,
                44,
                MadtView {
                    local_apic_address: (b[36] + 256 * b[37] + 65536 * b[38] + 16777216 * b[39]) as u64,
                    flags: (b[40] + 256 * b[41] + 65536 * b[42] + 16777216 * b[43]) as u32,
                    processors: Seq::empty(),
                    io_apics: Seq::empty(),
                    interrupt_source_overrides: Seq::empty(),
                },
            ),
        ),
{
}

/// An MADT whose first entry is an interrupt source override reports that override first:
/// its source is the entry's IRQ byte (offset 3), not the bus byte before it.
pub proof fn lemma_madt_first_override(b: Seq<u8>)
    requires
        b.len() >= 54,
        b[44] == 2,
        b[45] >= 10,
        44 + b[45] <= b.len(),
    ensures
        madt_of(b) matches Some(v) && v.interrupt_source_overrides.len() >= 1
            && v.interrupt_source_overrides[0] == (InterruptSourceOverride {
            source: b[47],
            global_system_interrupt: (b[48] + 256 * b[49] + 65536 * b[50] + 16777216 * b[51]) as u32,
            flags: (b[52] + 256 * b[53]) as u16,
        }),
{
    let m0 = MadtView {
        local_apic_address: le_u32(b, 36) as u64,
        flags: le_u32(b, 40) as u32,
        processors: Seq::empty(),
        io_apics: Seq::empty(),
        interrupt_source_overrides: Seq::empty(),
    };
    let l = b[45] as int;
    lemma_madt_entry_records(b, 44, l, m0);
    let m1 = madt_entry(b, 44, l, m0);
    lemma_madt_scan_appends(b, 44 + l, m1);
    assert(madt_scan(b, 44, m0) == madt_scan(b, 44 + l, m1));
    assert(m1.interrupt_source_overrides.len() == 1);
}

/// The MADT a table of `b` gives; `None` when it is shorter than the MADT header.
pub open spec fn madt_of(b: Seq<u8>) -> Option<MadtView> {
    if b.len() < MADT_HEADER_BYTES {
        None
    } else {
        Some(
            madt_scan(
                b,
                MADT_HEADER_BYTES as int,
                MadtView {
                    local_apic_address: le_u32(b, 36) as u64,
                    flags: le_u32(b, 40) as u32,
                    processors: Seq::empty(),
                    io_apics: Seq::empty(),
                    interrupt_source_overrides: Seq::empty(),
                },
            ),
        )
    }
}

pub fn parse_madt(table_bytes: &[u8]) -> (r: Option<MadtInfo>)
    ensures
        r matches Some(m) ==> madt_of(table_bytes@) == Some(m@),
        r is None ==> madt_of(table_bytes@) is None,
{
    if table_bytes.len() < MADT_HEADER_BYTES {
        return None;
    }
    let b = table_bytes;
    let mut m = MadtInfo {
        local_apic_address: read_u32_le(b, 36) as u64,
        flags: read_u32_le(b, 40),
        processors: Vec::new(),
        io_apics: Vec::new(),
        interrupt_source_overrides: Vec::new(),
    };
    let ghost start = m@;
    let mut offset: usize = MADT_HEADER_BYTES;
    let mut done = false;
    while !done
        invariant
            MADT_HEADER_BYTES <= offset <= b@.len(),
            !done ==> madt_scan(b@, MADT_HEADER_BYTES as int, start) == madt_scan(b@, offset as int, m@),
            done ==> madt_scan(b@, MADT_HEADER_BYTES as int, start) == m@,
        decreases b@.len() - offset + (if done { 0int } else { 1 }),
    {
        if b.len() - offset < 2 {
            done = true;
        } else {
            let entry_type = b[offset];
            let entry_length = b[offset + 1] as usize;
            if entry_length < 2 || entry_length > b.len() - offset {
                done = true;
            } else {
                let ghost before = m@;
                if entry_type == MADT_ENTRY_LOCAL_APIC && entry_length >= 8 {
                    let flags = read_u32_le(b, offset + 4);
                    m.processors.push(
                        MadtProcessor {
                            processor_uid: b[offset + 2] as u32,
                            apic_id: b[offset + 3] as u32,
                            enabled: (flags & MADT_LOCAL_APIC_FLAG_ENABLED) != 0,
                            online_capable: (flags & MADT_LOCAL_APIC_FLAG_ONLINE_CAPABLE) != 0,
                            x2apic: false,
                        },
                    );
                } else if entry_type == MADT_ENTRY_IO_APIC && entry_length >= 12 {
                    m.io_apics.push(
                        IoApicInfo {
                            io_apic_id: b[offset + 2],
                            address: read_u32_le(b, offset + 4),
                            global_system_interrupt_base: read_u32_le(b, offset + 8),
                        },
                    );
                } else if entry_type == MADT_ENTRY_INTERRUPT_SOURCE_OVERRIDE && entry_length >= 10 {
                    m.interrupt_source_overrides.push(
                        InterruptSourceOverride {
                            source: b[offset + 3],
                            global_system_interrupt: read_u32_le(b, offset + 4),
                            flags: read_u16_le(b, offset + 8),
                        },
                    );
                } else if entry_type == MADT_ENTRY_LOCAL_APIC_ADDRESS_OVERRIDE && entry_length >= 12 {
                    m.local_apic_address = read_u64_le(b, offset + 4);
                } else if entry_type == MADT_ENTRY_LOCAL_X2APIC && entry_length >= 16 {
                    let apic_id = read_u32_le(b, offset + 4);
                    let flags = read_u32_le(b, offset + 8);
                    let processor_uid = read_u32_le(b, offset + 12);
                    m.processors.push(
                        MadtProcessor {
                            processor_uid,
                            apic_id,
                            enabled: (flags & MADT_LOCAL_APIC_FLAG_ENABLED) != 0,
                            online_capable: (flags & MADT_LOCAL_APIC_FLAG_ONLINE_CAPABLE) != 0,
                            x2apic: true,
                        },
                    );
                }
                assert(m@ == madt_entry(b@, offset as int, entry_length as int, before));
                offset = offset + entry_length;
            }
        }
    }
    Some(m)
}

/// The wrapping sum of some bytes.
pub open spec fn byte_sum(s: Seq<u8>) -> int
    decreases s.len(),
{
    if s.len() == 0 { 0 } else { (byte_sum(s.drop_last()) + s.last()) % 256 }
}

pub fn checksum(bytes: &[u8]) -> (r: u8)
    ensures
        r as int == byte_sum(bytes@),
{
    let mut sum: u8 = 0;
    let mut i: usize = 0;
    while i < bytes.len()
        invariant
            i <= bytes@.len(),
            sum as int == byte_sum(bytes@.subrange(0, i as int)),
        decreases bytes@.len() - i,
    {
        assert(bytes@.subrange(0, i + 1).drop_last() =~= bytes@.subrange(0, i as int));
        sum = sum.wrapping_add(bytes[i]);
        i = i + 1;
    }
    assert(bytes@.subrange(0, bytes@.len() as int) =~= bytes@);
    sum
}

#[derive(Copy, Clone, Debug, PartialEq, Eq, Structural)]
pub enum AcpiError {
    AddressOverflow,
    MappingFailed,
    InvalidRsdpSignature,
    InvalidRsdpChecksum,
    InvalidRsdpRevision,
    MissingRootTable,
    InvalidRootSignature,
    InvalidRootLength,
    InvalidRootChecksum,
}

impl AcpiError {
    pub fn as_str(self) -> (s: &'static str)
        ensures
            self == AcpiError::AddressOverflow ==> s@ == "physical-to-virtual address overflow"@,
            self == AcpiError::MappingFailed ==> s@ == "failed to map an acpi table page"@,
            self == AcpiError::InvalidRsdpSignature ==> s@ == "invalid rsdp signature"@,
            self == AcpiError::InvalidRsdpChecksum ==> s@ == "invalid rsdp checksum"@,
            self == AcpiError::InvalidRsdpRevision ==> s@ == "invalid rsdp revision or length"@,
            self == AcpiError::MissingRootTable ==> s@ == "missing acpi root table"@,
            self == AcpiError::InvalidRootSignature ==> s@ == "invalid acpi root table signature"@,
            self == AcpiError::InvalidRootLength ==> s@ == "invalid acpi root table length"@,
            self == AcpiError::InvalidRootChecksum ==> s@ == "invalid acpi root table checksum"@,
    {
        match self {
            AcpiError::AddressOverflow => "physical-to-virtual address overflow",
            AcpiError::MappingFailed => "failed to map an acpi table page",
            AcpiError::InvalidRsdpSignature => "invalid rsdp signature",
            AcpiError::InvalidRsdpChecksum => "invalid rsdp checksum",
            AcpiError::InvalidRsdpRevision => "invalid rsdp revision or length",
            AcpiError::MissingRootTable => "missing acpi root table",
            AcpiError::InvalidRootSignature => "invalid acpi root table signature",
            AcpiError::InvalidRootLength => "invalid acpi root table length",
            AcpiError::InvalidRootChecksum => "invalid acpi root table checksum",
        }
    }
}

pub fn map_error(error: MapError) -> (e: AcpiError)
    ensures
        error == MapError::AddressOverflow ==> e == AcpiError::AddressOverflow,
        error != MapError::AddressOverflow ==> e == AcpiError::MappingFailed,
{
    match error {
        MapError::AddressOverflow => AcpiError::AddressOverflow,
        MapError::PageTableAllocationFailed => AcpiError::MappingFailed,
        MapError::MappingConflict => AcpiError::MappingFailed,
    }
}

/// A stretch of physical memory: where it starts and what it holds.
pub struct PhysRegion {
    pub base: u64,
    pub bytes: Vec<u8>,
}

/// The physical memory the firmware tables are read from.
pub struct PhysMemory {
    pub regions: Vec<PhysRegion>,
}

pub open spec fn regions_view(rs: Seq<PhysRegion>) -> Seq<(u64, Seq<u8>)> {
    rs.map_values(|r: PhysRegion| (r.base, r.bytes@))
}

/// The first region at or after `from` that holds `len` bytes at `addr`.
pub open spec fn region_for(rs: Seq<(u64, Seq<u8>)>, addr: int, len: int, from: int) -> Option<int>
    decreases rs.len() - from,
{
    if from < 0 || from >= rs.len() {
        None
    } else if rs[from].0 <= addr && addr + len <= rs[from].0 + rs[from].1.len() {
        Some(from)
    } else {
        region_for(rs, addr, len, from + 1)
    }
}

proof fn lemma_region_for(rs: Seq<(u64, Seq<u8>)>, addr: int, len: int, from: int)
    ensures
        region_for(rs, addr, len, from) matches Some(i) ==> from <= i < rs.len() && rs[i].0 <= addr && addr + len
            <= rs[i].0 + rs[i].1.len(),
    decreases rs.len() - from,
{
    if 0 <= from < rs.len() && !(rs[from].0 <= addr && addr + len <= rs[from].0 + rs[from].1.len()) {
        lemma_region_for(rs, addr, len, from + 1);
    }
}

/// What reading `len` bytes of physical memory at `addr` through the direct map at `hhdm`
/// gives: an overflow of the virtual or the last physical address, a region that is not
/// there, or the bytes.
pub open spec fn phys_read(rs: Seq<(u64, Seq<u8>)>, hhdm: u64, addr: u64, len: int) -> Result<Seq<u8>, AcpiError> {
    let span = if len < 1 { 1 } else { len };
    if hhdm + addr > u64::MAX || addr + span - 1 > u64::MAX {
        Err(AcpiError::AddressOverflow)
    } else {
        match region_for(rs, addr as int, len, 0) {
            Some(i) => Ok(rs[i].1.subrange(addr - rs[i].0, addr - rs[i].0 + len)),
            None => Err(AcpiError::MappingFailed),
        }
    }
}

impl PhysMemory {
    pub open spec fn view(&self) -> Seq<(u64, Seq<u8>)> {
        regions_view(self.regions@)
    }

    /// Reads `length` bytes at a physical address.
    pub fn read(&self, hhdm_offset: u64, physical_address: u64, length: usize) -> (r: Result<Vec<u8>, AcpiError>)
        ensures
            match phys_read(self.view(), hhdm_offset, physical_address, length as int) {
                Ok(b) => r matches Ok(v) && v@ == b,
                Err(e) => r matches Err(e2) && e2 == e,
            },
            r matches Ok(v) ==> v@.len() == length,
    {
        proof {
            lemma_region_for(self.view(), physical_address as int, length as int, 0);
        }
        if hhdm_offset.checked_add(physical_address).is_none() {
            return Err(AcpiError::AddressOverflow);
        }
        let span: u64 = if length < 1 { 1 } else { length as u64 };
        if (length as u64) as usize != length || physical_address.checked_add(span - 1).is_none() {
            return Err(AcpiError::AddressOverflow);
        }
        let mut i: usize = 0;
        while i < self.regions.len()
            invariant
                i <= self.regions@.len(),
                hhdm_offset + physical_address <= u64::MAX,
                physical_address + (if length < 1 { 1 } else { length as int }) - 1 <= u64::MAX,
                region_for(self.view(), physical_address as int, length as int, 0) == region_for(
                    self.view(),
                    physical_address as int,
                    length as int,
                    i as int,
                ),
            decreases self.regions@.len() - i,
        {
            let r = &self.regions[i];
            if r.base <= physical_address && (physical_address - r.base) as u128 + length as u128 <= r.bytes.len() as u128 {
                let start = (physical_address - r.base) as usize;
                let mut out: Vec<u8> = Vec::new();
                crate::fat::append_bytes(&mut out, &r.bytes.as_slice()[start..start + length]);
                proof {
                    lemma_region_for(self.view(), physical_address as int, length as int, i as int);
                    assert(self.view()[i as int] == (r.base, r.bytes@));
                    assert(region_for(self.view(), physical_address as int, length as int, i as int) == Some(i as int));
                }
                assert(out@ =~= self.view()[i as int].1.subrange(
                    physical_address - self.view()[i as int].0,
                    physical_address - self.view()[i as int].0 + length,
                ));
                return Ok(out);
            }
            i = i + 1;
        }
        Err(AcpiError::MappingFailed)
    }
}

/// Whether the four bytes at `off` are `a b c d`.
pub open spec fn sig_at(s: Seq<u8>, off: int, a: u8, b: u8, c: u8, d: u8) -> bool {
    s[off] == a && s[off + 1] == b && s[off + 2] == c && s[off + 3] == d
}

fn sig_is(s: &[u8], off: usize, a: u8, b: u8, c: u8, d: u8) -> (r: bool)
    requires
        off + 4 <= s@.len(),
    ensures
        r == sig_at(s@, off as int, a, b, c, d),
{
    s[off] == a && s[off + 1] == b && s[off + 2] == c && s[off + 3] == d
}

/// "RSD PTR " at the start.
pub open spec fn rsdp_signature_ok(s: Seq<u8>) -> bool {
    sig_at(s, 0, 0x52, 0x53, 0x44, 0x20) && sig_at(s, 4, 0x50, 0x54, 0x52, 0x20)
}

/// What the walk over the table list has found so far.
pub ghost struct TableScan {
    pub valid: int,
    pub invalid: int,
    pub madt: Option<MadtView>,
    pub fadt: Option<FadtInfo>,
}

/// The physical address of table `i` of a root table.
pub open spec fn table_address(root: Seq<u8>, kind: RootKind, i: int) -> u64 {
    match kind {
        RootKind::Rsdt => le_u32(root, SDT_HEADER_BYTES + 4 * i) as u64,
        RootKind::Xsdt => le_u64(root, SDT_HEADER_BYTES + 8 * i) as u64,
    }
}

/// The walk after looking at the table at `addr`.
pub open spec fn scan_table(rs: Seq<(u64, Seq<u8>)>, hhdm: u64, addr: u64, acc: TableScan) -> TableScan {
    let bad = TableScan { invalid: acc.invalid + 1, ..acc };
    if addr == 0 {
        bad
    } else {
        match phys_read(rs, hhdm, addr, SDT_HEADER_BYTES as int) {
            Err(_) => bad,
            Ok(h) => {
                let len = le_u32(h, 4);
                if len < SDT_HEADER_BYTES {
                    bad
                } else {
                    match phys_read(rs, hhdm, addr, len) {
                        Err(_) => bad,
                        Ok(t) => if byte_sum(t) != 0 {
                            bad
                        } else {
                            let good = TableScan { valid: acc.valid + 1, ..acc };
                            if acc.madt is None && sig_at(h, 0, 0x41, 0x50, 0x49, 0x43) {
                                TableScan { madt: madt_of(t), ..good }
                            } else if acc.fadt is None && sig_at(h, 0, 0x46, 0x41, 0x43, 0x50) {
                                TableScan { fadt: fadt_of(h[8], len as u32, t), ..good }
                            } else {
                                good
                            }
                        },
                    }
                }
            },
        }
    }
}

/// The walk over tables `0..n` of a root table.
pub open spec fn scan_tables(rs: Seq<(u64, Seq<u8>)>, hhdm: u64, root: Seq<u8>, kind: RootKind, n: int) -> TableScan
    decreases n,
{
    if n <= 0 {
        TableScan { valid: 0, invalid: 0, madt: None, fadt: None }
    } else {
        scan_table(rs, hhdm, table_address(root, kind, n - 1), scan_tables(rs, hhdm, root, kind, n - 1))
    }
}

/// The ACPI checksum is the sum of the bytes modulo 256: nothing sums to zero, a single
/// byte sums to itself, and the sum of two pieces put together is the sum of their sums.
/// A table is valid when its bytes, its checksum byte among them, sum to zero.
pub proof fn lemma_byte_sum_is_sum_mod_256(a: Seq<u8>, b: Seq<u8>, x: u8)
    ensures
        byte_sum(Seq::<u8>::empty()) == 0,
        byte_sum(seq![x]) == x,
        byte_sum(a + b) == (byte_sum(a) + byte_sum(b)) % 256,
        0 <= byte_sum(a) < 256,
    decreases b.len(),
{
    assert(seq![x].drop_last() =~= Seq::<u8>::empty());
    lemma_byte_sum_range(a);
    if b.len() == 0 {
        assert(a + b =~= a);
    } else {
        lemma_byte_sum_is_sum_mod_256(a, b.drop_last(), x);
        lemma_byte_sum_range(b.drop_last());
        assert((a + b).drop_last() =~= a + b.drop_last());
        assert((a + b).last() == b.last());
        let sa = byte_sum(a);
        let sb = byte_sum(b.drop_last());
        let l = b.last() as int;
        assert(((sa + sb) % 256 + l) % 256 == (sa + (sb + l) % 256) % 256) by (nonlinear_arith)
            requires
                0 <= sa < 256,
                0 <= sb < 256,
                0 <= l < 256,
        ;
    }
}

proof fn lemma_byte_sum_range(a: Seq<u8>)
    ensures
        0 <= byte_sum(a) < 256,
    decreases a.len(),
{
    if a.len() > 0 {
        lemma_byte_sum_range(a.drop_last());
    }
}

/// Table `i` listed by a root table: the RSDT lists 32-bit physical addresses and the XSDT
/// 64-bit ones, little-endian, one after another from byte 36, right after the header.
pub proof fn lemma_root_table_entries(root: Seq<u8>, i: int)
    requires
        0 <= i,
    ensures
        table_address(root, RootKind::Rsdt, i) == root[36 + 4 * i] + 256 * root[37 + 4 * i] + 65536 * root[38 + 4 * i]
            + 16777216 * root[39 + 4 * i],
        table_address(root, RootKind::Xsdt, i) == root[36 + 8 * i] + 256 * root[37 + 8 * i] + 65536 * root[38 + 8
            * i] + 16777216 * root[39 + 8 * i] + 4294967296 * (root[40 + 8 * i] + 256 * root[41 + 8 * i] + 65536
            * root[42 + 8 * i] + 16777216 * root[43 + 8 * i]),
{
}

/// Where the FADT fields sit: a table shorter than 116 bytes gives none; otherwise the
/// preferred power profile is byte 45, the SCI interrupt the 16-bit word at 46, the SMI
/// command port the 32-bit word at 48, the ACPI enable and disable values bytes 52 and 53,
/// the PM1a and PM1b control blocks the 32-bit words at 64 and 68, the boot architecture
/// flags the 16-bit word at 109 (zero when the table ends before), the flags the 32-bit
/// word at 112, the reset register the 12 bytes at 116 (when present) and the reset value
/// byte 128 (zero when the table ends before).
pub proof fn lemma_fadt_field_offsets(revision: u8, length: u32, b: Seq<u8>)
    ensures
        b.len() < 116 ==> fadt_of(revision, length, b) is None,
        b.len() >= 116 ==> (fadt_of(revision, length, b) matches Some(f) && {
            &&& f.revision == revision && f.length == length
            &&& f.preferred_pm_profile == power_profile_of(b[45])
            &&& f.sci_interrupt == b[46] + 256 * b[47]
            &&& f.smi_command_port == b[48] + 256 * b[49] + 65536 * b[50] + 16777216 * b[51]
            &&& f.acpi_enable == b[52] && f.acpi_disable == b[53]
            &&& f.pm1a_control_block == b[64] + 256 * b[65] + 65536 * b[66] + 16777216 * b[67]
            &&& f.pm1b_control_block == b[68] + 256 * b[69] + 65536 * b[70] + 16777216 * b[71]
            &&& f.boot_architecture_flags == b[109] + 256 * b[110]
            &&& f.flags == b[112] + 256 * b[113] + 65536 * b[114] + 16777216 * b[115]
            &&& b.len() >= 128 ==> f.reset_register == Some(
                GenericAddress {
                    address_space: b[116],
                    bit_width: b[117],
                    bit_offset: b[118],
                    access_size: b[119],
                    address: le_u64(b, 120) as u64,
                },
            )
            &&& b.len() < 128 ==> f.reset_register is None
            &&& f.reset_value == (if b.len() > 128 { b[128] } else { 0 })
        }),
{
}

/// Whether a checksum-valid table whose signature is `s0 s1 s2 s3` sits at `addr`.
pub open spec fn valid_table_at(rs: Seq<(u64, Seq<u8>)>, hhdm: u64, addr: u64, s0: u8, s1: u8, s2: u8, s3: u8) -> bool {
    &&& addr != 0
    &&& phys_read(rs, hhdm, addr, SDT_HEADER_BYTES as int) matches Ok(h)
    &&& sig_at(h, 0, s0, s1, s2, s3)
    &&& le_u32(h, 4) >= SDT_HEADER_BYTES
    &&& phys_read(rs, hhdm, addr, le_u32(h, 4)) matches Ok(t)
    &&& byte_sum(t) == 0
}

/// Discovery reports a MADT only when one of the listed tables is a checksum-valid table
/// signed `APIC`, and a FADT only when one is a checksum-valid table signed `FACP`.
pub proof fn lemma_scan_found_listed(rs: Seq<(u64, Seq<u8>)>, hhdm: u64, root: Seq<u8>, kind: RootKind, n: int)
    requires
        0 <= n,
    ensures
        scan_tables(rs, hhdm, root, kind, n).madt is Some ==> exists|i: int|
            0 <= i < n && valid_table_at(rs, hhdm, #[trigger] table_address(root, kind, i), 0x41, 0x50, 0x49, 0x43),
        scan_tables(rs, hhdm, root, kind, n).fadt is Some ==> exists|i: int|
            0 <= i < n && valid_table_at(rs, hhdm, #[trigger] table_address(root, kind, i), 0x46, 0x41, 0x43, 0x50),
    decreases n,
{
    if n > 0 {
        lemma_scan_found_listed(rs, hhdm, root, kind, n - 1);
        let prev = scan_tables(rs, hhdm, root, kind, n - 1);
        let a = table_address(root, kind, n - 1);
        if scan_tables(rs, hhdm, root, kind, n).madt is Some && prev.madt is None {
            assert(valid_table_at(rs, hhdm, a, 0x41, 0x50, 0x49, 0x43));
        }
        if scan_tables(rs, hhdm, root, kind, n).fadt is Some && prev.fadt is None {
            assert(valid_table_at(rs, hhdm, a, 0x46, 0x41, 0x43, 0x50));
        }
    }
}

/// Every table listed is counted once, as valid or as invalid.
pub proof fn lemma_scan_counts(rs: Seq<(u64, Seq<u8>)>, hhdm: u64, root: Seq<u8>, kind: RootKind, n: int)
    requires
        0 <= n,
    ensures
        scan_tables(rs, hhdm, root, kind, n).valid + scan_tables(rs, hhdm, root, kind, n).invalid == n,
        scan_tables(rs, hhdm, root, kind, n).valid >= 0,
        scan_tables(rs, hhdm, root, kind, n).invalid >= 0,
    decreases n,
{
    if n > 0 {
        lemma_scan_counts(rs, hhdm, root, kind, n - 1);
    }
}

/// The root table an RSDP points at, or the error that stops discovery first.
pub open spec fn root_choice(rs: Seq<(u64, Seq<u8>)>, hhdm: u64, a: u64) -> Result<(RootKind, u64), AcpiError> {
    match phys_read(rs, hhdm, a, RSDP_BYTES as int) {
        Err(e) => Err(e),
        Ok(r) => if !rsdp_signature_ok(r) {
            Err(AcpiError::InvalidRsdpSignature)
        } else if byte_sum(r) != 0 {
            Err(AcpiError::InvalidRsdpChecksum)
        } else {
            let rsdt = le_u32(r, 16) as u64;
            if r[15] >= 2 {
                match phys_read(rs, hhdm, a, RSDP20_BYTES as int) {
                    Err(e) => Err(e),
                    Ok(r20) => {
                        let length = le_u32(r20, 20);
                        if length < RSDP20_BYTES {
                            Err(AcpiError::InvalidRsdpRevision)
                        } else {
                            match phys_read(rs, hhdm, a, length) {
                                Err(e) => Err(e),
                                Ok(ext) => if byte_sum(ext) != 0 {
                                    Err(AcpiError::InvalidRsdpChecksum)
                                } else if le_u64(r20, 24) != 0 {
                                    Ok((RootKind::Xsdt, le_u64(r20, 24) as u64))
                                } else if rsdt == 0 {
                                    Err(AcpiError::MissingRootTable)
                                } else {
                                    Ok((RootKind::Rsdt, rsdt))
                                },
                            }
                        }
                    },
                }
            } else if rsdt == 0 {
                Err(AcpiError::MissingRootTable)
            } else {
                Ok((RootKind::Rsdt, rsdt))
            }
        },
    }
}

/// What an accepted RSDP says: its first 20 bytes start with the signature `RSD PTR ` and
/// sum to zero; an RSDP of revision 2 or more (byte 15) with a non-zero 64-bit XSDT
/// address (at 24) leads to that XSDT, and otherwise the 32-bit RSDT address (at 16),
/// which is not zero, leads to the RSDT.
pub proof fn lemma_rsdp_root(rs: Seq<(u64, Seq<u8>)>, hhdm: u64, a: u64)
    ensures
        root_choice(rs, hhdm, a) matches Ok((kind, root)) ==> (phys_read(rs, hhdm, a, 20) matches Ok(r) && {
            &&& r[0] == 0x52 && r[1] == 0x53 && r[2] == 0x44 && r[3] == 0x20
            &&& r[4] == 0x50 && r[5] == 0x54 && r[6] == 0x52 && r[7] == 0x20
            &&& byte_sum(r) == 0
            &&& kind == RootKind::Xsdt ==> r[15] >= 2 && (phys_read(rs, hhdm, a, 36) matches Ok(x) && root == x[24] + 256
                * x[25] + 65536 * x[26] + 16777216 * x[27] + 4294967296 * (x[28] + 256 * x[29] + 65536 * x[30]
                + 16777216 * x[31]) && root != 0)
            &&& kind == RootKind::Rsdt ==> root == r[16] + 256 * r[17] + 65536 * r[18] + 16777216 * r[19] && root != 0
        }),
{
}

/// The checked root table's bytes, or the error that stops discovery.
pub open spec fn root_bytes_of(rs: Seq<(u64, Seq<u8>)>, hhdm: u64, kind: RootKind, root: u64) -> Result<Seq<u8>, AcpiError> {
    match phys_read(rs, hhdm, root, SDT_HEADER_BYTES as int) {
        Err(e) => Err(e),
        Ok(h) => {
            let len = le_u32(h, 4);
            if len < SDT_HEADER_BYTES {
                Err(AcpiError::InvalidRootLength)
            } else if !(match kind {
                RootKind::Rsdt => sig_at(h, 0, 0x52, 0x53, 0x44, 0x54),
                RootKind::Xsdt => sig_at(h, 0, 0x58, 0x53, 0x44, 0x54),
            }) {
                Err(AcpiError::InvalidRootSignature)
            } else {
                match phys_read(rs, hhdm, root, len) {
                    Err(e) => Err(e),
                    Ok(b) => if byte_sum(b) != 0 { Err(AcpiError::InvalidRootChecksum) } else { Ok(b) },
                }
            }
        },
    }
}

pub open spec fn entry_size(kind: RootKind) -> int {
    match kind {
        RootKind::Rsdt => 4,
        RootKind::Xsdt => 8,
    }
}

/// What ACPI discovery found.
pub struct AcpiDiscovery {
    pub revision: u8,
    pub oem_id: [u8; 6],
    pub rsdp_address: u64,
    pub root_address: u64,
    pub root_kind: RootKind,
    pub table_count: usize,
    pub valid_table_count: usize,
    pub invalid_table_count: usize,
    pub madt: Option<MadtInfo>,
    pub fadt: Option<FadtInfo>,
}

pub open spec fn madt_opt_view(m: Option<MadtInfo>) -> Option<MadtView> {
    match m {
        Some(x) => Some(x@),
        None => None,
    }
}

/// Whether `d` is what discovery reports for physical memory `rs`, the direct map at
/// `hhdm` and the RSDP at `a`, once the RSDP and root table have passed their checks.
pub open spec fn discovery_matches(rs: Seq<(u64, Seq<u8>)>, hhdm: u64, a: u64, d: AcpiDiscovery) -> bool {
    &&& root_choice(rs, hhdm, a) matches Ok((kind, root))
    &&& root_bytes_of(rs, hhdm, kind, root) matches Ok(rb)
    &&& phys_read(rs, hhdm, a, RSDP_BYTES as int) matches Ok(r)
    &&& d.revision == r[15]
    &&& d.oem_id@ == r.subrange(9, 15)
    &&& d.rsdp_address == a
    &&& d.root_address == root
    &&& d.root_kind == kind
    &&& d.table_count == (rb.len() - SDT_HEADER_BYTES) / entry_size(kind)
    &&& d.valid_table_count == scan_tables(rs, hhdm, rb, kind, d.table_count as int).valid
    &&& d.invalid_table_count == scan_tables(rs, hhdm, rb, kind, d.table_count as int).invalid
    &&& madt_opt_view(d.madt) == scan_tables(rs, hhdm, rb, kind, d.table_count as int).madt
    &&& d.fadt == scan_tables(rs, hhdm, rb, kind, d.table_count as int).fadt
}

/// Finds and checks the ACPI tables from the RSDP at `rsdp_address`, and decodes the MADT
/// and the FADT among them.
pub fn discover(hhdm_offset: u64, rsdp_address: u64, memory: &PhysMemory) -> (r: Result<AcpiDiscovery, AcpiError>)
    ensures
        match root_choice(memory.view(), hhdm_offset, rsdp_address) {
            Err(e) => r matches Err(e2) && e2 == e,
            Ok((kind, root)) => match root_bytes_of(memory.view(), hhdm_offset, kind, root) {
                Err(e) => r matches Err(e2) && e2 == e,
                Ok(_) => r matches Ok(d) && discovery_matches(memory.view(), hhdm_offset, rsdp_address, d),
            },
        },
        r matches Ok(d) ==> d.valid_table_count + d.invalid_table_count == d.table_count,
{
    let ghost rs = memory.view();
    let rsdp = match memory.read(hhdm_offset, rsdp_address, RSDP_BYTES) {
        Ok(b) => b,
        Err(e) => return Err(e),
    };
    if !(sig_is(rsdp.as_slice(), 0, 0x52, 0x53, 0x44, 0x20) && sig_is(rsdp.as_slice(), 4, 0x50, 0x54, 0x52, 0x20)) {
        return Err(AcpiError::InvalidRsdpSignature);
    }
    if checksum(rsdp.as_slice()) != 0 {
        return Err(AcpiError::InvalidRsdpChecksum);
    }
    let revision = rsdp[15];
    let oem_id: [u8; 6] = [rsdp[9], rsdp[10], rsdp[11], rsdp[12], rsdp[13], rsdp[14]];
    assert(oem_id@ =~= rsdp@.subrange(9, 15));
    let rsdt_address = read_u32_le(rsdp.as_slice(), 16) as u64;
    let mut root_kind = RootKind::Rsdt;
    let mut root_address: u64 = rsdt_address;
    if revision >= 2 {
        let rsdp20 = match memory.read(hhdm_offset, rsdp_address, RSDP20_BYTES) {
            Ok(b) => b,
            Err(e) => return Err(e),
        };
        let length = read_u32_le(rsdp20.as_slice(), 20);
        if length < RSDP20_BYTES as u32 {
            return Err(AcpiError::InvalidRsdpRevision);
        }
        let extended = match memory.read(hhdm_offset, rsdp_address, length as usize) {
            Ok(b) => b,
            Err(e) => return Err(e),
        };
        if checksum(extended.as_slice()) != 0 {
            return Err(AcpiError::InvalidRsdpChecksum);
        }
        let xsdt_address = read_u64_le(rsdp20.as_slice(), 24);
        if xsdt_address != 0 {
            root_kind = RootKind::Xsdt;
            root_address = xsdt_address;
        } else if rsdt_address == 0 {
            return Err(AcpiError::MissingRootTable);
        }
    } else if rsdt_address == 0 {
        return Err(AcpiError::MissingRootTable);
    }
    assert(root_choice(rs, hhdm_offset, rsdp_address) == Ok::<(RootKind, u64), AcpiError>((root_kind, root_address)));

    let header = match memory.read(hhdm_offset, root_address, SDT_HEADER_BYTES) {
        Ok(b) => b,
        Err(e) => return Err(e),
    };
    let root_length = read_u32_le(header.as_slice(), 4);
    if root_length < SDT_HEADER_BYTES as u32 {
        return Err(AcpiError::InvalidRootLength);
    }
    let signature_ok = match root_kind {
        RootKind::Rsdt => sig_is(header.as_slice(), 0, 0x52, 0x53, 0x44, 0x54),
        RootKind::Xsdt => sig_is(header.as_slice(), 0, 0x58, 0x53, 0x44, 0x54),
    };
    if !signature_ok {
        return Err(AcpiError::InvalidRootSignature);
    }
    let root_bytes = match memory.read(hhdm_offset, root_address, root_length as usize) {
        Ok(b) => b,
        Err(e) => return Err(e),
    };
    if checksum(root_bytes.as_slice()) != 0 {
        return Err(AcpiError::InvalidRootChecksum);
    }
    let ghost rb = root_bytes@;
    let esize: usize = match root_kind {
        RootKind::Rsdt => 4,
        RootKind::Xsdt => 8,
    };
    let table_count = (root_bytes.len() - SDT_HEADER_BYTES) / esize;

    let mut valid_table_count: usize = 0;
    let mut invalid_table_count: usize = 0;
    let mut madt: Option<MadtInfo> = None;
    let mut fadt: Option<FadtInfo> = None;
    let mut index: usize = 0;
    while index < table_count
        invariant
            index <= table_count,
            rb == root_bytes@,
            rs == memory.view(),
            esize as int == entry_size(root_kind),
            table_count == (rb.len() - SDT_HEADER_BYTES) / entry_size(root_kind),
            rb.len() >= SDT_HEADER_BYTES,
            rb.len() <= u32::MAX,
            valid_table_count + invalid_table_count == index,
            valid_table_count == scan_tables(rs, hhdm_offset, rb, root_kind, index as int).valid,
            invalid_table_count == scan_tables(rs, hhdm_offset, rb, root_kind, index as int).invalid,
            madt_opt_view(madt) == scan_tables(rs, hhdm_offset, rb, root_kind, index as int).madt,
            fadt == scan_tables(rs, hhdm_offset, rb, root_kind, index as int).fadt,
        decreases table_count - index,
    {
        let entry_offset = SDT_HEADER_BYTES + index * esize;
        proof {
            assert(index * esize + esize <= table_count * esize) by (nonlinear_arith)
                requires
                    index < table_count,
                    esize > 0,
            ;
            assert(table_count * esize <= rb.len() - SDT_HEADER_BYTES) by (nonlinear_arith)
                requires
                    table_count == (rb.len() - SDT_HEADER_BYTES) / (esize as int),
                    esize > 0,
                    rb.len() >= SDT_HEADER_BYTES,
            ;
        }
        let address = match root_kind {
            RootKind::Rsdt => read_u32_le(root_bytes.as_slice(), entry_offset) as u64,
            RootKind::Xsdt => read_u64_le(root_bytes.as_slice(), entry_offset),
        };
        assert(address == table_address(rb, root_kind, index as int));
        let ghost acc = scan_tables(rs, hhdm_offset, rb, root_kind, index as int);
        let mut good = false;
        let mut header_bytes: Vec<u8> = Vec::new();
        let mut table_bytes: Vec<u8> = Vec::new();
        let mut table_length: u32 = 0;
        if address != 0 {
            match memory.read(hhdm_offset, address, SDT_HEADER_BYTES) {
                Ok(h) => {
                    let len = read_u32_le(h.as_slice(), 4);
                    if len >= SDT_HEADER_BYTES as u32 {
                        match memory.read(hhdm_offset, address, len as usize) {
                            Ok(t) => {
                                if checksum(t.as_slice()) == 0 {
                                    good = true;
                                    header_bytes = h;
                                    table_bytes = t;
                                    table_length = len;
                                }
                            },
                            Err(_) => {},
                        }
                    }
                },
                Err(_) => {},
            }
        }
        if !good {
            invalid_table_count = invalid_table_count + 1;
        } else {
            valid_table_count = valid_table_count + 1;
            if madt.is_none() && sig_is(header_bytes.as_slice(), 0, 0x41, 0x50, 0x49, 0x43) {
                madt = parse_madt(table_bytes.as_slice());
            } else if fadt.is_none() && sig_is(header_bytes.as_slice(), 0, 0x46, 0x41, 0x43, 0x50) {
                fadt = parse_fadt(header_bytes[8], table_length, table_bytes.as_slice());
            }
        }
        index = index + 1;
    }
    proof {
        lemma_scan_counts(rs, hhdm_offset, rb, root_kind, index as int);
    }
    Ok(
        AcpiDiscovery {
            revision,
            oem_id,
            rsdp_address,
            root_address,
            root_kind,
            table_count,
            valid_table_count,
            invalid_table_count,
            madt,
            fadt,
        },
    )
}

/// What `core::str::from_utf8` makes of some bytes: the text, or `None` when they are
/// not UTF-8.
pub uninterp spec fn utf8_decode(bytes: Seq<u8>) -> Option<Seq<char>>;

/// A byte that occurs in no UTF-8 text: `0xC0`, `0xC1` and `0xF5` to `0xFF`.
pub open spec fn never_in_utf8(b: u8) -> bool {
    b == 0xC0 || b == 0xC1 || b >= 0xF5
}

/// Decodes bytes as UTF-8 with `core::str::from_utf8`. Its documentation promises that
/// ASCII, being valid UTF-8, decodes as written, and that bytes which are not UTF-8 are
/// refused (a byte that UTF-8 never uses among them); this contract states both and
/// otherwise names the result.
#[verifier::external_body]
pub(crate) fn decode_utf8(bytes: &[u8]) -> (r: Option<Vec<char>>)
    ensures
        r is Some == utf8_decode(bytes@) is Some,
        r is Some ==> utf8_decode(bytes@) == Some(r->0@),
        (forall|i: int| 0 <= i < bytes@.len() ==> #[trigger] bytes@[i] < 0x80) ==> r is Some && r->0@
            == bytes@.map_values(|b: u8| b as char),
        (exists|i: int| 0 <= i < bytes@.len() && never_in_utf8(#[trigger] bytes@[i])) ==> r is None,
{
    match core::str::from_utf8(bytes) {
        Ok(text) => Some(text.chars().collect()),
        Err(_) => None,
    }
}

/// `s` without its trailing spaces.
pub open spec fn trim_trailing_spaces(s: Seq<char>) -> Seq<char>
    decreases s.len(),
{
    if s.len() > 0 && s.last() == ' ' { trim_trailing_spaces(s.drop_last()) } else { s }
}

/// The OEM id as text without trailing spaces, or `??????` when it is not UTF-8.
pub fn oem_id_str(oem_id: &[u8; 6]) -> (r: Vec<char>)
    ensures
        match utf8_decode(oem_id@) {
            Some(t) => r@ == trim_trailing_spaces(t),
            None => r@ == seq!['?', '?', '?', '?', '?', '?'],
        },
        (exists|i: int| 0 <= i < 6 && never_in_utf8(#[trigger] oem_id@[i])) ==> r@ == seq![
            '?',
            '?',
            '?',
            '?',
            '?',
            '?',
        ],
{
    match decode_utf8(oem_id.as_slice()) {
        Some(mut text) => {
            while text.len() > 0 && text[text.len() - 1] == ' '
                invariant
                    trim_trailing_spaces(text@) == trim_trailing_spaces(utf8_decode(oem_id@)->0),
                decreases text@.len(),
            {
                text.pop();
            }
            text
        },
        None => {
            let mut v: Vec<char> = Vec::new();
            let mut i: usize = 0;
            while i < 6
                invariant
                    i <= 6,
                    v@ == Seq::new(i as nat, |k: int| '?'),
                decreases 6 - i,
            {
                v.push('?');
                i = i + 1;
                assert(v@ =~= Seq::new(i as nat, |k: int| '?'));
            }
            assert(v@ =~= seq!['?', '?', '?', '?', '?', '?']);
            v
        },
    }
}

} // verus!
