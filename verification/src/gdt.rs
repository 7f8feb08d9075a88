//! The global descriptor table: the kernel and user segments, and the task-state segment
//! descriptor built from the TSS's address and size.
use vstd::prelude::*;

verus! {

pub const KERNEL_CODE_SELECTOR: u16 = 0x28;
pub const KERNEL_DATA_SELECTOR: u16 = 0x30;
pub const USER_CODE_SELECTOR: u16 = 0x38;
pub const USER_DATA_SELECTOR: u16 = 0x40;
pub const TSS_SELECTOR: u16 = 0x48;

pub const GDT_ENTRY_COUNT: usize = 11;
pub const KERNEL_CODE_INDEX: usize = 5;
pub const KERNEL_DATA_INDEX: usize = 6;
pub const USER_CODE_INDEX: usize = 7;
pub const USER_DATA_INDEX: usize = 8;
pub const TSS_LOW_INDEX: usize = 9;
pub const TSS_HIGH_INDEX: usize = 10;

pub const KERNEL_CODE_DESCRIPTOR: u64 = 0x00af_9b00_0000_ffff;
pub const KERNEL_DATA_DESCRIPTOR: u64 = 0x00cf_9300_0000_ffff;
pub const USER_CODE_DESCRIPTOR: u64 = 0x00af_fb00_0000_ffff;
pub const USER_DATA_DESCRIPTOR: u64 = 0x00cf_f300_0000_ffff;
/// The size of the 64-bit task-state segment.
pub const TSS_BYTES: u64 = 104;

#[derive(Copy, Clone, Debug, PartialEq, Eq, Structural)]
pub struct SegmentSelectors {
    pub cs: u16,
    pub ds: u16,
    pub es: u16,
    pub fs: u16,
    pub gs: u16,
    pub ss: u16,
}

/// The low half of an available 64-bit TSS descriptor.
pub open spec fn tss_low(base: u64, limit: u64) -> u64 {
    (limit & 0xFFFF) | ((base & 0xFFFFFF) << 16u64) | (0x89u64 << 40u64) | (((limit >> 16u64) & 0xF) << 48u64)
        | (((base >> 24u64) & 0xFF) << 56u64)
}

pub fn make_tss_low(base: u64, limit: u64) -> (r: u64)
    ensures
        r == tss_low(base, limit),
{
    let base_lo = base & 0xFFFFFF;
    let base_mid = (base >> 24u64) & 0xFF;
    let limit_lo = limit & 0xFFFF;
    let limit_hi = (limit >> 16u64) & 0xF;
    limit_lo | (base_lo << 16u64) | (0x89u64 << 40u64) | (limit_hi << 48u64) | (base_mid << 56u64)
}

/// The high half: the upper 32 bits of the base.
pub fn make_tss_high(base: u64) -> (r: u64)
    ensures
        r == base >> 32u64,
{
    base >> 32u64
}

/// The table's contents for a TSS at `tss_base`: null entries, then the kernel code and data,
/// user code and data, and the two halves of the TSS descriptor.
pub fn initialize(tss_base: u64) -> (gdt: Vec<u64>)
    ensures
        gdt@ == seq![
            0u64, 0, 0, 0, 0,
            KERNEL_CODE_DESCRIPTOR,
            KERNEL_DATA_DESCRIPTOR,
            USER_CODE_DESCRIPTOR,
            USER_DATA_DESCRIPTOR,
            tss_low(tss_base, (TSS_BYTES - 1) as u64),
            tss_base >> 32u64,
        ],
{
    let gdt = vec![
        0u64, 0, 0, 0, 0,
        KERNEL_CODE_DESCRIPTOR,
        KERNEL_DATA_DESCRIPTOR,
        USER_CODE_DESCRIPTOR,
        USER_DATA_DESCRIPTOR,
        make_tss_low(tss_base, TSS_BYTES - 1),
        make_tss_high(tss_base),
    ];
    gdt
}

/// The limit loaded with the table: its size in bytes less one.
pub fn gdtr_limit() -> (r: u16)
    ensures
        r == 87,
{
    (GDT_ENTRY_COUNT * 8 - 1) as u16
}

} // verus!
