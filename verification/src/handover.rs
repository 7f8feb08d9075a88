//! Handing the machine from the boot loader to the kernel on AArch64: which memory is
//! cleaned from the data cache, how the set/way operands are formed, which bits of the
//! system registers change, and how the kernel is entered from each exception level. The
//! instructions themselves are issued by the caller.
use vstd::prelude::*;

verus! {

pub const HXNU_ENTRY_POINT: u64 = 0x0020_0000;
pub const DTB_HEADER_PTR: u64 = 0x0A00_0000;
/// How much of the device tree is cleaned to memory.
pub const DTB_FLUSH_BYTES: u64 = 0x10000;
/// How much of the kernel image is cleaned to memory.
pub const KERNEL_FLUSH_BYTES: u64 = 0x20_0000;

/// SCR_EL3 bits set before dropping from EL3: non-secure, HVC enabled, EL2 in AArch64,
/// secure timer access.
pub const SCR_EL3_HANDOVER_BITS: u64 = 0xD01;
/// HCR_EL2 with EL1 in AArch64.
pub const HCR_EL2_RW: u64 = 0x8000_0000;
/// SPSR for EL1h with D, A, I and F masked.
pub const SPSR_EL1H_MASKED: u64 = 0x3C5;
/// CPACR_EL1 bits 21:20, full FP/SIMD access at EL1.
pub const CPACR_FPEN: u64 = 0x30_0000;
/// SCTLR_EL1 bits M (MMU), C (data cache) and I (instruction cache).
pub const SCTLR_MMU_AND_CACHES: u64 = 0x1005;

/// The smallest data-cache line, in bytes, from CTR_EL0: four bytes shifted by the
/// DminLine field (bits 19:16).
pub fn dcache_line_bytes(ctr: u64) -> (r: u64)
    ensures
        r == 1u64 << ((((ctr >> 16u64) & 0xF) + 2) as u64),
{
    let dmin_line = (ctr >> 16u64) & 0xF;
    assert(((ctr >> 16u64) & 0xF) <= 15) by (bit_vector);
    1u64 << (dmin_line + 2)
}

/// The first line to clean for a range starting at `start`: `start` rounded down to a
/// line.
pub fn dcache_range_start(start: u64, line: u64) -> (r: u64)
    requires
        line > 0,
    ensures
        r == start & !((line - 1) as u64),
{
    start & !(line - 1)
}

/// The number of cache levels to clean: the level of coherence, CLIDR_EL1 bits 26:24.
pub fn cache_levels(clidr: u64) -> (r: u32)
    ensures
        r == ((clidr >> 24u64) & 0x7) as u32,
        r < 8,
{
    let r = ((clidr >> 24u64) & 0x7) as u32;
    assert(((clidr >> 24u64) & 0x7) < 8) by (bit_vector);
    r
}

/// One cache level's shape from CCSIDR_EL1.
#[derive(Copy, Clone, Debug, PartialEq, Eq, Structural)]
pub struct CacheGeometry {
    /// log2 of the line size in bytes.
    pub line_shift: u32,
    pub num_ways: u32,
    pub num_sets: u32,
}

pub fn cache_geometry(ccsidr: u64) -> (g: CacheGeometry)
    ensures
        g.line_shift == (ccsidr & 0x7) + 4,
        g.num_ways == ((ccsidr >> 3u64) & 0x3FF) + 1,
        g.num_sets == ((ccsidr >> 13u64) & 0x7FFF) + 1,
{
    assert((ccsidr & 0x7) < 8 && ((ccsidr >> 3u64) & 0x3FF) < 0x400 && ((ccsidr >> 13u64) & 0x7FFF) < 0x8000)
        by (bit_vector);
    let line_size = (ccsidr & 0x7) as u32;
    CacheGeometry {
        line_shift: line_size + 4,
        num_ways: (((ccsidr >> 3u64) & 0x3FF) + 1) as u32,
        num_sets: (((ccsidr >> 13u64) & 0x7FFF) + 1) as u32,
    }
}

/// How far the way number is shifted: the leading zeros of the highest way number.
pub fn way_shift(num_ways: u32) -> (r: u32)
    requires
        num_ways > 0,
    ensures
        r == ((num_ways - 1) as u32).leading_zeros(),
{
    (num_ways - 1).leading_zeros()
}

/// The operand of a clean-and-invalidate by set/way: the way in the top bits, the set
/// above the line offset, the level in bits 3:1.
pub fn set_way_operand(way: u32, set: u32, level: u32, way_shift: u32, line_shift: u32) -> (r: u64)
    requires
        way_shift < 32,
        line_shift < 32,
        level < 8,
    ensures
        r == ((way << way_shift) | (set << line_shift) | (level << 1u32)) as u64,
{
    ((way << way_shift) | (set << line_shift) | (level << 1u32)) as u64
}

/// SCTLR_EL1 with the MMU and both caches off.
pub fn sctlr_without_mmu(sctlr: u64) -> (r: u64)
    ensures
        r == sctlr & !SCTLR_MMU_AND_CACHES,
{
    sctlr & !SCTLR_MMU_AND_CACHES
}

/// CPACR_EL1 with FP and SIMD open to EL1.
pub fn cpacr_with_fp_simd(cpacr: u64) -> (r: u64)
    ensures
        r == cpacr | CPACR_FPEN,
{
    cpacr | CPACR_FPEN
}

/// ICC_SRE_EL1 with the system-register interface enabled, when it is not yet.
pub fn sre_enable(sre: u64) -> (r: Option<u64>)
    ensures
        sre & 1 == 0 ==> r == Some(sre | 1),
        sre & 1 != 0 ==> r is None,
{
    if sre & 1 == 0 {
        Some(sre | 1)
    } else {
        None
    }
}

/// The exception level from CurrentEL (bits 3:2).
pub fn get_current_el(current_el: u64) -> (r: u8)
    ensures
        r == ((current_el >> 2u64) & 0x3) as u8,
{
    ((current_el >> 2u64) & 0x3) as u8
}

/// How control reaches the kernel.
#[derive(Copy, Clone, Debug, PartialEq, Eq, Structural)]
pub enum HandoverEntry {
    /// From EL3: set `scr_bits` in SCR_EL3, write HCR_EL2 and SPSR_EL3, return into EL1h.
    FromEl3 { scr_bits: u64, hcr_el2: u64, spsr: u64 },
    /// From EL2: write HCR_EL2 and SPSR_EL2, return into EL1h.
    FromEl2 { hcr_el2: u64, spsr: u64 },
    /// Already at EL1: write SPSR_EL1, return into EL1h.
    FromEl1 { spsr: u64 },
}

/// The hand-over: the two ranges cleaned from the data cache (the device tree, then the
/// kernel), the way in, and the entry and device-tree addresses for the jump. Whatever the
/// level it starts from, the kernel is entered at EL1h with DAIF masked (SPSR 0x3C5), the
/// exception link register holding the kernel entry, x0 the device tree and x1 to x3 zero.
#[derive(Copy, Clone, Debug)]
pub struct HandoverPlan {
    pub dtb_flush: (u64, u64),
    pub kernel_flush: (u64, u64),
    pub entry: HandoverEntry,
    pub kernel_entry: u64,
    pub dtb_ptr: u64,
}

pub open spec fn entry_for_el(el: u8) -> HandoverEntry {
    if el == 3 {
        HandoverEntry::FromEl3 { scr_bits: SCR_EL3_HANDOVER_BITS, hcr_el2: HCR_EL2_RW, spsr: SPSR_EL1H_MASKED }
    } else if el == 2 {
        HandoverEntry::FromEl2 { hcr_el2: HCR_EL2_RW, spsr: SPSR_EL1H_MASKED }
    } else {
        HandoverEntry::FromEl1 { spsr: SPSR_EL1H_MASKED }
    }
}

pub fn perform_handover(kernel_entry: u64, dtb_ptr: u64, el: u8) -> (p: HandoverPlan)
    requires
        dtb_ptr + DTB_FLUSH_BYTES <= u64::MAX,
        kernel_entry + KERNEL_FLUSH_BYTES <= u64::MAX,
    ensures
        p.dtb_flush == (dtb_ptr, (dtb_ptr + DTB_FLUSH_BYTES) as u64),
        p.kernel_flush == (kernel_entry, (kernel_entry + KERNEL_FLUSH_BYTES) as u64),
        p.entry == entry_for_el(el),
        p.kernel_entry == kernel_entry,
        p.dtb_ptr == dtb_ptr,
{
    let entry = if el == 3 {
        HandoverEntry::FromEl3 { scr_bits: SCR_EL3_HANDOVER_BITS, hcr_el2: HCR_EL2_RW, spsr: SPSR_EL1H_MASKED }
    } else if el == 2 {
        HandoverEntry::FromEl2 { hcr_el2: HCR_EL2_RW, spsr: SPSR_EL1H_MASKED }
    } else {
        HandoverEntry::FromEl1 { spsr: SPSR_EL1H_MASKED }
    };
    HandoverPlan {
        dtb_flush: (dtb_ptr, dtb_ptr + DTB_FLUSH_BYTES),
        kernel_flush: (kernel_entry, kernel_entry + KERNEL_FLUSH_BYTES),
        entry,
        kernel_entry,
        dtb_ptr,
    }
}

/// The same hand-over under its other name.
pub fn jump_to_hxnu(kernel_entry: u64, dtb_ptr: u64, el: u8) -> (p: HandoverPlan)
    requires
        dtb_ptr + DTB_FLUSH_BYTES <= u64::MAX,
        kernel_entry + KERNEL_FLUSH_BYTES <= u64::MAX,
    ensures
        p == perform_handover_spec(kernel_entry, dtb_ptr, el),
{
    perform_handover(kernel_entry, dtb_ptr, el)
}

pub open spec fn perform_handover_spec(kernel_entry: u64, dtb_ptr: u64, el: u8) -> HandoverPlan {
    HandoverPlan {
        dtb_flush: (dtb_ptr, (dtb_ptr + DTB_FLUSH_BYTES) as u64),
        kernel_flush: (kernel_entry, (kernel_entry + KERNEL_FLUSH_BYTES) as u64),
        entry: entry_for_el(el),
        kernel_entry,
        dtb_ptr,
    }
}

/// The character for a digit value below sixteen (upper-case hexadecimal).
pub open spec fn upper_digit(d: int) -> char {
    if d < 10 { (48 + d) as char } else { (55 + d) as char }
}

/// The upper-case hexadecimal digits of `n` without leading zeros.
pub open spec fn upper_hex(n: nat) -> Seq<char>
    decreases n,
{
    if n < 16 { seq![upper_digit(n as int)] } else { upper_hex(n / 16).push(upper_digit((n % 16) as int)) }
}

fn push_upper_hex(text: &mut Vec<char>, n: u64)
    ensures
        final(text)@ == old(text)@ + upper_hex(n as nat),
    decreases n,
{
    if n >= 16 {
        push_upper_hex(text, n / 16);
    }
    let d = n % 16;
    let c: char = if d < 10 { ((48 + d) as u8) as char } else { ((55 + d) as u8) as char };
    text.push(c);
    proof {
        if n < 16 {
            assert(n % 16 == n);
        }
    }
    assert(text@ =~= old(text)@ + upper_hex(n as nat));
}

/// An address as the hand-over message prints it: `0x` and upper-case digits.
pub fn handover_hex(val: u64) -> (r: Vec<char>)
    ensures
        r@ == seq!['0', 'x'] + upper_hex(val as nat),
{
    let mut text: Vec<char> = Vec::new();
    text.push('0');
    text.push('x');
    push_upper_hex(&mut text, val);
    text
}

} // verus!
