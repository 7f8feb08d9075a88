//! The local APIC: why its timer cannot start, the register values the timer, the
//! spurious-interrupt vector and the inter-processor interrupts are programmed with, and
//! the tick count the timer interrupt keeps. The registers themselves are written by the
//! caller.
use vstd::prelude::*;
use crate::early_map::{
    covered, cr3_root, extends, fresh_frames, typed, MapError, PageTableMemory, FLAG_CACHE_DISABLE,
    FLAG_WRITE_THROUGH, PAGE_ADDRESS_MASK,
};

verus! {

pub const TIMER_VECTOR: u32 = 0x20;
pub const SPURIOUS_VECTOR: u32 = 0xff;

pub const APIC_TPR: u32 = 0x080;
pub const APIC_EOI: u32 = 0x0b0;
pub const APIC_SVR: u32 = 0x0f0;
pub const APIC_ICR_LOW: u32 = 0x300;
pub const APIC_ICR_HIGH: u32 = 0x310;
pub const APIC_LVT_TIMER: u32 = 0x320;
pub const APIC_TIMER_INITIAL_COUNT: u32 = 0x380;
pub const APIC_TIMER_DIVIDE: u32 = 0x3e0;

pub const APIC_SVR_ENABLE: u32 = 0x100;
pub const APIC_LVT_MASKED: u32 = 0x1_0000;
pub const APIC_LVT_TIMER_PERIODIC: u32 = 0x2_0000;
pub const APIC_TIMER_DIVIDE_BY_16: u32 = 0x3;
pub const APIC_TIMER_DIVIDE_VALUE: u32 = 16;
pub const APIC_TIMER_INITIAL_TICKS: u32 = 1_000_000;
pub const APIC_PERIODIC_INITIAL_TICKS: u32 = 250_000;
pub const APIC_TIMER_TIMEOUT_NS: u64 = 500_000_000;

pub const ICR_DELIVERY_STATUS: u32 = 0x1000;
pub const ICR_LEVEL_ASSERT: u32 = 0x4000;
pub const ICR_TRIGGER_LEVEL: u32 = 0x8000;
pub const ICR_DELIVERY_INIT: u32 = 0x500;
pub const ICR_DELIVERY_STARTUP: u32 = 0x600;

#[derive(Copy, Clone, Debug, PartialEq, Eq, Structural)]
pub struct TimerBringUp {
    pub vector: u8,
    pub divide_value: u32,
    pub initial_count: u32,
    pub ticks_observed: u64,
}

#[derive(Copy, Clone, Debug, PartialEq, Eq, Structural)]
pub struct PeriodicTimer {
    pub vector: u8,
    pub divide_value: u32,
    pub initial_count: u32,
}

#[derive(Copy, Clone, Debug, PartialEq, Eq, Structural)]
pub enum TimerError {
    Unsupported,
    X2ApicModeUnsupported,
    GlobalEnableMissing,
    MissingBaseAddress,
    PageTableAllocationFailed,
    Timeout,
}

impl TimerError {
    pub fn as_str(self) -> (s: &'static str)
        ensures
            self == TimerError::Unsupported ==> s@ == "local APIC is not supported"@,
            self == TimerError::X2ApicModeUnsupported ==> s@ == "x2APIC mode is active but not supported yet"@,
            self == TimerError::GlobalEnableMissing ==> s@ == "local APIC is not globally enabled"@,
            self == TimerError::MissingBaseAddress ==> s@ == "local APIC base address is missing"@,
            self == TimerError::PageTableAllocationFailed ==> s@
                == "failed to allocate a page-table page for APIC MMIO"@,
            self == TimerError::Timeout ==> s@ == "timer interrupt did not arrive before timeout"@,
    {
        match self {
            TimerError::Unsupported => "local APIC is not supported",
            TimerError::X2ApicModeUnsupported => "x2APIC mode is active but not supported yet",
            TimerError::GlobalEnableMissing => "local APIC is not globally enabled",
            TimerError::MissingBaseAddress => "local APIC base address is missing",
            TimerError::PageTableAllocationFailed => "failed to allocate a page-table page for APIC MMIO",
            TimerError::Timeout => "timer interrupt did not arrive before timeout",
        }
    }

    /// A failure to map the APIC's registers as a timer error.
    pub fn from_map_error(e: MapError) -> (r: Self)
        ensures
            r == (match e {
                MapError::PageTableAllocationFailed => TimerError::PageTableAllocationFailed,
                _ => TimerError::MissingBaseAddress,
            }),
    {
        match e {
            MapError::AddressOverflow => TimerError::MissingBaseAddress,
            MapError::PageTableAllocationFailed => TimerError::PageTableAllocationFailed,
            MapError::MappingConflict => TimerError::MissingBaseAddress,
        }
    }
}

/// What the processor reports about its local APIC.
#[derive(Copy, Clone, Debug, PartialEq, Eq, Structural)]
pub struct LocalApicInfo {
    pub local_apic_supported: bool,
    pub x2apic_enabled: bool,
    pub apic_global_enabled: bool,
    pub apic_base: u64,
}

/// Maps the local APIC's register page, write-through and uncached, at its direct-map
/// address in the tables under `cr3`, and returns that address.
pub fn ensure_apic_mapped(tables: &mut PageTableMemory, pool: &mut Vec<u64>, hhdm: u64, cr3: u64, apic_base: u64) -> (r: Result<u64, TimerError>)
    requires
        old(tables).wf(),
        fresh_frames(old(tables).mem(), old(pool)@),
        typed(old(tables).mem(), old(tables).lv()),
        old(tables).mem().dom().contains(cr3_root(cr3)),
        old(tables).lv()[cr3_root(cr3)] == 3,
    ensures
        final(tables).wf(),
        typed(final(tables).mem(), final(tables).lv()),
        extends(old(tables).mem(), final(tables).mem()),
        fresh_frames(final(tables).mem(), final(pool)@),
        hhdm + apic_base > u64::MAX ==> r == Err::<u64, TimerError>(TimerError::MissingBaseAddress),
        r matches Ok(v) ==> v == hhdm + apic_base,
        r is Ok ==> apic_base + 4095 <= u64::MAX && forall|q: u64|
            (apic_base & !0xfffu64) <= q <= ((apic_base + 4095) as u64 & !0xfffu64) && q & 0xfff == 0
                ==> #[trigger] covered(final(tables).mem(), cr3_root(cr3), (hhdm + q) as u64, q),
{
    let flags = FLAG_WRITE_THROUGH | FLAG_CACHE_DISABLE;
    assert(flags & PAGE_ADDRESS_MASK == 0) by (bit_vector)
        requires
            flags == 0x8u64 | 0x10u64,
            PAGE_ADDRESS_MASK == 0x000f_ffff_ffff_f000u64,
    ;
    match tables.ensure_region_mapped(pool, hhdm, cr3, apic_base, 4096, flags) {
        Ok(v) => Ok(v),
        Err(e) => Err(TimerError::from_map_error(e)),
    }
}

/// Whether the timer can be used, checked in this order: an APIC at all, not in x2APIC
/// mode, globally enabled, with a base address.
pub fn ensure_timer_ready(info: LocalApicInfo) -> (r: Result<(), TimerError>)
    ensures
        r == (if !info.local_apic_supported {
            Err(TimerError::Unsupported)
        } else if info.x2apic_enabled {
            Err(TimerError::X2ApicModeUnsupported)
        } else if !info.apic_global_enabled {
            Err(TimerError::GlobalEnableMissing)
        } else if info.apic_base == 0 {
            Err(TimerError::MissingBaseAddress)
        } else {
            Ok(())
        }),
{
    if !info.local_apic_supported {
        return Err(TimerError::Unsupported);
    }
    if info.x2apic_enabled {
        return Err(TimerError::X2ApicModeUnsupported);
    }
    if !info.apic_global_enabled {
        return Err(TimerError::GlobalEnableMissing);
    }
    if info.apic_base == 0 {
        return Err(TimerError::MissingBaseAddress);
    }
    Ok(())
}

/// The LVT timer entry with the timer masked.
pub fn masked_timer_entry() -> (r: u32)
    ensures
        r == APIC_LVT_MASKED | TIMER_VECTOR,
{
    APIC_LVT_MASKED | TIMER_VECTOR
}

/// The timer's readiness result for `info` (see `ensure_timer_ready`).
pub open spec fn timer_ready(info: LocalApicInfo) -> Result<(), TimerError> {
    if !info.local_apic_supported {
        Err(TimerError::Unsupported)
    } else if info.x2apic_enabled {
        Err(TimerError::X2ApicModeUnsupported)
    } else if !info.apic_global_enabled {
        Err(TimerError::GlobalEnableMissing)
    } else if info.apic_base == 0 {
        Err(TimerError::MissingBaseAddress)
    } else {
        Ok(())
    }
}

/// The register writes that start the periodic timer, in order.
pub open spec fn periodic_timer_writes() -> Seq<(u32, u32)> {
    seq![
        (APIC_LVT_TIMER, APIC_LVT_MASKED | TIMER_VECTOR),
        (APIC_TIMER_DIVIDE, APIC_TIMER_DIVIDE_BY_16),
        (APIC_LVT_TIMER, APIC_LVT_TIMER_PERIODIC | TIMER_VECTOR),
        (APIC_TIMER_INITIAL_COUNT, APIC_PERIODIC_INITIAL_TICKS),
    ]
}

/// Starts the periodic timer once the APIC passes the readiness checks (in their order;
/// a failed check is its error and nothing changes): the tick count and the log budget go
/// to 0, and the writes are: masked, divide by 16, periodic on the timer vector, 250000
/// ticks.
pub fn start_periodic_timer(info: LocalApicInfo, ticks: &mut TimerTicks) -> (r: Result<(Vec<(u32, u32)>, PeriodicTimer), TimerError>)
    ensures
        timer_ready(info) is Err ==> r is Err && r->Err_0 == timer_ready(info)->Err_0 && final(ticks).ticks
            == old(ticks).ticks && final(ticks).log_budget == old(ticks).log_budget,
        timer_ready(info) is Ok ==> (r matches Ok((w, t)) && w@ == periodic_timer_writes() && t == (PeriodicTimer {
            vector: TIMER_VECTOR as u8,
            divide_value: APIC_TIMER_DIVIDE_VALUE,
            initial_count: APIC_PERIODIC_INITIAL_TICKS,
        })) && final(ticks).ticks == 0 && final(ticks).log_budget == 0,
{
    match ensure_timer_ready(info) {
        Err(e) => return Err(e),
        Ok(()) => {},
    }
    ticks.ticks = 0;
    ticks.log_budget = 0;
    let writes = vec![
        (APIC_LVT_TIMER, APIC_LVT_MASKED | TIMER_VECTOR),
        (APIC_TIMER_DIVIDE, APIC_TIMER_DIVIDE_BY_16),
        (APIC_LVT_TIMER, APIC_LVT_TIMER_PERIODIC | TIMER_VECTOR),
        (APIC_TIMER_INITIAL_COUNT, APIC_PERIODIC_INITIAL_TICKS),
    ];
    Ok((
        writes,
        PeriodicTimer {
            vector: TIMER_VECTOR as u8,
            divide_value: APIC_TIMER_DIVIDE_VALUE,
            initial_count: APIC_PERIODIC_INITIAL_TICKS,
        },
    ))
}

/// The register writes that stop the timer: masked, count 0.
pub fn mask_periodic_timer() -> (r: Vec<(u32, u32)>)
    ensures
        r@ == seq![(APIC_LVT_TIMER, APIC_LVT_MASKED | TIMER_VECTOR), (APIC_TIMER_INITIAL_COUNT, 0u32)],
{
    vec![(APIC_LVT_TIMER, APIC_LVT_MASKED | TIMER_VECTOR), (APIC_TIMER_INITIAL_COUNT, 0)]
}

/// The spurious-vector register with the APIC enabled and the spurious vector in its low
/// byte; the other bits are kept.
pub fn enable_svr(svr: u32) -> (r: u32)
    ensures
        r == (svr & !0xffu32) | APIC_SVR_ENABLE | SPURIOUS_VECTOR,
{
    (svr & !0xffu32) | APIC_SVR_ENABLE | SPURIOUS_VECTOR
}

/// The high half of the command register: the destination in bits 31:24.
pub fn icr_destination(apic_id: u32) -> (r: u32)
    ensures
        r == apic_id << 24u32,
{
    apic_id << 24u32
}

/// The command for an INIT, level-triggered and asserted.
pub fn send_init_ipi() -> (r: u32)
    ensures
        r == ICR_DELIVERY_INIT | ICR_LEVEL_ASSERT | ICR_TRIGGER_LEVEL,
{
    ICR_DELIVERY_INIT | ICR_LEVEL_ASSERT | ICR_TRIGGER_LEVEL
}

/// The command that de-asserts the INIT.
pub fn send_init_ipi_deassert() -> (r: u32)
    ensures
        r == ICR_DELIVERY_INIT | ICR_TRIGGER_LEVEL,
{
    ICR_DELIVERY_INIT | ICR_TRIGGER_LEVEL
}

/// The command for a startup IPI to `vector`'s page.
pub fn send_startup_ipi(vector: u8) -> (r: u32)
    ensures
        r == ICR_DELIVERY_STARTUP | (vector as u32),
{
    ICR_DELIVERY_STARTUP | (vector as u32)
}

/// The command register still shows a delivery in progress.
pub fn icr_busy(icr_low: u32) -> (r: bool)
    ensures
        r == (icr_low & ICR_DELIVERY_STATUS != 0),
{
    icr_low & ICR_DELIVERY_STATUS != 0
}

/// The timer's tick count and how many more ticks get logged.
pub struct TimerTicks {
    pub ticks: u64,
    pub log_budget: u64,
}

impl TimerTicks {
    pub fn new() -> (t: Self)
        ensures
            t.ticks == 0 && t.log_budget == 0,
    {
        TimerTicks { ticks: 0, log_budget: 0 }
    }

    /// Counts a timer interrupt: the new tick count, and whether this tick is logged
    /// (which uses up one of the budget).
    pub fn handle_timer_interrupt(&mut self) -> (r: (u64, bool))
        requires
            old(self).ticks < u64::MAX,
        ensures
            final(self).ticks == old(self).ticks + 1,
            r.0 == final(self).ticks,
            r.1 == (old(self).log_budget != 0),
            final(self).log_budget == (if old(self).log_budget != 0 { old(self).log_budget - 1 } else { 0 }),
    {
        self.ticks = self.ticks + 1;
        let log = self.log_budget != 0;
        if log {
            self.log_budget = self.log_budget - 1;
        }
        (self.ticks, log)
    }
}

/// Whether the spurious interrupt was reported yet.
pub struct SpuriousLatch {
    pub reported: bool,
}

impl SpuriousLatch {
    /// A spurious interrupt: only the first is reported.
    pub fn handle_spurious_interrupt(&mut self) -> (report: bool)
        ensures
            report == !old(self).reported,
            final(self).reported,
    {
        let report = !self.reported;
        self.reported = true;
        report
    }
}

} // verus!
