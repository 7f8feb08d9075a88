use hxnu::apic::{ensure_apic_mapped, TimerError};
use hxnu::early_map::{MapError, PageTableMemory, FLAG_CACHE_DISABLE, FLAG_WRITE_THROUGH};
use hxnu::vmm::{ProcessVmm, VmmTable, ENOMEM};

const HHDM: u64 = 0xffff_8000_0000_0000;
const ROOT: u64 = 0x1000;

fn entry_of(m: &PageTableMemory, table: u64, idx: usize) -> u64 {
    let s = m.find_table(table).unwrap();
    m.tables[s][idx]
}

#[test]
fn mapping_builds_tables_and_leaf() {
    let mut m = PageTableMemory::with_root(ROOT);
    let mut pool = vec![0x5000u64, 0x4000, 0x3000];
    let va = 0x0000_7f12_3456_7000u64;
    assert_eq!(m.map_virtual_page(&mut pool, HHDM, ROOT, va + 0x123, 0x9_9000, FLAG_WRITE_THROUGH), Ok(()));
    assert!(pool.is_empty());
    assert_eq!(m.frames, vec![ROOT, 0x3000, 0x4000, 0x5000]);
    let i3 = ((va >> 39) & 0x1ff) as usize;
    let i2 = ((va >> 30) & 0x1ff) as usize;
    let i1 = ((va >> 21) & 0x1ff) as usize;
    let i0 = ((va >> 12) & 0x1ff) as usize;
    assert_eq!(entry_of(&m, ROOT, i3), 0x3000 | 3);
    assert_eq!(entry_of(&m, 0x3000, i2), 0x4000 | 3);
    assert_eq!(entry_of(&m, 0x4000, i1), 0x5000 | 3);
    assert_eq!(entry_of(&m, 0x5000, i0), 0x9_9000 | 3 | FLAG_WRITE_THROUGH);
    assert_eq!(m.levels, vec![3, 2, 1, 0]);
}

#[test]
fn remapping_same_page_is_fine_and_other_is_conflict() {
    let mut m = PageTableMemory::with_root(ROOT);
    let mut pool = vec![0x5000u64, 0x4000, 0x3000];
    let va = 0x40_0000u64;
    assert_eq!(m.ensure_page_mapping(&mut pool, HHDM, ROOT, va, 0x8000, 0), Ok(()));
    let mut pool2 = vec![0x6000u64];
    assert_eq!(m.ensure_page_mapping(&mut pool2, HHDM, ROOT, va, 0x8000, 0), Ok(()));
    assert_eq!(pool2, vec![0x6000]);
    assert_eq!(m.ensure_page_mapping(&mut pool2, HHDM, ROOT, va, 0x9000, 0), Err(MapError::MappingConflict));
    // A neighbour page shares every table.
    assert_eq!(m.ensure_page_mapping(&mut pool2, HHDM, ROOT, va + 0x1000, 0x9000, 0), Ok(()));
    assert_eq!(pool2, vec![0x6000]);
}

#[test]
fn running_out_of_frames() {
    let mut m = PageTableMemory::with_root(ROOT);
    let mut pool = vec![0x4000u64, 0x3000];
    assert_eq!(m.ensure_page_mapping(&mut pool, HHDM, ROOT, 0x1000, 0x8000, 0), Err(MapError::PageTableAllocationFailed));
    assert!(pool.is_empty());
}

#[test]
fn direct_map_overflow() {
    let mut m = PageTableMemory::with_root(ROOT);
    let mut pool = vec![0x5000u64, 0x4000, 0x3000];
    assert_eq!(m.ensure_page_mapping(&mut pool, u64::MAX - 0x10, ROOT, 0x1000, 0x8000, 0), Err(MapError::AddressOverflow));
}

#[test]
fn large_pages_are_left_alone() {
    let mut m = PageTableMemory::with_root(ROOT);
    let s = m.find_table(ROOT).unwrap();
    m.set_entry(s, 0, 0x20_0000 | 0x83);
    let mut pool = vec![0x3000u64];
    assert_eq!(m.ensure_page_mapping(&mut pool, HHDM, ROOT, 0x1000, 0x8000, 0), Ok(()));
    assert_eq!(pool, vec![0x3000]);
    assert_eq!(m.frames.len(), 1);
    assert_eq!(m.unmap_virtual_page(HHDM, ROOT, 0x1000), Ok(None));
}

#[test]
fn region_mapping_covers_every_page() {
    let mut m = PageTableMemory::with_root(ROOT);
    let mut pool = vec![0x5000u64, 0x4000, 0x3000];
    let phys = 0xFEE0_0800u64;
    let v = m.ensure_region_mapped(&mut pool, HHDM, ROOT, phys, 0x1000, FLAG_WRITE_THROUGH | FLAG_CACHE_DISABLE);
    assert_eq!(v, Ok(HHDM + phys));
    let s = m.frames.len() - 1;
    let i0 = (((HHDM + 0xFEE0_0000) >> 12) & 0x1ff) as usize;
    assert_eq!(m.tables[s][i0] & 0x000f_ffff_ffff_f000, 0xFEE0_0000);
    assert_eq!(m.tables[s][i0 + 1] & 0x000f_ffff_ffff_f000, 0xFEE0_1000);
    assert_eq!(m.tables[s][i0 + 2], 0);
    let mut m2 = PageTableMemory::with_root(ROOT);
    let mut pool2 = vec![0x3000u64];
    assert_eq!(m2.ensure_region_mapped(&mut pool2, HHDM, ROOT, u64::MAX, 2, 0), Err(MapError::AddressOverflow));
}

#[test]
fn unmapping_returns_the_page() {
    let mut m = PageTableMemory::with_root(ROOT);
    let mut pool = vec![0x5000u64, 0x4000, 0x3000];
    let va = 0x7000_0000_1000u64;
    m.map_virtual_page(&mut pool, HHDM, ROOT, va, 0xA_B000, 0).unwrap();
    assert_eq!(m.unmap_virtual_page(HHDM, ROOT, va + 0x10), Ok(Some(0xA_B000)));
    assert_eq!(m.unmap_virtual_page(HHDM, ROOT, va), Ok(None));
    assert_eq!(m.unmap_virtual_page(HHDM, ROOT, 0x1234_5000), Ok(None));
}

#[test]
fn native_regions_avoid_each_other() {
    let mut vmm = ProcessVmm::empty();
    let a = vmm.map_native_region(0, 100, 7);
    assert_eq!(a, 0x4000_0000_0000);
    let b = vmm.map_native_region(0, 0x2000, 7);
    assert_eq!(b, 0x4000_0000_1000);
    let c = vmm.map_native_region(0x5000_0000_0123, 10, 3);
    assert_eq!(c, 0x5000_0000_0000);
    assert_eq!(vmm.regions[2].end, 0x5000_0000_1000);
    assert_eq!(vmm.handle_page_fault(0x4000_0000_1800), Some(7));
    assert_eq!(vmm.handle_page_fault(0x5000_0000_0fff), Some(3));
    assert_eq!(vmm.handle_page_fault(0x5000_0000_1000), None);
    for _ in 3..128 {
        vmm.map_native_region(0x6000_0000_0000, 1, 0);
    }
    assert_eq!(vmm.map_native_region(0, 1, 0), -ENOMEM);
}

#[test]
fn process_table_entries() {
    let mut table = VmmTable::new();
    let a = table.get_process_vmm(41);
    let b = table.get_process_vmm(42);
    assert_eq!((a, b), (0, 1));
    assert_eq!(table.get_process_vmm(41), 0);
    assert!(table.processes[1].active);
    assert_eq!(table.processes[1].process_id, 42);
}

#[test]
fn demand_paging_backs_a_page() {
    let mut m = PageTableMemory::with_root(ROOT);
    let mut pool = vec![0x9000u64, 0x5000, 0x4000, 0x3000];
    let va = 0x4000_0000_2000u64;
    assert!(m.map_page(&mut pool, ROOT, va, 7));
    assert!(pool.is_empty());
    let i0 = ((va >> 12) & 0x1ff) as usize;
    assert_eq!(entry_of(&m, 0x5000, i0), 0x9000 | 7);
    let i3 = ((va >> 39) & 0x1ff) as usize;
    assert_eq!(entry_of(&m, ROOT, i3), 0x3000 | 7);
    // Already backed: nothing more is taken.
    let mut pool2 = vec![0xA000u64];
    assert!(m.map_page(&mut pool2, ROOT, va, 7));
    assert_eq!(pool2, vec![0xA000]);
    // A neighbouring page needs only its own frame.
    assert!(m.map_page(&mut pool2, ROOT, va + 0x1000, 7));
    assert!(pool2.is_empty());
    let mut empty: Vec<u64> = Vec::new();
    assert!(!m.map_page(&mut empty, ROOT, va + 0x2000, 7));
}

#[test]
fn apic_page_is_mapped_uncached() {
    let mut m = PageTableMemory::with_root(ROOT);
    let mut pool = vec![0x5000u64, 0x4000, 0x3000];
    let apic = 0xFEE0_0000u64;
    assert_eq!(ensure_apic_mapped(&mut m, &mut pool, HHDM, ROOT, apic), Ok(HHDM + apic));
    let va = HHDM + apic;
    let leaf_table = m.frames[3];
    assert_eq!(entry_of(&m, leaf_table, ((va >> 12) & 0x1ff) as usize), apic | 3 | FLAG_WRITE_THROUGH | FLAG_CACHE_DISABLE);
    let mut empty: Vec<u64> = Vec::new();
    let mut fresh = PageTableMemory::with_root(ROOT);
    assert_eq!(ensure_apic_mapped(&mut fresh, &mut empty, HHDM, ROOT, apic), Err(TimerError::PageTableAllocationFailed));
    assert_eq!(ensure_apic_mapped(&mut fresh, &mut empty, u64::MAX, ROOT, apic), Err(TimerError::MissingBaseAddress));
}
