//! Loading the kernel's extension and driver modules from the initial ramdisk: which
//! modules wait for a later pass, and which bytes of a module's image go into each page
//! of a segment. Finding the modules, allocating frames and mapping pages is left to the
//! caller.
use vstd::prelude::*;
use crate::init_exec::{page_copy_window, VmMapPlanEntry};
use crate::early_map::FLAG_WRITE_THROUGH;

verus! {

/// The module that needs relocations applied, which this loader does not do yet.
pub open spec fn deferred_module_name() -> Seq<u8> {
    seq![104u8, 101, 116, 101, 114, 101, 120, 101, 99, 46, 104, 120, 101, 120, 116]
}

/// `needle` occurs in `hay` at `i`.
pub open spec fn occurs_at(hay: Seq<u8>, needle: Seq<u8>, i: int) -> bool {
    0 <= i && i + needle.len() <= hay.len() && hay.subrange(i, i + needle.len()) == needle
}

fn matches_at(hay: &[u8], needle: &[u8], i: usize) -> (r: bool)
    requires
        i + needle@.len() <= hay@.len(),
    ensures
        r == occurs_at(hay@, needle@, i as int),
{
    let n = hay.len();
    let mut k: usize = 0;
    while k < needle.len()
        invariant
            n == hay@.len(),
            i + needle@.len() <= hay@.len(),
            k <= needle@.len(),
            forall|j: int| 0 <= j < k ==> hay@[i + j] == #[trigger] needle@[j],
        decreases needle.len() - k,
    {
        if hay[i + k] != needle[k] {
            assert(hay@.subrange(i as int, i + needle@.len())[k as int] != needle@[k as int]);
            return false;
        }
        k = k + 1;
    }
    assert(hay@.subrange(i as int, i + needle@.len()) =~= needle@);
    true
}

/// Whether the module at `path` is deferred: its path names the relocating module.
pub fn is_deferred_module(path: &[u8]) -> (r: bool)
    ensures
        r == exists|i: int| occurs_at(path@, deferred_module_name(), i),
{
    let needle: [u8; 15] = [104, 101, 116, 101, 114, 101, 120, 101, 99, 46, 104, 120, 101, 120, 116];
    assert(needle@ =~= deferred_module_name());
    if path.len() < 15 {
        return false;
    }
    let mut i: usize = 0;
    while i <= path.len() - 15
        invariant
            needle@ == deferred_module_name(),
            path@.len() >= 15,
            i <= path@.len() - 14,
            forall|j: int| 0 <= j < i ==> !occurs_at(path@, deferred_module_name(), j),
        decreases path.len() - i,
    {
        if matches_at(path, &needle, i) {
            return true;
        }
        i = i + 1;
    }
    assert forall|j: int| !occurs_at(path@, deferred_module_name(), j) by {
        if 0 <= j && j + 15 <= path@.len() {
            assert(j < i);
        }
    }
    false
}

/// What of a module's image goes into the page at `page` of a segment whose file data
/// starts at `virtual_start` and is `file_bytes` long, read from `file_offset` in the
/// image: the offset in the page, the offset in the image and the length. `None` when the
/// page holds none of the data, or when the image is too short for it.
pub fn module_page_copy(page: u64, virtual_start: u64, file_bytes: u64, file_offset: u64, image_len: usize) -> (r: Option<(usize, usize, usize)>)
    requires
        page + 4096 <= u64::MAX,
        virtual_start + file_bytes <= u64::MAX,
        file_offset + file_bytes <= usize::MAX,
    ensures
        match page_copy_window(page, virtual_start, file_bytes as int) {
            Some((d, s, l)) => if file_offset + s + l <= image_len {
                r == Some(((d as usize), ((file_offset + s) as usize), (l as usize)))
            } else {
                r is None
            },
            None => r is None,
        },
{
    let page_end = page + 4096;
    let file_end = virtual_start + file_bytes;
    let copy_start = if page > virtual_start { page } else { virtual_start };
    let copy_end = if page_end < file_end { page_end } else { file_end };
    if copy_start < copy_end {
        let dest_offset = (copy_start - page) as usize;
        let src_offset = file_offset as usize + (copy_start - virtual_start) as usize;
        let copy_len = (copy_end - copy_start) as usize;
        if src_offset + copy_len <= image_len {
            Some((dest_offset, src_offset, copy_len))
        } else {
            None
        }
    } else {
        None
    }
}

/// What `module_page_copy` gives for a page of a segment.
pub open spec fn module_copy_of(page: u64, virtual_start: u64, file_bytes: u64, file_offset: u64, image_len: usize) -> Option<(usize, usize, usize)> {
    match page_copy_window(page, virtual_start, file_bytes as int) {
        Some((d, s, l)) => if file_offset + s + l <= image_len {
            Some(((d as usize), ((file_offset + s) as usize), (l as usize)))
        } else {
            None
        },
        None => None,
    }
}

/// One page of a module segment: where it is mapped, the extra entry bits it is mapped
/// with, and what of the image is copied into its zeroed frame.
#[derive(Copy, Clone, Debug)]
pub struct ModulePageStep {
    pub page: u64,
    pub flags: u64,
    pub copy: Option<(usize, usize, usize)>,
}

/// The entry bits for a segment's pages: write-through for a writable one, none otherwise.
pub open spec fn module_flags(seg: VmMapPlanEntry) -> u64 {
    if seg.writable { FLAG_WRITE_THROUGH } else { 0 }
}

/// The number of pages from `map_start` up to `map_end`, one every 4 KiB.
pub open spec fn module_page_count(seg: VmMapPlanEntry) -> int {
    if seg.map_start < seg.map_end { (seg.map_end - seg.map_start + 4095) / 4096 } else { 0 }
}

/// The pages of one segment of a module with an image of `image_len` bytes, in order: one
/// every 4 KiB from `map_start` while below `map_end`. The caller allocates and zeroes a
/// frame for each, makes the copy and maps the page.
pub fn module_page_plan(seg: &VmMapPlanEntry, image_len: usize) -> (plan: Vec<ModulePageStep>)
    requires
        seg.map_end <= u64::MAX - 4096,
        seg.virtual_start + seg.file_bytes <= u64::MAX,
        seg.file_offset + seg.file_bytes <= usize::MAX,
    ensures
        plan@.len() == module_page_count(*seg),
        forall|i: int| 0 <= i < plan@.len() ==> #[trigger] plan@[i] == (ModulePageStep {
            page: (seg.map_start + 4096 * i) as u64,
            flags: module_flags(*seg),
            copy: module_copy_of(
                (seg.map_start + 4096 * i) as u64,
                seg.virtual_start,
                seg.file_bytes,
                seg.file_offset,
                image_len,
            ),
        }),
{
    let flags: u64 = if seg.writable { FLAG_WRITE_THROUGH } else { 0 };
    let mut plan: Vec<ModulePageStep> = Vec::new();
    let mut page = seg.map_start;
    while page < seg.map_end
        invariant
            seg.map_end <= u64::MAX - 4096,
            seg.virtual_start + seg.file_bytes <= u64::MAX,
            seg.file_offset + seg.file_bytes <= usize::MAX,
            flags == module_flags(*seg),
            page == seg.map_start + 4096 * plan@.len(),
            seg.map_start < seg.map_end ==> page <= seg.map_end + 4095,
            plan@.len() <= module_page_count(*seg),
            seg.map_start < seg.map_end ==> (page < seg.map_end <==> plan@.len() < module_page_count(*seg)),
            forall|i: int| 0 <= i < plan@.len() ==> #[trigger] plan@[i] == (ModulePageStep {
                page: (seg.map_start + 4096 * i) as u64,
                flags: module_flags(*seg),
                copy: module_copy_of(
                    (seg.map_start + 4096 * i) as u64,
                    seg.virtual_start,
                    seg.file_bytes,
                    seg.file_offset,
                    image_len,
                ),
            }),
        decreases seg.map_end + 4096 - page,
    {
        let copy = module_page_copy(page, seg.virtual_start, seg.file_bytes, seg.file_offset, image_len);
        plan.push(ModulePageStep { page, flags, copy });
        page = page + 4096;
    }
    plan
}

} // verus!
