//! Arming the first user process: the loader's plan for the init executable is checked
//! and relocated into user space, and its exits and restarts are tracked.
use vstd::prelude::*;
use crate::text::{dec_text, hex_text, push_dec, push_hex, push_str};

verus! {

pub const MAX_INIT_RESTARTS: u32 = 4;
pub const USER_SPACE_BASE: u64 = 0x40_0000;
pub const USER_SPACE_LIMIT: u64 = 0x8000_0000_0000;

/// The executable format the loader recognised.
#[derive(Copy, Clone, Debug, PartialEq, Eq, Structural)]
pub enum ExecutableFormat {
    Elf,
    Script,
    Unknown,
}

impl ExecutableFormat {
    /// The format's name in status text.
    pub fn as_str(self) -> (s: &'static str)
        ensures
            s@ == format_name(self),
    {
        match self {
            ExecutableFormat::Elf => "elf",
            ExecutableFormat::Script => "script",
            ExecutableFormat::Unknown => "unknown",
        }
    }
}

pub open spec fn format_name(f: ExecutableFormat) -> Seq<char> {
    match f {
        ExecutableFormat::Elf => "elf"@,
        ExecutableFormat::Script => "script"@,
        ExecutableFormat::Unknown => "unknown"@,
    }
}

/// Why the loader could not prepare the init executable, in its own words.
#[derive(Copy, Clone, Debug)]
pub struct ExecutableLoadPrepError {
    pub reason: &'static str,
}

impl ExecutableLoadPrepError {
    pub fn as_str(self) -> (s: &'static str)
        ensures
            s@ == self.reason@,
    {
        self.reason
    }
}

/// One loadable segment of the loader's plan.
#[derive(Copy, Clone, Debug, PartialEq, Eq, Structural)]
pub struct VmMapPlanEntry {
    pub index: usize,
    pub file_offset: u64,
    pub file_bytes: u64,
    pub memory_bytes: u64,
    pub virtual_start: u64,
    pub virtual_end: u64,
    pub map_start: u64,
    pub map_end: u64,
    pub readable: bool,
    pub writable: bool,
    pub executable: bool,
}

/// The loader's plan for an executable.
pub struct ExecutableLoadPrep {
    pub path: Vec<char>,
    pub format: ExecutableFormat,
    pub entry_point: Option<u64>,
    pub image_type: Option<u16>,
    pub machine: Option<u16>,
    pub vm_map_entries: Vec<VmMapPlanEntry>,
    pub vm_map_total_bytes: u64,
    pub vm_map_zero_fill_bytes: u64,
}

#[derive(Copy, Clone, Debug)]
pub enum InitExecActivateError {
    Load(ExecutableLoadPrepError),
    BytesUnavailable,
    UnsupportedFormat,
    MissingEntryPoint,
    MissingImageType,
    MissingMachine,
    NoLoadSegments,
    NoExecutableSegments,
    EntryOutsideExecutableSegments,
    InvalidSegmentMap,
}

/// The message of an activation error.
pub open spec fn activate_error_text(e: InitExecActivateError) -> Seq<char> {
    match e {
        InitExecActivateError::Load(l) => l.reason@,
        InitExecActivateError::BytesUnavailable => "init executable bytes not available"@,
        InitExecActivateError::UnsupportedFormat => "init executable format is not ELF"@,
        InitExecActivateError::MissingEntryPoint => "init executable has no entry point"@,
        InitExecActivateError::MissingImageType => "init executable is missing ELF image type"@,
        InitExecActivateError::MissingMachine => "init executable is missing ELF machine id"@,
        InitExecActivateError::NoLoadSegments => "init executable has no loadable segments"@,
        InitExecActivateError::NoExecutableSegments => "init executable has no executable load segment"@,
        InitExecActivateError::EntryOutsideExecutableSegments => "entry point is outside executable segments"@,
        InitExecActivateError::InvalidSegmentMap => "materialized segment map is invalid"@,
    }
}

impl InitExecActivateError {
    pub fn as_str(self) -> (s: &'static str)
        ensures
            s@ == activate_error_text(self),
            self matches InitExecActivateError::Load(e) ==> s@ == e.reason@,
            self == InitExecActivateError::BytesUnavailable ==> s@ == "init executable bytes not available"@,
            self == InitExecActivateError::UnsupportedFormat ==> s@ == "init executable format is not ELF"@,
            self == InitExecActivateError::MissingEntryPoint ==> s@ == "init executable has no entry point"@,
            self == InitExecActivateError::MissingImageType ==> s@ == "init executable is missing ELF image type"@,
            self == InitExecActivateError::MissingMachine ==> s@ == "init executable is missing ELF machine id"@,
            self == InitExecActivateError::NoLoadSegments ==> s@ == "init executable has no loadable segments"@,
            self == InitExecActivateError::NoExecutableSegments ==> s@
                == "init executable has no executable load segment"@,
            self == InitExecActivateError::EntryOutsideExecutableSegments ==> s@
                == "entry point is outside executable segments"@,
            self == InitExecActivateError::InvalidSegmentMap ==> s@ == "materialized segment map is invalid"@,
    {
        match self {
            InitExecActivateError::Load(error) => error.as_str(),
            InitExecActivateError::BytesUnavailable => "init executable bytes not available",
            InitExecActivateError::UnsupportedFormat => "init executable format is not ELF",
            InitExecActivateError::MissingEntryPoint => "init executable has no entry point",
            InitExecActivateError::MissingImageType => "init executable is missing ELF image type",
            InitExecActivateError::MissingMachine => "init executable is missing ELF machine id",
            InitExecActivateError::NoLoadSegments => "init executable has no loadable segments",
            InitExecActivateError::NoExecutableSegments => "init executable has no executable load segment",
            InitExecActivateError::EntryOutsideExecutableSegments => "entry point is outside executable segments",
            InitExecActivateError::InvalidSegmentMap => "materialized segment map is invalid",
        }
    }
}

/// A segment relocated into user space, with its file bytes.
pub struct ActivatedSegment {
    pub index: usize,
    pub virtual_start: u64,
    pub virtual_end: u64,
    pub map_start: u64,
    pub map_end: u64,
    pub file_bytes: u64,
    pub memory_bytes: u64,
    pub readable: bool,
    pub writable: bool,
    pub executable: bool,
    pub bytes: Vec<u8>,
}

/// A relocated segment as the contracts see it.
pub ghost struct SegmentView {
    pub index: usize,
    pub virtual_start: u64,
    pub virtual_end: u64,
    pub map_start: u64,
    pub map_end: u64,
    pub file_bytes: u64,
    pub memory_bytes: u64,
    pub readable: bool,
    pub writable: bool,
    pub executable: bool,
    pub bytes: Seq<u8>,
}

impl View for ActivatedSegment {
    type V = SegmentView;

    open spec fn view(&self) -> SegmentView {
        SegmentView {
            index: self.index,
            virtual_start: self.virtual_start,
            virtual_end: self.virtual_end,
            map_start: self.map_start,
            map_end: self.map_end,
            file_bytes: self.file_bytes,
            memory_bytes: self.memory_bytes,
            readable: self.readable,
            writable: self.writable,
            executable: self.executable,
            bytes: self.bytes@,
        }
    }
}

/// The armed init image.
pub struct ActivatedInitImage {
    pub path: Vec<char>,
    pub format: ExecutableFormat,
    pub image_type: u16,
    pub machine: u16,
    pub entry_point: u64,
    pub vm_start: u64,
    pub vm_end: u64,
    pub total_bytes: u64,
    pub zero_fill_bytes: u64,
    pub entry_segment_index: usize,
    pub entry_segment_map_offset: u64,
    pub segments: Vec<ActivatedSegment>,
}

pub open spec fn segments_view(s: Seq<ActivatedSegment>) -> Seq<SegmentView> {
    s.map_values(|x: ActivatedSegment| x@)
}

/// The lowest start and the highest end of the planned mappings.
pub open spec fn vm_bounds(es: Seq<VmMapPlanEntry>) -> (u64, u64)
    decreases es.len(),
{
    if es.len() == 0 {
        (u64::MAX, 0)
    } else {
        let (s, e) = vm_bounds(es.drop_last());
        let x = es.last();
        (if x.map_start < s { x.map_start } else { s }, if x.map_end > e { x.map_end } else { e })
    }
}

/// Where the image is placed in user space: where it was, when that is user space.
pub open spec fn load_base(start: u64) -> u64 {
    if start < USER_SPACE_LIMIT { start } else { USER_SPACE_BASE }
}

/// `base + (x - start)`, when neither step leaves `u64`.
pub open spec fn relocate(base: u64, x: u64, start: u64) -> Option<u64> {
    if x < start || base + (x - start) > u64::MAX {
        None
    } else {
        Some((base + (x - start)) as u64)
    }
}

/// The relocated segment for a plan entry, or `None` when its bytes or addresses do not fit.
pub open spec fn relocated_segment(e: VmMapPlanEntry, bytes: Seq<u8>, start: u64, base: u64) -> Option<SegmentView> {
    if e.file_offset > usize::MAX || e.file_bytes > usize::MAX || e.file_offset + e.file_bytes > bytes.len() {
        None
    } else {
        match (relocate(base, e.map_start, start), relocate(base, e.virtual_start, start), relocate(base, e.virtual_end, start)) {
            (Some(ms), Some(vs), Some(ve)) => if ms + (e.map_end - e.map_start) > u64::MAX {
                None
            } else {
                Some(
                    SegmentView {
                        index: e.index,
                        virtual_start: vs,
                        virtual_end: ve,
                        map_start: ms,
                        map_end: (ms + (e.map_end - e.map_start)) as u64,
                        file_bytes: e.file_bytes,
                        memory_bytes: e.memory_bytes,
                        readable: e.readable,
                        writable: e.writable,
                        executable: e.executable,
                        bytes: bytes.subrange(e.file_offset as int, e.file_offset + e.file_bytes),
                    },
                )
            },
            _ => None,
        }
    }
}

/// The walk over the plan entries: the relocated segments, whether one is executable, and
/// the executable segment holding the entry point with the entry's offset in its mapping.
pub ghost struct ActivationWalk {
    pub segments: Seq<SegmentView>,
    pub has_executable: bool,
    pub entry: Option<(usize, u64)>,
}

/// The walk over the first `n` entries, or the error that stops it.
pub open spec fn walk_entries(
    es: Seq<VmMapPlanEntry>,
    n: int,
    bytes: Seq<u8>,
    start: u64,
    base: u64,
    entry_point: u64,
) -> Result<ActivationWalk, InitExecActivateError>
    decreases n,
{
    if n <= 0 {
        Ok(ActivationWalk { segments: Seq::empty(), has_executable: false, entry: None })
    } else {
        match walk_entries(es, n - 1, bytes, start, base, entry_point) {
            Err(e) => Err(e),
            Ok(w) => {
                let e = es[n - 1];
                match relocated_segment(e, bytes, start, base) {
                    None => Err(InitExecActivateError::InvalidSegmentMap),
                    Some(sv) => if e.executable && e.virtual_start <= entry_point < e.virtual_end {
                        if entry_point < e.map_start {
                            Err(InitExecActivateError::InvalidSegmentMap)
                        } else {
                            Ok(
                                ActivationWalk {
                                    segments: w.segments.push(sv),
                                    has_executable: true,
                                    entry: Some((e.index, (entry_point - e.map_start) as u64)),
                                },
                            )
                        }
                    } else {
                        Ok(
                            ActivationWalk {
                                segments: w.segments.push(sv),
                                has_executable: w.has_executable || e.executable,
                                entry: w.entry,
                            },
                        )
                    },
                }
            },
        }
    }
}

/// Once the walk fails, it fails with the same error over every longer prefix.
proof fn lemma_walk_err(es: Seq<VmMapPlanEntry>, k: int, n: int, bytes: Seq<u8>, start: u64, base: u64, ep: u64)
    requires
        0 <= k <= n,
        walk_entries(es, k, bytes, start, base, ep) is Err,
    ensures
        walk_entries(es, n, bytes, start, base, ep) == walk_entries(es, k, bytes, start, base, ep),
    decreases n - k,
{
    if k < n {
        lemma_walk_err(es, k, n - 1, bytes, start, base, ep);
    }
}

proof fn lemma_walk_facts(es: Seq<VmMapPlanEntry>, n: int, bytes: Seq<u8>, start: u64, base: u64, ep: u64)
    requires
        0 <= n <= es.len(),
    ensures
        walk_entries(es, n, bytes, start, base, ep) matches Ok(w) ==> {
            &&& w.segments.len() == n
            &&& forall|i: int| 0 <= i < n ==> relocated_segment(#[trigger] es[i], bytes, start, base) == Some(
                w.segments[i],
            )
            &&& w.has_executable == exists|i: int| 0 <= i < n && (#[trigger] es[i]).executable
        },
        walk_entries(es, n, bytes, start, base, ep) is Err ==> walk_entries(es, n, bytes, start, base, ep) == Err::<
            ActivationWalk,
            InitExecActivateError,
        >(InitExecActivateError::InvalidSegmentMap),
        (exists|i: int| 0 <= i < n && relocated_segment(#[trigger] es[i], bytes, start, base) is None)
            ==> walk_entries(es, n, bytes, start, base, ep) is Err,
    decreases n,
{
    if n > 0 {
        lemma_walk_facts(es, n - 1, bytes, start, base, ep);
        if let Ok(w) = walk_entries(es, n, bytes, start, base, ep) {
            let w0 = walk_entries(es, n - 1, bytes, start, base, ep)->Ok_0;
            assert forall|i: int| 0 <= i < n implies relocated_segment(#[trigger] es[i], bytes, start, base) == Some(
                w.segments[i],
            ) by {
                if i < n - 1 {
                    assert(w.segments[i] == w0.segments[i]);
                }
            }
            if w.has_executable {
                if !es[n - 1].executable {
                    let j = choose|j: int| 0 <= j < n - 1 && (#[trigger] es[j]).executable;
                    assert(0 <= j < n && es[j].executable);
                }
            } else {
                assert forall|i: int| 0 <= i < n implies !(#[trigger] es[i]).executable by {
                    if i < n - 1 {
                    }
                }
            }
        }
        if exists|i: int| 0 <= i < n && relocated_segment(#[trigger] es[i], bytes, start, base) is None {
            let i = choose|i: int| 0 <= i < n && relocated_segment(#[trigger] es[i], bytes, start, base) is None;
            if i < n - 1 {
                assert(walk_entries(es, n - 1, bytes, start, base, ep) is Err);
            }
        }
    }
}

/// Arming places each segment at the load base plus its distance from the lowest mapping,
/// in the plan's order, with its own file bytes and permissions: segment `i` of the armed
/// image is plan entry `i` relocated.
pub proof fn lemma_activation_segments(prep: ExecutableLoadPrep, bytes: Seq<u8>)
    requires
        activation_outcome(prep, bytes) is Ok,
        forall|i: int| 0 <= i < prep.vm_map_entries@.len() ==> (#[trigger] prep.vm_map_entries@[i]).map_start
            <= prep.vm_map_entries@[i].map_end,
    ensures
        ({
            let es = prep.vm_map_entries@;
            let (start, end) = vm_bounds(es);
            let base = load_base(start);
            let w = activation_outcome(prep, bytes)->Ok_0.3;
            &&& activation_outcome(prep, bytes)->Ok_0.1 == base
            &&& w.segments.len() == es.len()
            &&& forall|i: int| #![trigger es[i]] 0 <= i < es.len() ==> {
                let e = es[i];
                let g = w.segments[i];
                &&& g.index == e.index
                &&& g.map_start == base + (e.map_start - start)
                &&& g.map_end == base + (e.map_start - start) + (e.map_end - e.map_start)
                &&& g.virtual_start == base + (e.virtual_start - start)
                &&& g.virtual_end == base + (e.virtual_end - start)
                &&& g.bytes == bytes.subrange(e.file_offset as int, e.file_offset + e.file_bytes)
                &&& g.readable == e.readable && g.writable == e.writable && g.executable == e.executable
            }
        }),
{
    let es = prep.vm_map_entries@;
    let (start, end) = vm_bounds(es);
    let base = load_base(start);
    lemma_walk_facts(es, es.len() as int, bytes, start, base, prep.entry_point->0);
}

/// Once the plan names an ELF image with entry point, image type, machine and at least one
/// segment, a segment whose file bytes run past the executable's bytes makes arming fail
/// with `InvalidSegmentMap`; and when every segment fits but none is executable, arming
/// fails with `NoExecutableSegments`.
pub proof fn lemma_activation_errors(prep: ExecutableLoadPrep, bytes: Seq<u8>)
    requires
        prep.format == ExecutableFormat::Elf,
        prep.entry_point is Some,
        prep.image_type is Some,
        prep.machine is Some,
        prep.vm_map_entries@.len() > 0,
    ensures
        (exists|i: int| 0 <= i < prep.vm_map_entries@.len() && (#[trigger] prep.vm_map_entries@[i]).file_offset
            + prep.vm_map_entries@[i].file_bytes > bytes.len()) ==> activation_outcome(prep, bytes) == Err::<
            (u64, u64, u64, ActivationWalk),
            InitExecActivateError,
        >(InitExecActivateError::InvalidSegmentMap),
        (forall|i: int| 0 <= i < prep.vm_map_entries@.len() ==> !(#[trigger] prep.vm_map_entries@[i]).executable)
            && activation_outcome(prep, bytes) != Err::<(u64, u64, u64, ActivationWalk), InitExecActivateError>(
            InitExecActivateError::InvalidSegmentMap,
        ) ==> activation_outcome(prep, bytes) == Err::<(u64, u64, u64, ActivationWalk), InitExecActivateError>(
            InitExecActivateError::NoExecutableSegments,
        ),
{
    let es = prep.vm_map_entries@;
    let (start, end) = vm_bounds(es);
    let base = load_base(start);
    let ep = prep.entry_point->0;
    lemma_walk_facts(es, es.len() as int, bytes, start, base, ep);
    if exists|i: int| 0 <= i < es.len() && (#[trigger] es[i]).file_offset + es[i].file_bytes > bytes.len() {
        let i = choose|i: int| 0 <= i < es.len() && (#[trigger] es[i]).file_offset + es[i].file_bytes > bytes.len();
        assert(relocated_segment(es[i], bytes, start, base) is None);
    }
}

/// What arming the plan gives, field by field, or the error.
pub open spec fn activation_outcome(prep: ExecutableLoadPrep, bytes: Seq<u8>) -> Result<
    (u64, u64, u64, ActivationWalk),
    InitExecActivateError,
> {
    let es = prep.vm_map_entries@;
    if prep.format != ExecutableFormat::Elf {
        Err(InitExecActivateError::UnsupportedFormat)
    } else if prep.entry_point is None {
        Err(InitExecActivateError::MissingEntryPoint)
    } else if prep.image_type is None {
        Err(InitExecActivateError::MissingImageType)
    } else if prep.machine is None {
        Err(InitExecActivateError::MissingMachine)
    } else if es.len() == 0 {
        Err(InitExecActivateError::NoLoadSegments)
    } else {
        let (start, end) = vm_bounds(es);
        let base = load_base(start);
        let ep = prep.entry_point->0;
        match walk_entries(es, es.len() as int, bytes, start, base, ep) {
            Err(e) => Err(e),
            Ok(w) => if !w.has_executable {
                Err(InitExecActivateError::NoExecutableSegments)
            } else if w.entry is None {
                Err(InitExecActivateError::EntryOutsideExecutableSegments)
            } else {
                match relocate(base, ep, start) {
                    None => Err(InitExecActivateError::InvalidSegmentMap),
                    Some(user_entry) => if end < start || base + (end - start) > u64::MAX {
                        Err(InitExecActivateError::InvalidSegmentMap)
                    } else {
                        Ok((user_entry, base, (base + (end - start)) as u64, w))
                    },
                }
            },
        }
    }
}

/// Whether `a` is the image that arming `prep` with `bytes` gives.
pub open spec fn activation_matches(prep: ExecutableLoadPrep, bytes: Seq<u8>, a: ActivatedInitImage) -> bool {
    &&& activation_outcome(prep, bytes) matches Ok((user_entry, base, vm_end, w))
    &&& a.path@ == prep.path@
    &&& a.format == prep.format
    &&& a.image_type == prep.image_type->0
    &&& a.machine == prep.machine->0
    &&& a.entry_point == user_entry
    &&& a.vm_start == base
    &&& a.vm_end == vm_end
    &&& a.total_bytes == prep.vm_map_total_bytes
    &&& a.zero_fill_bytes == prep.vm_map_zero_fill_bytes
    &&& a.entry_segment_index == (w.entry->0).0
    &&& a.entry_segment_map_offset == (w.entry->0).1
    &&& segments_view(a.segments@) == w.segments
}

/// Checks the loader's plan for the init executable against its bytes and relocates its
/// segments into user space.
pub fn build_activation(image: ExecutableLoadPrep, bytes: &[u8]) -> (r: Result<ActivatedInitImage, InitExecActivateError>)
    requires
        forall|i: int| 0 <= i < image.vm_map_entries@.len() ==> (#[trigger] image.vm_map_entries@[i]).map_start
            <= image.vm_map_entries@[i].map_end,
        forall|i: int| 0 <= i < image.vm_map_entries@.len() ==> (#[trigger] image.vm_map_entries@[i]).file_offset
            + image.vm_map_entries@[i].file_bytes <= usize::MAX,
    ensures
        match activation_outcome(image, bytes@) {
            Ok(_) => r matches Ok(a) && activation_matches(image, bytes@, a),
            Err(e) => r matches Err(e2) && e2 == e,
        },
{
    let ghost img = image;
    if image.format != ExecutableFormat::Elf {
        return Err(InitExecActivateError::UnsupportedFormat);
    }
    let entry_point = match image.entry_point {
        Some(e) => e,
        None => return Err(InitExecActivateError::MissingEntryPoint),
    };
    let image_type = match image.image_type {
        Some(t) => t,
        None => return Err(InitExecActivateError::MissingImageType),
    };
    let machine = match image.machine {
        Some(m) => m,
        None => return Err(InitExecActivateError::MissingMachine),
    };
    if image.vm_map_entries.len() == 0 {
        return Err(InitExecActivateError::NoLoadSegments);
    }
    let es = &image.vm_map_entries;
    let mut orig_vm_start: u64 = u64::MAX;
    let mut orig_vm_end: u64 = 0;
    let mut k: usize = 0;
    while k < es.len()
        invariant
            k <= es@.len(),
            (orig_vm_start, orig_vm_end) == vm_bounds(es@.subrange(0, k as int)),
        decreases es@.len() - k,
    {
        assert(es@.subrange(0, k + 1).drop_last() =~= es@.subrange(0, k as int));
        if es[k].map_start < orig_vm_start {
            orig_vm_start = es[k].map_start;
        }
        if es[k].map_end > orig_vm_end {
            orig_vm_end = es[k].map_end;
        }
        k = k + 1;
    }
    assert(es@.subrange(0, es@.len() as int) =~= es@);
    let user_load_base = if orig_vm_start < USER_SPACE_LIMIT {
        orig_vm_start
    } else {
        USER_SPACE_BASE
    };

    let mut has_executable_segment = false;
    let mut entry_segment: Option<(usize, u64)> = None;
    let mut segments: Vec<ActivatedSegment> = Vec::new();
    let mut i: usize = 0;
    assert(segments_view(segments@) =~= Seq::<SegmentView>::empty());
    while i < es.len()
        invariant
            i <= es@.len(),
            es@ == img.vm_map_entries@,
            es@.len() > 0,
            img == image,
            img.format == ExecutableFormat::Elf,
            img.entry_point == Some(entry_point),
            img.image_type is Some,
            img.machine is Some,
            (orig_vm_start, orig_vm_end) == vm_bounds(es@),
            user_load_base == load_base(orig_vm_start),
            forall|j: int| 0 <= j < es@.len() ==> (#[trigger] es@[j]).map_start <= es@[j].map_end,
            forall|j: int| 0 <= j < es@.len() ==> (#[trigger] es@[j]).file_offset + es@[j].file_bytes <= usize::MAX,
            walk_entries(es@, i as int, bytes@, orig_vm_start, user_load_base, entry_point) == Ok::<
                ActivationWalk,
                InitExecActivateError,
            >(
                ActivationWalk {
                    segments: segments_view(segments@),
                    has_executable: has_executable_segment,
                    entry: entry_segment,
                },
            ),
        decreases es@.len() - i,
    {
        let e = es[i];
        if e.file_offset > usize::MAX as u64 || e.file_bytes > usize::MAX as u64 {
            proof {
                lemma_walk_err(es@, i + 1, es@.len() as int, bytes@, orig_vm_start, user_load_base, entry_point);
            }
            return Err(InitExecActivateError::InvalidSegmentMap);
        }
        let file_offset = e.file_offset as usize;
        let file_len = e.file_bytes as usize;
        if file_offset + file_len > bytes.len() {
            proof {
                lemma_walk_err(es@, i + 1, es@.len() as int, bytes@, orig_vm_start, user_load_base, entry_point);
            }
            return Err(InitExecActivateError::InvalidSegmentMap);
        }
        if e.map_start < orig_vm_start || e.virtual_start < orig_vm_start || e.virtual_end < orig_vm_start {
            proof {
                lemma_walk_err(es@, i + 1, es@.len() as int, bytes@, orig_vm_start, user_load_base, entry_point);
            }
            return Err(InitExecActivateError::InvalidSegmentMap);
        }
        let user_map_start = match user_load_base.checked_add(e.map_start - orig_vm_start) {
            Some(v) => v,
            None => return Err(InitExecActivateError::InvalidSegmentMap),
        };
        let user_map_end = match user_map_start.checked_add(e.map_end - e.map_start) {
            Some(v) => v,
            None => return Err(InitExecActivateError::InvalidSegmentMap),
        };
        let user_virtual_start = match user_load_base.checked_add(e.virtual_start - orig_vm_start) {
            Some(v) => v,
            None => return Err(InitExecActivateError::InvalidSegmentMap),
        };
        let user_virtual_end = match user_load_base.checked_add(e.virtual_end - orig_vm_start) {
            Some(v) => v,
            None => return Err(InitExecActivateError::InvalidSegmentMap),
        };
        if e.executable {
            has_executable_segment = true;
            if entry_point >= e.virtual_start && entry_point < e.virtual_end {
                if entry_point < e.map_start {
                    proof {
                        lemma_walk_err(es@, i + 1, es@.len() as int, bytes@, orig_vm_start, user_load_base, entry_point);
                    }
                    return Err(InitExecActivateError::InvalidSegmentMap);
                }
                entry_segment = Some((e.index, entry_point - e.map_start));
            }
        }
        let ghost before = segments_view(segments@);
        let mut segment_bytes: Vec<u8> = Vec::new();
        crate::fat::append_bytes(&mut segment_bytes, &bytes[file_offset..file_offset + file_len]);
        segments.push(
            ActivatedSegment {
                index: e.index,
                virtual_start: user_virtual_start,
                virtual_end: user_virtual_end,
                map_start: user_map_start,
                map_end: user_map_end,
                file_bytes: e.file_bytes,
                memory_bytes: e.memory_bytes,
                readable: e.readable,
                writable: e.writable,
                executable: e.executable,
                bytes: segment_bytes,
            },
        );
        proof {
            assert(segment_bytes@ =~= bytes@.subrange(e.file_offset as int, e.file_offset + e.file_bytes));
            assert(segments_view(segments@) =~= before.push(segments@.last()@));
            assert(relocated_segment(e, bytes@, orig_vm_start, user_load_base) == Some(segments@.last()@));
        }
        i = i + 1;
    }
    if !has_executable_segment {
        return Err(InitExecActivateError::NoExecutableSegments);
    }
    let (entry_segment_index, entry_segment_map_offset) = match entry_segment {
        Some(x) => x,
        None => return Err(InitExecActivateError::EntryOutsideExecutableSegments),
    };
    if entry_point < orig_vm_start {
        return Err(InitExecActivateError::InvalidSegmentMap);
    }
    let user_entry = match user_load_base.checked_add(entry_point - orig_vm_start) {
        Some(v) => v,
        None => return Err(InitExecActivateError::InvalidSegmentMap),
    };
    if orig_vm_end < orig_vm_start {
        return Err(InitExecActivateError::InvalidSegmentMap);
    }
    let user_vm_end = match user_load_base.checked_add(orig_vm_end - orig_vm_start) {
        Some(v) => v,
        None => return Err(InitExecActivateError::InvalidSegmentMap),
    };
    Ok(
        ActivatedInitImage {
            path: image.path,
            format: image.format,
            image_type,
            machine,
            entry_point: user_entry,
            vm_start: user_load_base,
            vm_end: user_vm_end,
            total_bytes: image.vm_map_total_bytes,
            zero_fill_bytes: image.vm_map_zero_fill_bytes,
            entry_segment_index,
            entry_segment_map_offset,
            segments,
        },
    )
}

#[derive(Copy, Clone, Debug)]
pub struct InitExecSummary {
    pub armed: bool,
    pub format: ExecutableFormat,
    pub image_type: u16,
    pub machine: u16,
    pub entry_point: u64,
    pub segment_count: usize,
    pub total_bytes: u64,
    pub zero_fill_bytes: u64,
    pub vm_start: u64,
    pub vm_end: u64,
    pub entry_segment_index: usize,
    pub entry_segment_map_offset: u64,
}

/// The summary of an armed image.
pub open spec fn summary_of(a: ActivatedInitImage, s: InitExecSummary) -> bool {
    &&& s.armed
    &&& s.format == a.format
    &&& s.image_type == a.image_type
    &&& s.machine == a.machine
    &&& s.entry_point == a.entry_point
    &&& s.segment_count == a.segments@.len()
    &&& s.total_bytes == a.total_bytes
    &&& s.zero_fill_bytes == a.zero_fill_bytes
    &&& s.vm_start == a.vm_start
    &&& s.vm_end == a.vm_end
    &&& s.entry_segment_index == a.entry_segment_index
    &&& s.entry_segment_map_offset == a.entry_segment_map_offset
}

pub fn activation_summary(activation: &ActivatedInitImage) -> (s: InitExecSummary)
    ensures
        summary_of(*activation, s),
{
    InitExecSummary {
        armed: true,
        format: activation.format,
        image_type: activation.image_type,
        machine: activation.machine,
        entry_point: activation.entry_point,
        segment_count: activation.segments.len(),
        total_bytes: activation.total_bytes,
        zero_fill_bytes: activation.zero_fill_bytes,
        vm_start: activation.vm_start,
        vm_end: activation.vm_end,
        entry_segment_index: activation.entry_segment_index,
        entry_segment_map_offset: activation.entry_segment_map_offset,
    }
}

pub fn yes_no(value: bool) -> (s: &'static str)
    ensures
        value ==> s@ == "yes"@,
        !value ==> s@ == "no"@,
{
    if value {
        "yes"
    } else {
        "no"
    }
}

#[derive(Copy, Clone, Debug)]
pub struct SpawnedInitProcess {
    pub thread_id: u64,
    pub process_id: u64,
    pub restart_count: u32,
}

#[derive(Copy, Clone, Debug)]
pub struct InitExitDisposition {
    pub process_id: u64,
    pub thread_id: u64,
    pub exit_status: i32,
    pub restart_scheduled: bool,
    pub next_restart_attempt: u32,
    pub restart_limit: u32,
}

#[derive(Copy, Clone, Debug)]
pub struct RestartedInitProcess {
    pub thread_id: u64,
    pub process_id: u64,
    pub restart_count: u32,
    pub last_exit_status: i32,
}

/// The init process's lifecycle: the armed image, the running process, and restarts.
pub struct InitExecState {
    pub activation: Option<ActivatedInitImage>,
    pub last_error: Option<InitExecActivateError>,
    pub current_process_id: u64,
    pub current_thread_id: u64,
    pub restart_pending: bool,
    pub restart_count: u32,
    pub last_exit_status: Option<i32>,
}

impl InitExecState {
    /// At most `MAX_INIT_RESTARTS` restarts are made between two activations: the count
    /// stays within the limit, and a restart is pending only while it is below it.
    pub open spec fn restarts_bounded(&self) -> bool {
        &&& self.restart_count <= MAX_INIT_RESTARTS
        &&& self.restart_pending ==> self.restart_count < MAX_INIT_RESTARTS
    }

    pub fn new() -> (s: Self)
        ensures
            s.activation is None,
            s.last_error is None,
            s.current_process_id == 0,
            s.current_thread_id == 0,
            !s.restart_pending,
            s.restart_count == 0,
            s.last_exit_status is None,
            s.restarts_bounded(),
    {
        InitExecState {
            activation: None,
            last_error: None,
            current_process_id: 0,
            current_thread_id: 0,
            restart_pending: false,
            restart_count: 0,
            last_exit_status: None,
        }
    }

    /// Arms the init image from the loader's plan and the executable's bytes; either way
    /// the process and restart bookkeeping starts over.
    pub fn activate_init_handoff(
        &mut self,
        prep: Result<ExecutableLoadPrep, ExecutableLoadPrepError>,
        bytes: Option<Vec<u8>>,
    ) -> (r: Result<InitExecSummary, InitExecActivateError>)
        requires
            prep matches Ok(image) ==> forall|i: int| 0 <= i < image.vm_map_entries@.len() ==> (
            #[trigger] image.vm_map_entries@[i]).map_start <= image.vm_map_entries@[i].map_end
                && image.vm_map_entries@[i].file_offset + image.vm_map_entries@[i].file_bytes <= usize::MAX,
        ensures
            final(self).current_process_id == 0,
            final(self).current_thread_id == 0,
            !final(self).restart_pending,
            final(self).restart_count == 0,
            final(self).last_exit_status is None,
            final(self).restarts_bounded(),
            match prep {
                Err(e) => r matches Err(InitExecActivateError::Load(e2)) && e2 == e,
                Ok(image) => match bytes {
                    None => r matches Err(InitExecActivateError::BytesUnavailable),
                    Some(b) => match activation_outcome(image, b@) {
                        Ok(_) => final(self).activation matches Some(a) && (activation_matches(image, b@, a)
                            && final(self).last_error is None && (r matches Ok(s) && summary_of(a, s))),
                        Err(e) => r matches Err(e2) && e2 == e,
                    },
                },
            },
            r matches Err(e) ==> final(self).activation is None && final(self).last_error == Some(e),
    {
        let result = match prep {
            Err(e) => Err(InitExecActivateError::Load(e)),
            Ok(image) => match bytes {
                None => Err(InitExecActivateError::BytesUnavailable),
                Some(b) => build_activation(image, b.as_slice()),
            },
        };
        self.current_process_id = 0;
        self.current_thread_id = 0;
        self.restart_pending = false;
        self.restart_count = 0;
        self.last_exit_status = None;
        match result {
            Ok(activation) => {
                let summary = activation_summary(&activation);
                self.activation = Some(activation);
                self.last_error = None;
                Ok(summary)
            },
            Err(error) => {
                self.activation = None;
                self.last_error = Some(error);
                Err(error)
            },
        }
    }

    /// Checks that an image is armed before the process is created.
    pub fn spawn_entry_point(&self) -> (r: Result<u64, InitExecActivateError>)
        ensures
            self.activation matches Some(a) ==> r == Ok::<u64, InitExecActivateError>(a.entry_point),
            self.activation is None ==> r matches Err(InitExecActivateError::BytesUnavailable),
    {
        match &self.activation {
            Some(a) => Ok(a.entry_point),
            None => Err(InitExecActivateError::BytesUnavailable),
        }
    }

    /// Records the process created for the armed image.
    pub fn record_spawned(&mut self, thread_id: u64, process_id: u64) -> (s: SpawnedInitProcess)
        ensures
            final(self).current_process_id == process_id,
            final(self).current_thread_id == thread_id,
            !final(self).restart_pending,
            final(self).restart_count == old(self).restart_count,
            final(self).last_exit_status == old(self).last_exit_status,
            s.thread_id == thread_id && s.process_id == process_id && s.restart_count == old(self).restart_count,
            final(self).activation == old(self).activation && final(self).last_error == old(self).last_error,
            old(self).restarts_bounded() ==> final(self).restarts_bounded(),
    {
        self.current_process_id = process_id;
        self.current_thread_id = thread_id;
        self.restart_pending = false;
        SpawnedInitProcess { thread_id, process_id, restart_count: self.restart_count }
    }

    /// Notes that a process exited; when it is the init process a restart is scheduled
    /// while fewer than the limit have been made.
    pub fn note_init_exit(&mut self, process_id: u64, thread_id: u64, exit_status: i32) -> (r: Option<InitExitDisposition>)
        ensures
            old(self).current_process_id == 0 || old(self).current_process_id != process_id ==> r is None
                && *final(self) == *old(self),
            final(self).activation == old(self).activation && final(self).last_error == old(self).last_error,
            old(self).restarts_bounded() ==> final(self).restarts_bounded(),
            old(self).current_process_id != 0 && old(self).current_process_id == process_id ==> {
                &&& final(self).current_process_id == 0
                &&& final(self).current_thread_id == 0
                &&& final(self).last_exit_status == Some(exit_status)
                &&& final(self).restart_pending == (old(self).restart_count < MAX_INIT_RESTARTS)
                &&& r matches Some(d) && d.process_id == process_id && d.thread_id == thread_id
                    && d.exit_status == exit_status && d.restart_scheduled == (old(self).restart_count
                    < MAX_INIT_RESTARTS) && d.next_restart_attempt == (if old(self).restart_count == u32::MAX {
                    u32::MAX
                } else {
                    (old(self).restart_count + 1) as u32
                }) && d.restart_limit == MAX_INIT_RESTARTS
            },
            final(self).restart_count == old(self).restart_count,
    {
        if self.current_process_id == 0 || self.current_process_id != process_id {
            return None;
        }
        self.current_process_id = 0;
        self.current_thread_id = 0;
        self.last_exit_status = Some(exit_status);
        self.restart_pending = self.restart_count < MAX_INIT_RESTARTS;
        Some(
            InitExitDisposition {
                process_id,
                thread_id,
                exit_status,
                restart_scheduled: self.restart_pending,
                next_restart_attempt: self.restart_count.saturating_add(1),
                restart_limit: MAX_INIT_RESTARTS,
            },
        )
    }

    /// Takes a pending restart: counts it and gives the last exit status (0 when none was
    /// noted); `None` when no restart is pending.
    pub fn begin_pending_restart(&mut self) -> (r: Option<i32>)
        ensures
            !old(self).restart_pending ==> r is None && final(self).restart_count == old(self).restart_count,
            old(self).restart_pending ==> r == Some(
                match old(self).last_exit_status {
                    Some(v) => v,
                    None => 0i32,
                },
            ) && final(self).restart_count == (if old(self).restart_count == u32::MAX {
                u32::MAX
            } else {
                (old(self).restart_count + 1) as u32
            }),
            !old(self).restart_pending ==> *final(self) == *old(self),
            !final(self).restart_pending,
            final(self).current_process_id == old(self).current_process_id,
            final(self).current_thread_id == old(self).current_thread_id,
            final(self).last_exit_status == old(self).last_exit_status,
            final(self).activation == old(self).activation && final(self).last_error == old(self).last_error,
            old(self).restarts_bounded() ==> final(self).restarts_bounded() && (old(self).restart_pending
                ==> final(self).restart_count == old(self).restart_count + 1),
    {
        if !self.restart_pending {
            return None;
        }
        self.restart_pending = false;
        self.restart_count = self.restart_count.saturating_add(1);
        Some(
            match self.last_exit_status {
                Some(v) => v,
                None => 0,
            },
        )
    }
}

/// A permission letter, or `-`.
pub open spec fn perm_char(on: bool, c: char) -> char {
    if on { c } else { '-' }
}

/// The status line of the first segment.
pub open spec fn segment0_text(g: SegmentView) -> Seq<char> {
    ("segment0 idx="@ + dec_text(g.index as nat) + " vaddr="@ + seq!['0', 'x'] + hex_text(g.virtual_start as nat, 16)
        + ".."@ + seq!['0', 'x'] + hex_text(g.virtual_end as nat, 16) + " map="@ + seq!['0', 'x'] + hex_text(
        g.map_start as nat,
        16,
    ) + ".."@ + seq!['0', 'x'] + hex_text(g.map_end as nat, 16) + " file="@ + dec_text(g.file_bytes as nat)
        + " mem="@ + dec_text(g.memory_bytes as nat) + " perms="@).push(perm_char(g.readable, 'r')).push(
        perm_char(g.writable, 'w'),
    ).push(perm_char(g.executable, 'x')) + " bytes="@ + dec_text(g.bytes.len()) + "\n"@
}

/// The status lines of an armed image before the segment line.
pub open spec fn armed_head_text(a: ActivatedInitImage) -> Seq<char> {
    "armed yes\npath "@ + a.path@ + "\nformat "@ + format_name(a.format) + "\nmachine "@ + seq!['0', 'x'] + hex_text(
        a.machine as nat,
        4,
    ) + "\nimage_type "@ + seq!['0', 'x'] + hex_text(a.image_type as nat, 4) + "\nentry_point "@ + seq!['0', 'x']
        + hex_text(a.entry_point as nat, 16) + "\nvm_range "@ + seq!['0', 'x'] + hex_text(a.vm_start as nat, 16)
        + ".."@ + seq!['0', 'x'] + hex_text(a.vm_end as nat, 16) + "\nsegments "@ + dec_text(a.segments@.len())
        + "\nbytes "@ + dec_text(a.total_bytes as nat) + "\nzero_fill "@ + dec_text(a.zero_fill_bytes as nat)
        + "\nentry_segment "@ + dec_text(a.entry_segment_index as nat) + "\nentry_offset "@ + dec_text(
        a.entry_segment_map_offset as nat,
    ) + "\n"@
}

/// The status lines of an armed image: the head, then the first segment's line if any.
pub open spec fn armed_text(a: ActivatedInitImage) -> Seq<char> {
    armed_head_text(a) + if a.segments@.len() > 0 {
        segment0_text(a.segments@[0]@)
    } else {
        Seq::empty()
    }
}

fn segment0_status(g: &ActivatedSegment) -> (text: Vec<char>)
    ensures
        text@ == segment0_text(g@),
{
    let mut text: Vec<char> = Vec::new();
    push_str(&mut text, "segment0 idx=");
    assert(text@ =~= "segment0 idx="@);
    push_dec(&mut text, g.index as u64);
    push_str(&mut text, " vaddr=");
    push_hex(&mut text, g.virtual_start, 16);
    push_str(&mut text, "..");
    push_hex(&mut text, g.virtual_end, 16);
    push_str(&mut text, " map=");
    push_hex(&mut text, g.map_start, 16);
    push_str(&mut text, "..");
    push_hex(&mut text, g.map_end, 16);
    push_str(&mut text, " file=");
    push_dec(&mut text, g.file_bytes);
    push_str(&mut text, " mem=");
    push_dec(&mut text, g.memory_bytes);
    push_str(&mut text, " perms=");
    text.push(if g.readable { 'r' } else { '-' });
    text.push(if g.writable { 'w' } else { '-' });
    text.push(if g.executable { 'x' } else { '-' });
    push_str(&mut text, " bytes=");
    push_dec(&mut text, g.bytes.len() as u64);
    push_str(&mut text, "\n");
    text
}

fn armed_head_status(a: &ActivatedInitImage) -> (text: Vec<char>)
    ensures
        text@ == armed_head_text(*a),
{
    let mut text: Vec<char> = Vec::new();
    push_str(&mut text, "armed yes\npath ");
    let ghost start = text@;
    let mut i: usize = 0;
    while i < a.path.len()
        invariant
            i <= a.path@.len(),
            text@ == start + a.path@.subrange(0, i as int),
        decreases a.path@.len() - i,
    {
        text.push(a.path[i]);
        i = i + 1;
        assert(text@ =~= start + a.path@.subrange(0, i as int));
    }
    assert(text@ =~= "armed yes\npath "@ + a.path@);
    push_str(&mut text, "\nformat ");
    push_str(&mut text, a.format.as_str());
    push_str(&mut text, "\nmachine ");
    push_hex(&mut text, a.machine as u64, 4);
    push_str(&mut text, "\nimage_type ");
    push_hex(&mut text, a.image_type as u64, 4);
    push_str(&mut text, "\nentry_point ");
    push_hex(&mut text, a.entry_point, 16);
    push_str(&mut text, "\nvm_range ");
    push_hex(&mut text, a.vm_start, 16);
    push_str(&mut text, "..");
    push_hex(&mut text, a.vm_end, 16);
    push_str(&mut text, "\nsegments ");
    push_dec(&mut text, a.segments.len() as u64);
    push_str(&mut text, "\nbytes ");
    push_dec(&mut text, a.total_bytes);
    push_str(&mut text, "\nzero_fill ");
    push_dec(&mut text, a.zero_fill_bytes);
    push_str(&mut text, "\nentry_segment ");
    push_dec(&mut text, a.entry_segment_index as u64);
    push_str(&mut text, "\nentry_offset ");
    push_dec(&mut text, a.entry_segment_map_offset);
    push_str(&mut text, "\n");
    text
}

/// The status of the init hand-off: the armed image, or `armed no`, then the last error.
pub open spec fn status_text(s: InitExecState) -> Seq<char> {
    (match s.activation {
        Some(a) => armed_text(a),
        None => "armed no\n"@,
    }) + "last_error "@ + (match s.last_error {
        Some(e) => activate_error_text(e),
        None => "<none>"@,
    }) + "\n"@
}

impl InitExecState {
    /// The status text of the init hand-off.
    pub fn render_status(&self) -> (text: Vec<char>)
        ensures
            text@ == status_text(*self),
    {
        let mut text: Vec<char> = Vec::new();
        match &self.activation {
            Some(a) => {
                text = armed_head_status(a);
                if a.segments.len() > 0 {
                    let mut seg = segment0_status(&a.segments[0]);
                    text.append(&mut seg);
                } else {
                    assert(text@ =~= armed_text(*a));
                }
            },
            None => {
                push_str(&mut text, "armed no\n");
                assert(text@ =~= "armed no\n"@);
            },
        }
        push_str(&mut text, "last_error ");
        match self.last_error {
            Some(e) => push_str(&mut text, e.as_str()),
            None => push_str(&mut text, "<none>"),
        }
        push_str(&mut text, "\n");
        text
    }
}

/// The restarted process report for a spawn after a restart.
pub fn restarted_process(spawned: SpawnedInitProcess, last_exit_status: i32) -> (r: RestartedInitProcess)
    ensures
        r.thread_id == spawned.thread_id,
        r.process_id == spawned.process_id,
        r.restart_count == spawned.restart_count,
        r.last_exit_status == last_exit_status,
{
    RestartedInitProcess {
        thread_id: spawned.thread_id,
        process_id: spawned.process_id,
        restart_count: spawned.restart_count,
        last_exit_status,
    }
}

/// Bytes of a segment's file data that land in the page at `page`: the offset in the page,
/// the offset in the data, and the length; `None` when the page holds none of it.
pub open spec fn page_copy_window(page: u64, file_start: u64, file_len: int) -> Option<(int, int, int)> {
    let page_end = page + 4096;
    let file_end = file_start + file_len;
    let copy_start = if page > file_start { page as int } else { file_start as int };
    let copy_end = if page_end < file_end { page_end } else { file_end };
    if copy_start < copy_end {
        Some((copy_start - page, copy_start - file_start, copy_end - copy_start))
    } else {
        None
    }
}

/// Where a segment's file bytes go in the frame backing the page at `page`.
pub fn segment_page_copy(page: u64, file_start: u64, file_len: u64) -> (r: Result<
    Option<(usize, usize, usize)>,
    InitExecActivateError,
>)
    requires
        page + 4096 <= u64::MAX,
        file_start + file_len <= u64::MAX,
    ensures
        match page_copy_window(page, file_start, file_len as int) {
            Some((d, s, l)) => if s <= usize::MAX {
                r == Ok::<Option<(usize, usize, usize)>, InitExecActivateError>(Some((d as usize, s as usize, l as usize)))
            } else {
                r matches Err(InitExecActivateError::InvalidSegmentMap)
            },
            None => r == Ok::<Option<(usize, usize, usize)>, InitExecActivateError>(None),
        },
{
    let page_end = page + 4096;
    let file_end = file_start + file_len;
    let copy_start = if page > file_start { page } else { file_start };
    let copy_end = if page_end < file_end { page_end } else { file_end };
    if copy_start < copy_end {
        assert(copy_start - page <= 4096 && copy_end - copy_start <= 4096);
        assert(copy_start - file_start <= file_len);
        if (copy_start - file_start) > usize::MAX as u64 {
            return Err(InitExecActivateError::InvalidSegmentMap);
        }
        Ok(Some(((copy_start - page) as usize, (copy_start - file_start) as usize, (copy_end - copy_start) as usize)))
    } else {
        Ok(None)
    }
}

} // verus!
