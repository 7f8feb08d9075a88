//! Native memory regions of processes: a table of processes, each with up to 128 regions;
//! placing a new region where it overlaps none, and finding the region a fault falls in.
use vstd::prelude::*;

verus! {

pub const MAX_PROCESSES: usize = 64;
pub const MAX_REGIONS_PER_PROCESS: usize = 128;
/// Where the search for room for a region starts.
pub const NATIVE_REGION_BASE: u64 = 0x4000_0000_0000;
pub const ENOMEM: i64 = 12;

#[derive(Copy, Clone, Debug, PartialEq, Eq, Structural)]
pub struct NativeRegion {
    pub start: u64,
    pub end: u64,
    pub flags: u64,
    pub used: bool,
}

pub struct ProcessVmm {
    pub process_id: u64,
    pub active: bool,
    pub regions: Vec<NativeRegion>,
}

/// The region `r` is in use and meets `[start, start + len)`.
pub open spec fn overlaps(r: NativeRegion, start: u64, len: u64) -> bool {
    r.used && r.start < start + len && r.end > start
}

/// How many regions in use end above `a`.
pub open spec fn ends_above(rs: Seq<NativeRegion>, a: u64) -> nat
    decreases rs.len(),
{
    if rs.len() == 0 {
        0
    } else {
        ends_above(rs.drop_last(), a) + if rs.last().used && rs.last().end > a { 1nat } else { 0nat }
    }
}

proof fn lemma_ends_above_mono(rs: Seq<NativeRegion>, a: u64, b: u64)
    requires
        a <= b,
    ensures
        ends_above(rs, b) <= ends_above(rs, a),
    decreases rs.len(),
{
    if rs.len() > 0 {
        lemma_ends_above_mono(rs.drop_last(), a, b);
    }
}

proof fn lemma_ends_above_drop(rs: Seq<NativeRegion>, k: int, a: u64)
    requires
        0 <= k < rs.len(),
        rs[k].used,
        rs[k].end > a,
    ensures
        ends_above(rs, rs[k].end) < ends_above(rs, a),
    decreases rs.len(),
{
    if k == rs.len() - 1 {
        lemma_ends_above_mono(rs.drop_last(), a, rs[k].end);
    } else {
        assert(rs.drop_last()[k] == rs[k]);
        lemma_ends_above_drop(rs.drop_last(), k, a);
    }
}

/// `len` rounded up to whole pages.
pub open spec fn page_aligned_len(len: u64) -> u64 {
    ((len + 4095) as u64) & !4095u64
}

/// Room can be searched for without overflow: every region in use ends low enough for the
/// rounded length to fit after it, and so does the base.
pub open spec fn search_fits(rs: Seq<NativeRegion>, aligned: u64) -> bool {
    &&& NATIVE_REGION_BASE + aligned <= u64::MAX
    &&& forall|k: int| 0 <= k < rs.len() && (#[trigger] rs[k]).used ==> rs[k].end + aligned <= u64::MAX
}

impl ProcessVmm {
    pub open spec fn wf(&self) -> bool {
        self.regions@.len() == MAX_REGIONS_PER_PROCESS
    }

    /// An inactive entry with every region unused.
    pub fn empty() -> (v: Self)
        ensures
            v.wf(),
            !v.active && v.process_id == 0,
            forall|k: int| 0 <= k < MAX_REGIONS_PER_PROCESS ==> !(#[trigger] v.regions@[k]).used,
    {
        let mut regions: Vec<NativeRegion> = Vec::new();
        let mut i: usize = 0;
        while i < MAX_REGIONS_PER_PROCESS
            invariant
                i <= MAX_REGIONS_PER_PROCESS,
                regions@.len() == i,
                forall|k: int| 0 <= k < i ==> !(#[trigger] regions@[k]).used,
            decreases MAX_REGIONS_PER_PROCESS - i,
        {
            regions.push(NativeRegion { start: 0, end: 0, flags: 0, used: false });
            i = i + 1;
        }
        ProcessVmm { process_id: 0, active: false, regions }
    }

    /// The first region in use that meets `[start, start + len)`.
    fn first_overlap(&self, start: u64, len: u64) -> (r: Option<usize>)
        requires
            search_fits(self.regions@, len),
            start + len <= u64::MAX,
        ensures
            r matches Some(k) ==> k < self.regions@.len() && overlaps(self.regions@[k as int], start, len),
            r is None ==> forall|k: int| 0 <= k < self.regions@.len() ==> !overlaps(#[trigger] self.regions@[k], start, len),
    {
        let mut k: usize = 0;
        while k < self.regions.len()
            invariant
                k <= self.regions@.len(),
                start + len <= u64::MAX,
                forall|j: int| 0 <= j < k ==> !overlaps(#[trigger] self.regions@[j], start, len),
            decreases self.regions.len() - k,
        {
            let r = self.regions[k];
            if r.used && r.start < start + len && r.end > start {
                return Some(k);
            }
            k = k + 1;
        }
        None
    }

    /// Records a region of `len` bytes, rounded up to pages, with `flags`: at `addr` rounded
    /// down to a page, or, for address 0, at the first address from the base where it
    /// meets no region in use. Returns its address, or `-ENOMEM` when every region slot is
    /// taken.
    pub fn map_native_region(&mut self, addr: u64, len: u64, flags: u64) -> (r: i64)
        requires
            old(self).wf(),
            len <= u64::MAX - 4095,
            addr == 0 ==> search_fits(old(self).regions@, page_aligned_len(len)),
            addr != 0 ==> (addr & !4095u64) + page_aligned_len(len) <= u64::MAX,
        ensures
            final(self).wf(),
            final(self).process_id == old(self).process_id && final(self).active == old(self).active,
            ({
                let aligned = page_aligned_len(len);
                if forall|k: int| 0 <= k < MAX_REGIONS_PER_PROCESS ==> (#[trigger] old(self).regions@[k]).used {
                    r == -ENOMEM && final(self).regions@ == old(self).regions@
                } else {
                    exists|slot: int, at: u64|
                        #![trigger old(self).regions@[slot], overlaps(old(self).regions@[slot], at, aligned)]
                        0 <= slot < MAX_REGIONS_PER_PROCESS
                        && !old(self).regions@[slot].used
                        && (forall|k: int| 0 <= k < slot ==> (#[trigger] old(self).regions@[k]).used)
                        && r == at as i64
                        && final(self).regions@ == old(self).regions@.update(slot, NativeRegion {
                            start: at,
                            end: (at + aligned) as u64,
                            flags,
                            used: true,
                        })
                        && (addr != 0 ==> at == addr & !4095u64)
                        && (addr == 0 ==> at >= NATIVE_REGION_BASE && forall|k: int|
                            0 <= k < MAX_REGIONS_PER_PROCESS ==> !overlaps(#[trigger] old(self).regions@[k], at, aligned))
                }
            }),
    {
        let aligned = (len + 4095) & !4095u64;
        let map_addr: u64 = if addr == 0 {
            let mut try_addr: u64 = NATIVE_REGION_BASE;
            let mut found = false;
            while !found
                invariant
                    self.wf(),
                    self == old(self),
                    aligned == page_aligned_len(len),
                    search_fits(self.regions@, aligned),
                    try_addr >= NATIVE_REGION_BASE,
                    try_addr == NATIVE_REGION_BASE || exists|k: int| 0 <= k < self.regions@.len() && (#[trigger] self.regions@[k]).used && self.regions@[k].end == try_addr,
                    found ==> forall|k: int| 0 <= k < self.regions@.len() ==> !overlaps(#[trigger] self.regions@[k], try_addr, aligned),
                decreases ends_above(self.regions@, try_addr), if found { 0int } else { 1int },
            {
                proof {
                    if try_addr != NATIVE_REGION_BASE {
                        let k = choose|k: int| 0 <= k < self.regions@.len() && (#[trigger] self.regions@[k]).used && self.regions@[k].end == try_addr;
                        assert(self.regions@[k].end + aligned <= u64::MAX);
                    }
                }
                match self.first_overlap(try_addr, aligned) {
                    Some(k) => {
                        proof {
                            lemma_ends_above_drop(self.regions@, k as int, try_addr);
                        }
                        try_addr = self.regions[k].end;
                    },
                    None => {
                        found = true;
                    },
                }
            }
            try_addr
        } else {
            addr & !4095u64
        };
        let mut slot: usize = 0;
        while slot < self.regions.len() && self.regions[slot].used
            invariant
                self.wf(),
                self == old(self),
                slot <= self.regions@.len(),
                forall|k: int| 0 <= k < slot ==> (#[trigger] self.regions@[k]).used,
            decreases self.regions.len() - slot,
        {
            slot = slot + 1;
        }
        if slot == self.regions.len() {
            return -ENOMEM;
        }
        proof {
            if addr == 0 {
                assert(map_addr + aligned <= u64::MAX) by {
                    if map_addr != NATIVE_REGION_BASE {
                        let k = choose|k: int| 0 <= k < self.regions@.len() && (#[trigger] self.regions@[k]).used && self.regions@[k].end == map_addr;
                        assert(self.regions@[k].end + aligned <= u64::MAX);
                    }
                }
            }
        }
        let region = NativeRegion { start: map_addr, end: map_addr + aligned, flags, used: true };
        self.regions.set(slot, region);
        proof {
            assert(!old(self).regions@[slot as int].used);
            assert(overlaps(old(self).regions@[slot as int], map_addr, aligned) == false);
        }
        map_addr as i64
    }

    /// The flags of the first region in use that contains `cr2`; a fault anywhere else is
    /// not handled.
    pub fn handle_page_fault(&self, cr2: u64) -> (r: Option<u64>)
        ensures
            r matches Some(f) ==> exists|k: int|
                0 <= k < self.regions@.len() && (#[trigger] self.regions@[k]).used && self.regions@[k].start <= cr2
                    < self.regions@[k].end && self.regions@[k].flags == f && (forall|j: int|
                    0 <= j < k ==> !((#[trigger] self.regions@[j]).used && self.regions@[j].start <= cr2 < self.regions@[j].end)),
            r is None ==> forall|k: int|
                0 <= k < self.regions@.len() ==> !((#[trigger] self.regions@[k]).used && self.regions@[k].start <= cr2 < self.regions@[k].end),
    {
        let mut k: usize = 0;
        while k < self.regions.len()
            invariant
                k <= self.regions@.len(),
                forall|j: int| 0 <= j < k ==> !((#[trigger] self.regions@[j]).used && self.regions@[j].start <= cr2 < self.regions@[j].end),
            decreases self.regions.len() - k,
        {
            let r = self.regions[k];
            if r.used && cr2 >= r.start && cr2 < r.end {
                return Some(r.flags);
            }
            k = k + 1;
        }
        None
    }
}

/// The processes' region tables.
pub struct VmmTable {
    pub processes: Vec<ProcessVmm>,
}

impl VmmTable {
    pub open spec fn wf(&self) -> bool {
        &&& self.processes@.len() == MAX_PROCESSES
        &&& forall|i: int| 0 <= i < MAX_PROCESSES ==> (#[trigger] self.processes@[i]).wf()
    }

    pub fn new() -> (t: Self)
        ensures
            t.wf(),
            forall|i: int| 0 <= i < MAX_PROCESSES ==> !(#[trigger] t.processes@[i]).active,
    {
        let mut processes: Vec<ProcessVmm> = Vec::new();
        let mut i: usize = 0;
        while i < MAX_PROCESSES
            invariant
                i <= MAX_PROCESSES,
                processes@.len() == i,
                forall|k: int| 0 <= k < i ==> (#[trigger] processes@[k]).wf() && !processes@[k].active,
            decreases MAX_PROCESSES - i,
        {
            processes.push(ProcessVmm::empty());
            i = i + 1;
        }
        VmmTable { processes }
    }

    /// The entry of process `pid`: the active one for it, else the first inactive entry,
    /// which becomes the process's with every region unused.
    pub fn get_process_vmm(&mut self, pid: u64) -> (r: usize)
        requires
            old(self).wf(),
            exists|i: int| 0 <= i < MAX_PROCESSES && ((#[trigger] old(self).processes@[i]).active ==> old(self).processes@[i].process_id == pid),
        ensures
            final(self).wf(),
            r < MAX_PROCESSES,
            final(self).processes@[r as int].active && final(self).processes@[r as int].process_id == pid,
            (exists|i: int| 0 <= i < MAX_PROCESSES && (#[trigger] old(self).processes@[i]).active && old(self).processes@[i].process_id == pid)
                ==> final(self).processes@ == old(self).processes@ && old(self).processes@[r as int].active,
            !(exists|i: int| 0 <= i < MAX_PROCESSES && (#[trigger] old(self).processes@[i]).active && old(self).processes@[i].process_id == pid)
                ==> !old(self).processes@[r as int].active && (forall|j: int| 0 <= j < r ==> (#[trigger] old(self).processes@[j]).active)
                && (forall|j: int| 0 <= j < MAX_PROCESSES && j != r ==> #[trigger] final(self).processes@[j] == old(self).processes@[j])
                && (forall|k: int| 0 <= k < MAX_REGIONS_PER_PROCESS ==> #[trigger] final(self).processes@[r as int].regions@[k]
                    == (NativeRegion { used: false, ..old(self).processes@[r as int].regions@[k] })),
    {
        let mut i: usize = 0;
        while i < self.processes.len()
            invariant
                i <= MAX_PROCESSES,
                self.wf(),
                forall|j: int| 0 <= j < i ==> !((#[trigger] self.processes@[j]).active && self.processes@[j].process_id == pid),
            decreases self.processes.len() - i,
        {
            if self.processes[i].active && self.processes[i].process_id == pid {
                return i;
            }
            i = i + 1;
        }
        let mut j: usize = 0;
        while j < self.processes.len() && self.processes[j].active
            invariant
                j <= MAX_PROCESSES,
                self.wf(),
                self.processes@ == old(self).processes@,
                forall|k: int| 0 <= k < j ==> (#[trigger] self.processes@[k]).active,
                forall|k: int| 0 <= k < MAX_PROCESSES ==> !((#[trigger] self.processes@[k]).active && self.processes@[k].process_id == pid),
            decreases self.processes.len() - j,
        {
            j = j + 1;
        }
        if j == self.processes.len() {
            proof {
                let w = choose|i: int| 0 <= i < MAX_PROCESSES && ((#[trigger] old(self).processes@[i]).active ==> old(self).processes@[i].process_id == pid);
                assert(self.processes@[w].active);
            }
            return 0;
        }
        let mut regions: Vec<NativeRegion> = Vec::new();
        let mut k: usize = 0;
        while k < MAX_REGIONS_PER_PROCESS
            invariant
                k <= MAX_REGIONS_PER_PROCESS,
                j < MAX_PROCESSES,
                self.wf(),
                self.processes@ == old(self).processes@,
                regions@.len() == k,
                forall|x: int| 0 <= x < k ==> #[trigger] regions@[x] == (NativeRegion { used: false, ..old(self).processes@[j as int].regions@[x] }),
            decreases MAX_REGIONS_PER_PROCESS - k,
        {
            let mut r = self.processes[j].regions[k];
            r.used = false;
            regions.push(r);
            k = k + 1;
        }
        let fresh = ProcessVmm { process_id: pid, active: true, regions };
        self.processes.set(j, fresh);
        j
    }
}

} // verus!
