//! Four-level x86-64 page tables over a model of the frames that hold them: walking an
//! address down to its page, adding a mapping with tables allocated on the way, and
//! removing one. The frames are found through the higher-half direct map; an address
//! that does not fit in it is an error, as in the kernel.
use vstd::prelude::*;

verus! {

pub const PAGE_SIZE: u64 = 4096;
pub const TABLE_ENTRIES: usize = 512;

pub const PAGE_PRESENT: u64 = 0x1;
pub const PAGE_WRITABLE: u64 = 0x2;
pub const PAGE_USER: u64 = 0x4;
pub const FLAG_WRITE_THROUGH: u64 = 0x8;
pub const FLAG_CACHE_DISABLE: u64 = 0x10;
pub const PAGE_HUGE: u64 = 0x80;
pub const PAGE_ADDRESS_MASK: u64 = 0x000f_ffff_ffff_f000;

#[derive(Copy, Clone, Debug, PartialEq, Eq, Structural)]
pub enum MapError {
    AddressOverflow,
    PageTableAllocationFailed,
    MappingConflict,
}

/// Where the walk for an address ends.
#[derive(Copy, Clone, Debug, PartialEq, Eq, Structural)]
pub enum Translation {
    /// An entry on the way is not present, or its table is not known.
    Absent,
    /// A large page covers the address.
    Huge,
    /// The 4 KiB page at this physical address.
    Mapped(u64),
}

/// The index an address selects in the table of `level` (3 is the top).
pub open spec fn table_index(va: u64, level: nat) -> int {
    ((va >> ((12 + 9 * level) as u64)) & 0x1ff) as int
}

/// The table memory: each known table frame and its 512 entries.
pub type TableMap = Map<u64, Seq<u64>>;

pub open spec fn present(e: u64) -> bool {
    e & PAGE_PRESENT != 0
}

pub open spec fn huge(e: u64) -> bool {
    e & PAGE_HUGE != 0
}

pub open spec fn entry_address(e: u64) -> u64 {
    e & PAGE_ADDRESS_MASK
}

pub open spec fn known_table(m: TableMap, t: u64) -> bool {
    m.dom().contains(t) && m[t].len() == TABLE_ENTRIES
}

/// The walk for `va` from the table `t` of `level` down.
pub open spec fn walk(m: TableMap, t: u64, va: u64, level: nat) -> Translation
    decreases level,
{
    if !known_table(m, t) {
        Translation::Absent
    } else {
        let e = m[t][table_index(va, level)];
        if !present(e) {
            Translation::Absent
        } else if level == 0 {
            Translation::Mapped(entry_address(e))
        } else if huge(e) {
            Translation::Huge
        } else {
            walk(m, entry_address(e), va, (level - 1) as nat)
        }
    }
}

/// Every table the walk for `va` passes through is known.
pub open spec fn path_known(m: TableMap, t: u64, va: u64, level: nat) -> bool
    decreases level,
{
    known_table(m, t) && ({
        let e = m[t][table_index(va, level)];
        level > 0 && present(e) && !huge(e) ==> path_known(m, entry_address(e), va, (level - 1) as nat)
    })
}

/// Every table above the last level points only to known tables one level down.
pub open spec fn typed(m: TableMap, lv: Map<u64, nat>) -> bool {
    &&& forall|t: u64| #[trigger] m.dom().contains(t) ==> lv.dom().contains(t) && known_table(m, t) && lv[t] <= 3
    &&& forall|t: u64, i: int|
        m.dom().contains(t) && lv[t] > 0 && 0 <= i < TABLE_ENTRIES && present(#[trigger] m[t][i]) && !huge(m[t][i])
            ==> m.dom().contains(entry_address(m[t][i])) && lv[entry_address(m[t][i])] == lv[t] - 1
}

pub proof fn lemma_typed_path_known(m: TableMap, lv: Map<u64, nat>, t: u64, va: u64, level: nat)
    requires
        typed(m, lv),
        m.dom().contains(t),
        lv[t] == level,
    ensures
        path_known(m, t, va, level),
    decreases level,
{
    lemma_table_index_bound(va, level);
    let e = m[t][table_index(va, level)];
    if level > 0 && present(e) && !huge(e) {
        lemma_typed_path_known(m, lv, entry_address(e), va, (level - 1) as nat);
    }
}

/// `lv2` keeps the level of every table of `lv1`.
pub open spec fn lv_extends(lv1: Map<u64, nat>, lv2: Map<u64, nat>) -> bool {
    forall|t: u64| #[trigger] lv1.dom().contains(t) ==> lv2.dom().contains(t) && lv2[t] == lv1[t]
}

/// `m2` keeps every table of `m1`, and every present entry of them.
pub open spec fn extends(m1: TableMap, m2: TableMap) -> bool {
    &&& forall|t: u64| #[trigger] m1.dom().contains(t) ==> m2.dom().contains(t)
    &&& forall|t: u64| known_table(m1, t) ==> #[trigger] m2[t].len() == TABLE_ENTRIES
    &&& forall|t: u64, i: int|
        known_table(m1, t) && 0 <= i < TABLE_ENTRIES && present(#[trigger] m1[t][i]) ==> m2[t][i] == m1[t][i]
}

pub proof fn lemma_extends_refl(m: TableMap)
    ensures
        extends(m, m),
{
}

pub proof fn lemma_extends_trans(m1: TableMap, m2: TableMap, m3: TableMap)
    requires
        extends(m1, m2),
        extends(m2, m3),
    ensures
        extends(m1, m3),
{
    assert forall|t: u64, i: int|
        known_table(m1, t) && 0 <= i < TABLE_ENTRIES && present(#[trigger] m1[t][i]) implies m3[t][i] == m1[t][i] by {
        assert(known_table(m2, t));
        assert(m2[t][i] == m1[t][i]);
    }
}

/// What is mapped stays mapped, and large pages stay, as tables only gain entries.
pub proof fn lemma_extends_keeps_walk(m1: TableMap, m2: TableMap, t: u64, va: u64, level: nat)
    requires
        extends(m1, m2),
    ensures
        walk(m1, t, va, level) is Mapped ==> walk(m2, t, va, level) == walk(m1, t, va, level),
        walk(m1, t, va, level) is Huge ==> walk(m2, t, va, level) is Huge,
    decreases level,
{
    if known_table(m1, t) {
        let i = table_index(va, level);
        lemma_table_index_bound(va, level);
        let e = m1[t][i];
        assert(known_table(m2, t));
        if present(e) {
            assert(m2[t][i] == e);
            if level > 0 && !huge(e) {
                lemma_extends_keeps_walk(m1, m2, entry_address(e), va, (level - 1) as nat);
            }
        }
    }
}

pub proof fn lemma_table_index_bound(va: u64, level: nat)
    ensures
        0 <= table_index(va, level) < TABLE_ENTRIES,
{
    let s = (12 + 9 * level) as u64;
    assert(((va >> s) & 0x1ff) < 512) by (bit_vector);
}

/// Frames that can become tables: page-aligned, within the physical address space, new to
/// `m`, and all different.
pub open spec fn fresh_frames(m: TableMap, pool: Seq<u64>) -> bool {
    &&& forall|k: int| 0 <= k < pool.len() ==> #[trigger] pool[k] & !PAGE_ADDRESS_MASK == 0
    &&& forall|k: int| 0 <= k < pool.len() ==> !m.dom().contains(#[trigger] pool[k])
    &&& forall|j: int, k: int| 0 <= j < k < pool.len() ==> pool[j] != pool[k]
}

/// The page tables: the physical address of each table frame and its entries.
pub struct PageTableMemory {
    pub frames: Vec<u64>,
    pub tables: Vec<Vec<u64>>,
    /// The level of each table: 3 for the top, 0 for those that map pages.
    pub levels: Vec<u8>,
}

impl PageTableMemory {
    pub open spec fn wf(&self) -> bool {
        &&& self.frames@.len() == self.tables@.len()
        &&& self.levels@.len() == self.frames@.len()
        &&& forall|i: int| 0 <= i < self.tables@.len() ==> #[trigger] self.tables@[i]@.len() == TABLE_ENTRIES
        &&& forall|i: int, j: int| 0 <= i < j < self.frames@.len() ==> self.frames@[i] != self.frames@[j]
    }

    /// Which slot holds the table at `a`.
    pub open spec fn slot_of(&self, a: u64) -> int {
        choose|i: int| 0 <= i < self.frames@.len() && self.frames@[i] == a
    }

    pub open spec fn mem(&self) -> TableMap {
        Map::new(|a: u64| self.frames@.contains(a), |a: u64| self.tables@[self.slot_of(a)]@)
    }

    /// The level of each known table.
    pub open spec fn lv(&self) -> Map<u64, nat> {
        Map::new(|a: u64| self.frames@.contains(a), |a: u64| self.levels@[self.slot_of(a)] as nat)
    }

    proof fn lemma_slot(&self, i: int)
        requires
            self.wf(),
            0 <= i < self.frames@.len(),
        ensures
            self.slot_of(self.frames@[i]) == i,
            self.mem().dom().contains(self.frames@[i]),
            self.mem()[self.frames@[i]] == self.tables@[i]@,
            known_table(self.mem(), self.frames@[i]),
            self.lv().dom().contains(self.frames@[i]),
            self.lv()[self.frames@[i]] == self.levels@[i] as nat,
    {
        let a = self.frames@[i];
        assert(self.frames@.contains(a));
        let k = self.slot_of(a);
        if k != i {
            if k < i {
                assert(self.frames@[k] != self.frames@[i]);
            } else {
                assert(self.frames@[i] != self.frames@[k]);
            }
        }
    }

    /// An empty memory with one zeroed top-level table at `root`.
    pub fn with_root(root: u64) -> (m: Self)
        ensures
            m.wf(),
            m.mem() == Map::<u64, Seq<u64>>::empty().insert(root, Seq::new(TABLE_ENTRIES as nat, |i: int| 0u64)),
            m.lv() == Map::<u64, nat>::empty().insert(root, 3),
            typed(m.mem(), m.lv()),
    {
        let mut m = PageTableMemory { frames: Vec::new(), tables: Vec::new(), levels: Vec::new() };
        proof {
            assert(m.mem() =~= Map::<u64, Seq<u64>>::empty());
            assert(m.lv() =~= Map::<u64, nat>::empty());
        }
        m.add_table(root, 3);
        assert(m.mem() =~= Map::<u64, Seq<u64>>::empty().insert(root, Seq::new(TABLE_ENTRIES as nat, |i: int| 0u64)));
        assert(m.lv() =~= Map::<u64, nat>::empty().insert(root, 3));
        proof {
            assert((0u64 & 1u64) == 0) by (bit_vector);
        }
        m
    }

    /// The slot of the table at `a`, if it is known.
    pub fn find_table(&self, a: u64) -> (r: Option<usize>)
        requires
            self.wf(),
        ensures
            r matches Some(i) ==> i < self.frames@.len() && self.frames@[i as int] == a,
            r is None ==> !self.mem().dom().contains(a),
    {
        let mut i: usize = 0;
        while i < self.frames.len()
            invariant
                i <= self.frames@.len(),
                forall|k: int| 0 <= k < i ==> self.frames@[k] != a,
            decreases self.frames.len() - i,
        {
            if self.frames[i] == a {
                return Some(i);
            }
            i = i + 1;
        }
        None
    }

    /// Adds a zeroed table at the frame `a`, which is not a table yet.
    pub fn add_table(&mut self, a: u64, level: u8)
        requires
            old(self).wf(),
            !old(self).mem().dom().contains(a),
        ensures
            final(self).wf(),
            final(self).mem() == old(self).mem().insert(a, Seq::new(TABLE_ENTRIES as nat, |i: int| 0u64)),
            final(self).lv() == old(self).lv().insert(a, level as nat),
            final(self).frames@ == old(self).frames@.push(a),
    {
        let mut zeros: Vec<u64> = Vec::new();
        let mut k: usize = 0;
        while k < TABLE_ENTRIES
            invariant
                k <= TABLE_ENTRIES,
                zeros@ == Seq::new(k as nat, |i: int| 0u64),
            decreases TABLE_ENTRIES - k,
        {
            zeros.push(0);
            k = k + 1;
            assert(zeros@ =~= Seq::new(k as nat, |i: int| 0u64));
        }
        let ghost before = *self;
        assert(!before.frames@.contains(a));
        self.frames.push(a);
        self.tables.push(zeros);
        self.levels.push(level);
        proof {
            let n = before.frames@.len() as int;
            assert forall|i: int, j: int| 0 <= i < j < self.frames@.len() implies self.frames@[i] != self.frames@[j] by {
                if j == n {
                    assert(before.frames@[i] != a) by {
                        if before.frames@[i] == a {
                            assert(before.frames@.contains(a));
                        }
                    }
                }
            }
            assert forall|x: u64| #[trigger] self.mem().dom().contains(x) == old(self).mem().insert(a, Seq::new(TABLE_ENTRIES as nat, |i: int| 0u64)).dom().contains(x) by {
                if before.frames@.contains(x) {
                    let i = choose|i: int| 0 <= i < before.frames@.len() && before.frames@[i] == x;
                    assert(self.frames@[i] == x);
                }
                if self.frames@.contains(x) && x != a {
                    let i = choose|i: int| 0 <= i < self.frames@.len() && self.frames@[i] == x;
                    assert(i < n);
                    assert(before.frames@[i] == x);
                }
                assert(self.frames@[n] == a);
            }
            assert forall|x: u64| #[trigger] self.mem().dom().contains(x) implies self.mem()[x] == old(self).mem().insert(a, Seq::new(TABLE_ENTRIES as nat, |i: int| 0u64))[x] by {
                if x == a {
                    self.lemma_slot(n);
                } else {
                    let i = choose|i: int| 0 <= i < self.frames@.len() && self.frames@[i] == x;
                    assert(i < n);
                    self.lemma_slot(i);
                    before.lemma_slot(i);
                }
            }
            assert(self.mem() =~= old(self).mem().insert(a, Seq::new(TABLE_ENTRIES as nat, |i: int| 0u64)));
            assert forall|x: u64| #[trigger] self.lv().dom().contains(x) implies self.lv()[x] == old(self).lv().insert(a, level as nat)[x] by {
                if x == a {
                    self.lemma_slot(n);
                } else {
                    let i = choose|i: int| 0 <= i < self.frames@.len() && self.frames@[i] == x;
                    assert(i < n);
                    self.lemma_slot(i);
                    before.lemma_slot(i);
                }
            }
            assert(self.lv() =~= old(self).lv().insert(a, level as nat));
        }
    }

    /// Writes entry `idx` of the table in slot `s`.
    pub fn set_entry(&mut self, s: usize, idx: usize, value: u64)
        requires
            old(self).wf(),
            s < old(self).frames@.len(),
            idx < TABLE_ENTRIES,
        ensures
            final(self).wf(),
            final(self).frames@ == old(self).frames@,
            final(self).lv() == old(self).lv(),
            final(self).mem() == old(self).mem().insert(
                old(self).frames@[s as int],
                old(self).mem()[old(self).frames@[s as int]].update(idx as int, value),
            ),
    {
        let ghost before = *self;
        self.tables[s].set(idx, value);
        proof {
            let a = before.frames@[s as int];
            before.lemma_slot(s as int);
            assert forall|x: u64| #[trigger] self.mem().dom().contains(x) == old(self).mem().insert(a, old(self).mem()[a].update(idx as int, value)).dom().contains(x) by {
            }
            assert forall|x: u64| #[trigger] self.mem().dom().contains(x) implies self.mem()[x] == old(self).mem().insert(a, old(self).mem()[a].update(idx as int, value))[x] by {
                let i = choose|i: int| 0 <= i < self.frames@.len() && self.frames@[i] == x;
                self.lemma_slot(i);
                before.lemma_slot(i);
            }
            assert(self.mem() =~= old(self).mem().insert(a, old(self).mem()[a].update(idx as int, value)));
            assert forall|x: u64| #[trigger] self.lv().dom().contains(x) implies self.lv()[x] == old(self).lv()[x] by {
                let i = choose|i: int| 0 <= i < self.frames@.len() && self.frames@[i] == x;
                self.lemma_slot(i);
                before.lemma_slot(i);
            }
            assert(self.lv() =~= old(self).lv());
        }
    }

    /// Reads entry `idx` of the table in slot `s`.
    pub fn entry(&self, s: usize, idx: usize) -> (e: u64)
        requires
            self.wf(),
            s < self.frames@.len(),
            idx < TABLE_ENTRIES,
        ensures
            e == self.mem()[self.frames@[s as int]][idx as int],
    {
        proof {
            self.lemma_slot(s as int);
        }
        self.tables[s][idx]
    }
}

/// The walk from `from` (at `lf`) reaches the table `to` (at `lt`) through present,
/// non-large entries of known tables.
pub open spec fn reaches(m: TableMap, from: u64, lf: nat, to: u64, lt: nat, va: u64) -> bool
    decreases lf,
{
    if lf == lt {
        from == to
    } else if lf < lt {
        false
    } else {
        known_table(m, from) && ({
            let e = m[from][table_index(va, lf)];
            present(e) && !huge(e) && reaches(m, entry_address(e), (lf - 1) as nat, to, lt, va)
        })
    }
}

/// The last-level entry the walk for `va` from table `t` of `level` arrives at, whether or
/// not it is present; `None` when the walk stops above the last level.
pub open spec fn leaf_pte(m: TableMap, t: u64, va: u64, level: nat) -> Option<u64>
    decreases level,
{
    if !known_table(m, t) {
        None
    } else {
        let e = m[t][table_index(va, level)];
        if level == 0 {
            Some(e)
        } else if !present(e) || huge(e) {
            None
        } else {
            leaf_pte(m, entry_address(e), va, (level - 1) as nat)
        }
    }
}

proof fn lemma_reaches_leaf(m: TableMap, from: u64, lf: nat, to: u64, va: u64)
    requires
        reaches(m, from, lf, to, 0, va),
        known_table(m, to),
    ensures
        leaf_pte(m, from, va, lf) == Some(m[to][table_index(va, 0)]),
    decreases lf,
{
    if lf > 0 {
        let e = m[from][table_index(va, lf)];
        lemma_reaches_leaf(m, entry_address(e), (lf - 1) as nat, to, va);
    }
}

proof fn lemma_reaches_walk(m: TableMap, from: u64, lf: nat, to: u64, lt: nat, va: u64)
    requires
        reaches(m, from, lf, to, lt, va),
    ensures
        walk(m, from, va, lf) == walk(m, to, va, lt),
    decreases lf,
{
    if lf > lt {
        let e = m[from][table_index(va, lf)];
        lemma_reaches_walk(m, entry_address(e), (lf - 1) as nat, to, lt, va);
    }
}

proof fn lemma_reaches_step(m: TableMap, from: u64, lf: nat, to: u64, lt: nat, va: u64)
    requires
        reaches(m, from, lf, to, lt, va),
        lt > 0,
        known_table(m, to),
        present(m[to][table_index(va, lt)]),
        !huge(m[to][table_index(va, lt)]),
    ensures
        reaches(m, from, lf, entry_address(m[to][table_index(va, lt)]), (lt - 1) as nat, va),
    decreases lf,
{
    if lf > lt {
        let e = m[from][table_index(va, lf)];
        lemma_reaches_step(m, entry_address(e), (lf - 1) as nat, to, lt, va);
    } else {
        let n = entry_address(m[to][table_index(va, lt)]);
        assert(reaches(m, n, (lt - 1) as nat, n, (lt - 1) as nat, va));
    }
}

proof fn lemma_reaches_extends(m1: TableMap, m2: TableMap, from: u64, lf: nat, to: u64, lt: nat, va: u64)
    requires
        reaches(m1, from, lf, to, lt, va),
        extends(m1, m2),
    ensures
        reaches(m2, from, lf, to, lt, va),
    decreases lf,
{
    if lf > lt {
        let i = table_index(va, lf);
        lemma_table_index_bound(va, lf);
        let e = m1[from][i];
        assert(m2[from][i] == e);
        lemma_reaches_extends(m1, m2, entry_address(e), (lf - 1) as nat, to, lt, va);
    }
}


/// The entry that makes frame `f` a table below another.
pub open spec fn table_entry(f: u64, fl: u64) -> u64 {
    f | fl
}

/// The flags of an entry that points to a table: present and writable, and user-accessible
/// for process tables.
pub open spec fn table_flags_ok(fl: u64) -> bool {
    fl == PAGE_PRESENT | PAGE_WRITABLE || fl == PAGE_PRESENT | PAGE_WRITABLE | PAGE_USER
}

/// The entry that maps a page to `pa`.
pub open spec fn leaf_entry(pa: u64, flags: u64) -> u64 {
    (pa & PAGE_ADDRESS_MASK) | PAGE_PRESENT | PAGE_WRITABLE | flags
}

pub proof fn lemma_table_entry_bits(f: u64, fl: u64)
    requires
        f & !PAGE_ADDRESS_MASK == 0,
        table_flags_ok(fl),
    ensures
        present(table_entry(f, fl)),
        !huge(table_entry(f, fl)),
        entry_address(table_entry(f, fl)) == f,
        f <= PAGE_ADDRESS_MASK,
{
    assert((1u64 | 2u64) == 3u64 && (1u64 | 2u64 | 4u64) == 7u64) by (bit_vector);
    assert(fl == 3u64 || fl == 7u64);
    assert((f & !0x000f_ffff_ffff_f000u64) == 0 && (fl == 3u64 || fl == 7u64) ==> ((f | fl) & 1u64) != 0 && ((f | fl)
        & 0x80u64) == 0 && ((f | fl) & 0x000f_ffff_ffff_f000u64) == f && f <= 0x000f_ffff_ffff_f000u64)
        by (bit_vector);
}

pub proof fn lemma_leaf_entry_bits(pa: u64, flags: u64)
    ensures
        present(leaf_entry(pa, flags)),
        flags & PAGE_ADDRESS_MASK == 0 ==> entry_address(leaf_entry(pa, flags)) == pa & PAGE_ADDRESS_MASK,
{
    assert(((((pa & 0x000f_ffff_ffff_f000u64) | 1u64 | 2u64 | flags) & 1u64) != 0)) by (bit_vector);
    assert((flags & 0x000f_ffff_ffff_f000u64) == 0 ==> ((((pa & 0x000f_ffff_ffff_f000u64) | 1u64 | 2u64 | flags)
        & 0x000f_ffff_ffff_f000u64) == (pa & 0x000f_ffff_ffff_f000u64))) by (bit_vector);
}

pub proof fn lemma_address_bound(e: u64)
    ensures
        entry_address(e) <= PAGE_ADDRESS_MASK,
        entry_address(e) & !PAGE_ADDRESS_MASK == 0,
{
    assert((e & 0x000f_ffff_ffff_f000u64) <= 0x000f_ffff_ffff_f000u64 && ((e & 0x000f_ffff_ffff_f000u64)
        & !0x000f_ffff_ffff_f000u64) == 0) by (bit_vector);
}

pub open spec fn zero_table() -> Seq<u64> {
    Seq::new(TABLE_ENTRIES as nat, |i: int| 0u64)
}

/// The next table down, or a large page.
#[derive(Copy, Clone, Debug, PartialEq, Eq, Structural)]
pub enum NextTable {
    Table(u64),
    HugePage,
}

pub fn page_table_index(address: u64, shift: u64) -> (r: usize)
    requires
        shift == 12 || shift == 21 || shift == 30 || shift == 39,
    ensures
        r < TABLE_ENTRIES,
        shift == 12 ==> r == table_index(address, 0),
        shift == 21 ==> r == table_index(address, 1),
        shift == 30 ==> r == table_index(address, 2),
        shift == 39 ==> r == table_index(address, 3),
{
    assert(((address >> shift) & 0x1ff) < 512) by (bit_vector);
    ((address >> shift) & 0x1ff) as usize
}

impl PageTableMemory {
    /// One step down: the table entry `idx` of the table `t` (in slot `s`) points to. A
    /// missing table is made from the last frame of `pool`, zeroed; running out of frames,
    /// or a frame the direct map cannot reach, is an error.
    fn next_table(&mut self, pool: &mut Vec<u64>, hhdm: u64, t: u64, s: usize, idx: usize, level: u8, fl: u64) -> (r: Result<NextTable, MapError>)
        requires
            table_flags_ok(fl),
            old(self).wf(),
            s < old(self).frames@.len(),
            old(self).frames@[s as int] == t,
            idx < TABLE_ENTRIES,
            fresh_frames(old(self).mem(), old(pool)@),
            typed(old(self).mem(), old(self).lv()),
            old(self).lv()[t] == level as nat,
            1 <= level <= 3,
        ensures
            final(self).wf(),
            extends(old(self).mem(), final(self).mem()),
            fresh_frames(final(self).mem(), final(pool)@),
            typed(final(self).mem(), final(self).lv()),
            lv_extends(old(self).lv(), final(self).lv()),
            r matches Ok(NextTable::Table(n)) ==> final(self).mem().dom().contains(n) && final(self).lv()[n] == level - 1,
            ({
                let m = old(self).mem();
                let e = m[t][idx as int];
                if present(e) {
                    final(self).mem() == m && final(pool)@ == old(pool)@ && if huge(e) {
                        r == Ok::<NextTable, MapError>(NextTable::HugePage)
                    } else if hhdm + entry_address(e) > u64::MAX {
                        r == Err::<NextTable, MapError>(MapError::AddressOverflow)
                    } else {
                        r == Ok::<NextTable, MapError>(NextTable::Table(entry_address(e)))
                    }
                } else if old(pool)@.len() == 0 {
                    final(self).mem() == m && final(pool)@ == old(pool)@ && r == Err::<NextTable, MapError>(
                        MapError::PageTableAllocationFailed,
                    )
                } else {
                    let f = old(pool)@.last();
                    final(pool)@ == old(pool)@.drop_last() && if hhdm + f > u64::MAX {
                        final(self).mem() == m && r == Err::<NextTable, MapError>(MapError::AddressOverflow)
                    } else {
                        r == Ok::<NextTable, MapError>(NextTable::Table(f)) && final(self).mem() == m.insert(
                            f,
                            zero_table(),
                        ).insert(t, m[t].update(idx as int, table_entry(f, fl)))
                    }
                }
            }),
    {
        let ghost m = self.mem();
        proof {
            self.lemma_slot(s as int);
        }
        let e = self.entry(s, idx);
        if e & PAGE_PRESENT == 0 {
            let f = match pool.pop() {
                Some(f) => f,
                None => return Err(MapError::PageTableAllocationFailed),
            };
            let ghost p0 = old(pool)@;
            assert(f == p0.last());
            assert(pool@ =~= p0.drop_last());
            proof {
                assert(!m.dom().contains(f)) by {
                    assert(p0[p0.len() - 1] == f);
                }
                assert(fresh_frames(m, pool@)) by {
                    assert forall|k: int| 0 <= k < pool@.len() implies !m.dom().contains(#[trigger] pool@[k]) by {
                        assert(pool@[k] == p0[k]);
                    }
                    assert forall|k: int| 0 <= k < pool@.len() implies #[trigger] pool@[k] & !PAGE_ADDRESS_MASK == 0 by {
                        assert(pool@[k] == p0[k]);
                    }
                }
            }
            if hhdm.checked_add(f).is_none() {
                return Err(MapError::AddressOverflow);
            }
            proof {
                assert(f & !PAGE_ADDRESS_MASK == 0) by {
                    assert(p0[p0.len() - 1] == f);
                }
                lemma_table_entry_bits(f, fl);
            }
            self.add_table(f, level - 1);
            let ghost m1 = self.mem();
            assert(m1 == m.insert(f, zero_table()));
            assert(f != t);
            proof {
                self.lemma_slot(s as int);
            }
            self.set_entry(s, idx, f | fl);
            proof {
                let m2 = self.mem();
                assert(m2 == m.insert(f, zero_table()).insert(t, m[t].update(idx as int, table_entry(f, fl)))) by {
                    assert(m1[t] == m[t]);
                }
                assert(extends(m, m2)) by {
                    assert forall|x: u64, i: int|
                        known_table(m, x) && 0 <= i < TABLE_ENTRIES && present(#[trigger] m[x][i]) implies m2[x][i] == m[x][i] by {
                        if x == t && i == idx {
                            assert(m[x][i] == e);
                        }
                    }
                }
                assert(fresh_frames(m2, pool@)) by {
                    assert forall|k: int| 0 <= k < pool@.len() implies !m2.dom().contains(#[trigger] pool@[k]) by {
                        assert(pool@[k] == p0[k]);
                        assert(p0[k] != p0[p0.len() - 1]);
                    }
                }
                let lv0 = old(self).lv();
                let lv2 = self.lv();
                assert(lv2 == lv0.insert(f, (level - 1) as nat));
                assert((0u64 & 1u64) == 0) by (bit_vector);
                assert(typed(m2, lv2)) by {
                    assert forall|x: u64| #[trigger] m2.dom().contains(x) implies lv2.dom().contains(x) && known_table(m2, x) && lv2[x] <= 3 by {
                        if x != f && x != t {
                            assert(m.dom().contains(x));
                        }
                    }
                    assert forall|x: u64, i: int|
                        m2.dom().contains(x) && lv2[x] > 0 && 0 <= i < TABLE_ENTRIES && present(#[trigger] m2[x][i]) && !huge(m2[x][i])
                        implies m2.dom().contains(entry_address(m2[x][i])) && lv2[entry_address(m2[x][i])] == lv2[x] - 1 by {
                        if x == f {
                            assert(m2[x][i] == 0u64);
                        } else if x == t && i == idx {
                        } else {
                            assert(m2[x][i] == m[x][i]);
                            let a = entry_address(m[x][i]);
                            assert(m.dom().contains(a));
                            assert(a != f);
                        }
                    }
                }
                assert(lv_extends(lv0, lv2));
            }
            Ok(NextTable::Table(f))
        } else if e & PAGE_HUGE != 0 {
            Ok(NextTable::HugePage)
        } else {
            proof {
                assert(m.dom().contains(entry_address(e)));
            }
            let next = e & PAGE_ADDRESS_MASK;
            if hhdm.checked_add(next).is_none() {
                return Err(MapError::AddressOverflow);
            }
            Ok(NextTable::Table(next))
        }
    }
}

proof fn lemma_zero_table_path(m: TableMap, t: u64, va: u64, level: nat)
    requires
        m.dom().contains(t),
        m[t] == zero_table(),
    ensures
        known_table(m, t),
        path_known(m, t, va, level),
        !present(m[t][table_index(va, level)]),
        walk(m, t, va, level) == Translation::Absent,
{
    lemma_table_index_bound(va, level);
    assert(m[t][table_index(va, level)] == 0u64);
    assert((0u64 & 1u64) == 0) by (bit_vector);
}

/// The top-level table named by a CR3 value.
pub open spec fn cr3_root(cr3: u64) -> u64 {
    cr3 & PAGE_ADDRESS_MASK
}

/// The direct map reaches every physical address.
pub open spec fn hhdm_fits(hhdm: u64) -> bool {
    hhdm <= u64::MAX - PAGE_ADDRESS_MASK
}

impl PageTableMemory {
    /// Maps the page at `va` to `pa` with `flags` added, in the tables under `cr3`. Tables
    /// missing on the way are made from `pool`, last frame first. A large page on the way
    /// ends the work with success; a page already mapped elsewhere is a conflict.
    pub fn ensure_page_mapping(&mut self, pool: &mut Vec<u64>, hhdm: u64, cr3: u64, va: u64, pa: u64, flags: u64) -> (r: Result<(), MapError>)
        requires
            old(self).wf(),
            fresh_frames(old(self).mem(), old(pool)@),
            typed(old(self).mem(), old(self).lv()),
            old(self).mem().dom().contains(cr3_root(cr3)),
            old(self).lv()[cr3_root(cr3)] == 3,
        ensures
            final(self).wf(),
            typed(final(self).mem(), final(self).lv()),
            lv_extends(old(self).lv(), final(self).lv()),
            extends(old(self).mem(), final(self).mem()),
            fresh_frames(final(self).mem(), final(pool)@),
            final(pool)@ == old(pool)@.subrange(0, final(pool)@.len() as int),
            ({
                let w0 = walk(old(self).mem(), cr3_root(cr3), va, 3);
                let w1 = walk(final(self).mem(), cr3_root(cr3), va, 3);
                &&& hhdm_fits(hhdm) ==> r != Err::<(), MapError>(MapError::AddressOverflow)
                &&& r is Ok ==> (w1 is Huge || w1 is Mapped)
                &&& r is Ok && flags & PAGE_ADDRESS_MASK == 0 ==> (w1 is Huge || w1 == Translation::Mapped(pa & PAGE_ADDRESS_MASK))
                &&& !(w0 is Absent) ==> final(self).mem() == old(self).mem() && final(pool)@ == old(pool)@
                &&& w0 is Huge && hhdm_fits(hhdm) ==> r is Ok
                &&& w0 is Mapped && hhdm_fits(hhdm) ==> r == (if w0 == Translation::Mapped(pa & PAGE_ADDRESS_MASK) {
                    Ok::<(), MapError>(())
                } else {
                    Err::<(), MapError>(MapError::MappingConflict)
                })
                &&& w0 is Absent && old(pool)@.len() >= 3 && hhdm_fits(hhdm) ==> r is Ok && w1 is Mapped
                &&& r == Err::<(), MapError>(MapError::PageTableAllocationFailed) ==> final(pool)@.len() == 0 && w0 is Absent
                &&& r == Err::<(), MapError>(MapError::MappingConflict) ==> w0 is Mapped && w0 != Translation::Mapped(pa & PAGE_ADDRESS_MASK)
                &&& w0 is Absent && r is Ok ==> leaf_pte(final(self).mem(), cr3_root(cr3), va, 3) == Some(leaf_entry(pa, flags))
            }),
    {
        let ghost m0 = self.mem();
        let ghost p0 = pool@;
        let root = cr3 & PAGE_ADDRESS_MASK;
        proof {
            lemma_address_bound(cr3);
        }
        if hhdm.checked_add(root).is_none() {
            return Err(MapError::AddressOverflow);
        }
        let mut t = root;
        let mut level: u64 = 3;
        let mut done: Option<Result<(), MapError>> = None;
        let ghost mut absent_met = false;
        proof {
            assert(reaches(m0, root, 3, root, 3, va));
            lemma_typed_path_known(m0, old(self).lv(), root, va, 3);
        }
        while level > 0 && done.is_none()
            invariant
                self.wf(),
                typed(self.mem(), self.lv()),
                lv_extends(old(self).lv(), self.lv()),
                done.is_none() ==> self.mem().dom().contains(t) && self.lv()[t] == level as nat,
                fresh_frames(self.mem(), pool@),
                extends(m0, self.mem()),
                m0 == old(self).mem(),
                p0 == old(pool)@,
                root == cr3_root(cr3),
                level <= 3,
                pool@.len() <= p0.len(),
                pool@ == p0.subrange(0, pool@.len() as int),
                p0.len() - pool@.len() <= 3 - level + (if done.is_some() { 1int } else { 0int }),
                !absent_met ==> self.mem() == m0 && pool@ == p0,
                absent_met ==> walk(m0, root, va, 3) is Absent,
                done.is_none() ==> known_table(self.mem(), t) && reaches(self.mem(), root, 3, t, level as nat, va)
                    && path_known(self.mem(), t, va, level as nat) && t <= PAGE_ADDRESS_MASK,
                done.is_none() && absent_met ==> self.mem()[t] == zero_table(),
                done.is_some() ==> level >= 1,
                done matches Some(res) ==> match res {
                    Ok(_) => !absent_met && walk(m0, root, va, 3) is Huge,
                    Err(e) => (e == MapError::AddressOverflow && !hhdm_fits(hhdm)) || (e == MapError::PageTableAllocationFailed
                        && pool@.len() == 0 && absent_met && p0.len() + level <= 3),
                },
            decreases level + (if done.is_none() { 1int } else { 0int }),
        {
            let s = match self.find_table(t) {
                Some(s) => s,
                None => {
                    proof {
                        assert(false);
                    }
                    0
                },
            };
            let idx = page_table_index(va, 12 + 9 * level);
            let ghost mb = self.mem();
            let ghost pb = pool@;
            let ghost eb = mb[t][idx as int];
            proof {
                self.lemma_slot(s as int);
                lemma_table_index_bound(va, level as nat);
                if absent_met {
                    assert(eb == 0u64);
                    assert((0u64 & 1u64) == 0) by (bit_vector);
                }
            }
            let step = self.next_table(pool, hhdm, t, s, idx, level as u8, PAGE_PRESENT | PAGE_WRITABLE);
            proof {
                lemma_extends_trans(m0, mb, self.mem());
                assert(lv_extends(old(self).lv(), self.lv())) by {
                    assert forall|x: u64| #[trigger] old(self).lv().dom().contains(x) implies self.lv().dom().contains(x) && self.lv()[x] == old(self).lv()[x] by {
                    }
                }
                if !present(eb) && !absent_met {
                    lemma_reaches_walk(m0, root, 3, t, level as nat, va);
                }
            }
            match step {
                Err(e) => {
                    proof {
                        if e == MapError::AddressOverflow && hhdm_fits(hhdm) {
                            if present(eb) {
                                lemma_address_bound(eb);
                            } else {
                                assert(pb[pb.len() - 1] & !PAGE_ADDRESS_MASK == 0);
                                lemma_table_entry_bits(pb[pb.len() - 1], PAGE_PRESENT | PAGE_WRITABLE);
                            }
                            assert(false);
                        }
                        if !present(eb) {
                            absent_met = true;
                            if pb.len() > 0 {
                                assert(pool@ == pb.drop_last());
                                assert forall|k: int| 0 <= k < pool@.len() implies pool@[k] == p0[k] by {
                                    assert(pool@[k] == pb[k]);
                                }
                                assert(pool@ =~= p0.subrange(0, pool@.len() as int));
                            } else {
                                assert(pool@ == pb);
                            }
                        }
                    }
                    done = Some(Err(e));
                },
                Ok(NextTable::HugePage) => {
                    proof {
                        lemma_reaches_walk(m0, root, 3, t, level as nat, va);
                    }
                    done = Some(Ok(()));
                },
                Ok(NextTable::Table(n)) => {
                    proof {
                        let m1 = self.mem();
                        if present(eb) {
                            assert(m1 == mb);
                            assert(!huge(eb));
                            assert(n == entry_address(eb));
                            lemma_reaches_step(mb, root, 3, t, level as nat, va);
                            lemma_address_bound(eb);
                            assert(path_known(mb, t, va, level as nat));
                            assert(path_known(mb, entry_address(eb), va, (level - 1) as nat));
                        } else {
                            let f = pb.last();
                            assert(pb[pb.len() - 1] & !PAGE_ADDRESS_MASK == 0);
                            lemma_table_entry_bits(f, PAGE_PRESENT | PAGE_WRITABLE);
                            lemma_reaches_extends(mb, m1, root, 3, t, level as nat, va);
                            assert(m1[t][idx as int] == table_entry(f, PAGE_PRESENT | PAGE_WRITABLE));
                            lemma_reaches_step(m1, root, 3, t, level as nat, va);
                            lemma_zero_table_path(m1, f, va, (level - 1) as nat);
                            absent_met = true;
                            assert(pb.len() > 0);
                            assert(pool@ == pb.drop_last());
                            assert forall|k: int| 0 <= k < pool@.len() implies pool@[k] == p0[k] by {
                                assert(pool@[k] == pb[k]);
                            }
                            assert(pool@ =~= p0.subrange(0, pool@.len() as int));
                        }
                    }
                    t = n;
                    level = level - 1;
                },
            }
        }
        match done {
            Some(res) => {
                proof {
                    if res is Ok {
                        lemma_extends_keeps_walk(m0, self.mem(), root, va, 3);
                    }
                }
                return res;
            },
            None => {},
        }
        let s = match self.find_table(t) {
            Some(s) => s,
            None => {
                proof {
                    assert(false);
                }
                0
            },
        };
        let idx = page_table_index(va, 12);
        let ghost mb = self.mem();
        proof {
            self.lemma_slot(s as int);
            lemma_table_index_bound(va, 0);
            lemma_reaches_walk(mb, root, 3, t, 0, va);
            if absent_met {
                assert(mb[t][idx as int] == 0u64);
                assert((0u64 & 1u64) == 0) by (bit_vector);
            }
        }
        let e = self.entry(s, idx);
        if e & PAGE_PRESENT == 0 {
            let v = (pa & PAGE_ADDRESS_MASK) | PAGE_PRESENT | PAGE_WRITABLE | flags;
            self.set_entry(s, idx, v);
            proof {
                let m1 = self.mem();
                assert(typed(m1, self.lv())) by {
                    let lv = self.lv();
                    assert forall|x: u64| #[trigger] m1.dom().contains(x) implies lv.dom().contains(x) && known_table(m1, x) && lv[x] <= 3 by {
                        assert(mb.dom().contains(x));
                    }
                    assert forall|x: u64, i: int|
                        m1.dom().contains(x) && lv[x] > 0 && 0 <= i < TABLE_ENTRIES && present(#[trigger] m1[x][i]) && !huge(m1[x][i])
                        implies m1.dom().contains(entry_address(m1[x][i])) && lv[entry_address(m1[x][i])] == lv[x] - 1 by {
                        assert(x != t);
                        assert(m1[x][i] == mb[x][i]);
                    }
                }
                assert(extends(mb, m1)) by {
                    assert forall|x: u64, i: int|
                        known_table(mb, x) && 0 <= i < TABLE_ENTRIES && present(#[trigger] mb[x][i]) implies m1[x][i] == mb[x][i] by {
                        if x == t && i == idx {
                            assert(mb[x][i] == e);
                        }
                    }
                }
                lemma_extends_trans(m0, mb, m1);
                lemma_reaches_extends(mb, m1, root, 3, t, 0, va);
                lemma_reaches_walk(m1, root, 3, t, 0, va);
                lemma_leaf_entry_bits(pa, flags);
                assert(m1[t][idx as int] == leaf_entry(pa, flags));
                lemma_reaches_leaf(m1, root, 3, t, va);
                if !absent_met {
                    lemma_reaches_walk(m0, root, 3, t, 0, va);
                }
            }
            Ok(())
        } else if e & PAGE_ADDRESS_MASK != pa & PAGE_ADDRESS_MASK {
            proof {
                lemma_reaches_walk(m0, root, 3, t, 0, va);
            }
            Err(MapError::MappingConflict)
        } else {
            proof {
                lemma_reaches_walk(m0, root, 3, t, 0, va);
            }
            Ok(())
        }
    }
}

/// The walk does not look at the low 12 bits of the address.
pub proof fn lemma_walk_page_offset(m: TableMap, t: u64, va: u64, level: nat)
    requires
        level <= 3,
    ensures
        walk(m, t, va & !0xfffu64, level) == walk(m, t, va, level),
    decreases level,
{
    let s = (12 + 9 * level) as u64;
    assert(s == 12 + 9 * level);
    assert(s >= 12 ==> (((va & !0xfffu64) >> s) & 0x1ff) == ((va >> s) & 0x1ff)) by (bit_vector);
    assert(table_index(va & !0xfffu64, level) == table_index(va, level));
    if known_table(m, t) {
        let e = m[t][table_index(va, level)];
        if present(e) && level > 0 && !huge(e) {
            lemma_walk_page_offset(m, entry_address(e), va, (level - 1) as nat);
        }
    }
}

proof fn lemma_leaf_page_offset(m: TableMap, t: u64, va: u64, level: nat)
    requires
        level <= 3,
    ensures
        leaf_pte(m, t, va & !0xfffu64, level) == leaf_pte(m, t, va, level),
    decreases level,
{
    let s = (12 + 9 * level) as u64;
    assert(s == 12 + 9 * level);
    assert(s >= 12 ==> (((va & !0xfffu64) >> s) & 0x1ff) == ((va >> s) & 0x1ff)) by (bit_vector);
    assert(table_index(va & !0xfffu64, level) == table_index(va, level));
    if known_table(m, t) {
        let e = m[t][table_index(va, level)];
        if present(e) && level > 0 && !huge(e) {
            lemma_leaf_page_offset(m, entry_address(e), va, (level - 1) as nat);
        }
    }
}

pub proof fn lemma_aligned_between(p: u64, q: u64)
    requires
        p & 0xfff == 0,
        q & 0xfff == 0,
        p <= q,
        q < p + 4096,
    ensures
        q == p,
{
    assert((p & 0xfffu64) == 0 && (q & 0xfffu64) == 0 && p <= q && q < p + 4096 ==> q == p) by (bit_vector);
}

/// The page at `va` is covered: by a large page, or mapped to `pa`'s page.
pub open spec fn covered(m: TableMap, root: u64, va: u64, pa: u64) -> bool {
    walk(m, root, va, 3) is Huge || walk(m, root, va, 3) == Translation::Mapped(pa & PAGE_ADDRESS_MASK)
}

impl PageTableMemory {
    /// Maps the page holding `va` to the frame holding `pa`.
    pub fn map_virtual_page(&mut self, pool: &mut Vec<u64>, hhdm: u64, cr3: u64, va: u64, pa: u64, flags: u64) -> (r: Result<(), MapError>)
        requires
            old(self).wf(),
            fresh_frames(old(self).mem(), old(pool)@),
            typed(old(self).mem(), old(self).lv()),
            old(self).mem().dom().contains(cr3_root(cr3)),
            old(self).lv()[cr3_root(cr3)] == 3,
        ensures
            final(self).wf(),
            typed(final(self).mem(), final(self).lv()),
            lv_extends(old(self).lv(), final(self).lv()),
            extends(old(self).mem(), final(self).mem()),
            fresh_frames(final(self).mem(), final(pool)@),
            final(pool)@ == old(pool)@.subrange(0, final(pool)@.len() as int),
            ({
                let w0 = walk(old(self).mem(), cr3_root(cr3), va, 3);
                &&& hhdm_fits(hhdm) ==> r != Err::<(), MapError>(MapError::AddressOverflow)
                &&& r is Ok && flags & PAGE_ADDRESS_MASK == 0 ==> covered(final(self).mem(), cr3_root(cr3), va, pa)
                &&& !(w0 is Absent) ==> final(self).mem() == old(self).mem()
                &&& w0 is Mapped && hhdm_fits(hhdm) ==> r == (if w0 == Translation::Mapped(pa & PAGE_ADDRESS_MASK) {
                    Ok::<(), MapError>(())
                } else {
                    Err::<(), MapError>(MapError::MappingConflict)
                })
                &&& w0 is Absent && old(pool)@.len() >= 3 && hhdm_fits(hhdm) ==> r is Ok
                &&& r == Err::<(), MapError>(MapError::PageTableAllocationFailed) ==> final(pool)@.len() == 0
                &&& w0 is Absent && r is Ok ==> leaf_pte(final(self).mem(), cr3_root(cr3), va, 3) == Some(leaf_entry(pa, flags))
            }),
    {
        let ghost root = cr3_root(cr3);
        proof {
            lemma_walk_page_offset(self.mem(), root, va, 3);
            assert(((pa & !0xfffu64) & 0x000f_ffff_ffff_f000u64) == (pa & 0x000f_ffff_ffff_f000u64)) by (bit_vector);
        }
        let r = self.ensure_page_mapping(pool, hhdm, cr3, va & !0xfffu64, pa & !0xfffu64, flags);
        proof {
            lemma_walk_page_offset(self.mem(), root, va, 3);
            lemma_leaf_page_offset(self.mem(), root, va, 3);
            assert(((pa & !0xfffu64) & 0x000f_ffff_ffff_f000u64) == (pa & 0x000f_ffff_ffff_f000u64)) by (bit_vector);
        }
        r
    }

    /// Maps `length` bytes of physical memory from `phys` (at least one byte) at their
    /// direct-map addresses, page by page; returns the direct-map address of `phys`.
    pub fn ensure_region_mapped(&mut self, pool: &mut Vec<u64>, hhdm: u64, cr3: u64, phys: u64, length: u64, flags: u64) -> (r: Result<u64, MapError>)
        requires
            old(self).wf(),
            fresh_frames(old(self).mem(), old(pool)@),
            typed(old(self).mem(), old(self).lv()),
            old(self).mem().dom().contains(cr3_root(cr3)),
            old(self).lv()[cr3_root(cr3)] == 3,
        ensures
            final(self).wf(),
            typed(final(self).mem(), final(self).lv()),
            lv_extends(old(self).lv(), final(self).lv()),
            extends(old(self).mem(), final(self).mem()),
            fresh_frames(final(self).mem(), final(pool)@),
            hhdm + phys > u64::MAX ==> r == Err::<u64, MapError>(MapError::AddressOverflow),
            r matches Ok(v) ==> v == hhdm + phys,
            ({
                let last = phys + (if length == 0 { 1 } else { length as int }) - 1;
                r is Ok ==> last <= u64::MAX && forall|q: u64|
                    (phys & !0xfffu64) <= q <= ((last as u64) & !0xfffu64) && q & 0xfff == 0 && flags & PAGE_ADDRESS_MASK
                        == 0 ==> #[trigger] covered(final(self).mem(), cr3_root(cr3), (hhdm + q) as u64, q)
            }),
    {
        let ghost root = cr3_root(cr3);
        let ghost m0 = self.mem();
        let virtual_address = match hhdm.checked_add(phys) {
            Some(v) => v,
            None => return Err(MapError::AddressOverflow),
        };
        let span: u64 = if length == 0 { 0 } else { length - 1 };
        let last = match phys.checked_add(span) {
            Some(l) => l,
            None => return Err(MapError::AddressOverflow),
        };
        let start_page = phys & !0xfffu64;
        let end_page = last & !0xfffu64;
        proof {
            assert((start_page & 0xfffu64) == 0 && (end_page & 0xfffu64) == 0) by (bit_vector)
                requires
                    start_page == phys & !0xfffu64,
                    end_page == last & !0xfffu64,
            ;
            assert(start_page <= phys && phys <= last && end_page <= last && start_page <= end_page) by (bit_vector)
                requires
                    start_page == phys & !0xfffu64,
                    end_page == last & !0xfffu64,
                    phys <= last,
            ;
        }
        let mut page = start_page;
        let mut done: Option<MapError> = None;
        let mut finished = false;
        while !finished && done.is_none()
            invariant
                self.wf(),
                typed(self.mem(), self.lv()),
                lv_extends(old(self).lv(), self.lv()),
                extends(m0, self.mem()),
                m0 == old(self).mem(),
                root == cr3_root(cr3),
                fresh_frames(self.mem(), pool@),
                self.mem().dom().contains(root),
                self.lv()[root] == 3,
                page & 0xfff == 0,
                start_page <= page <= end_page,
                start_page & 0xfff == 0,
                end_page & 0xfff == 0,
                forall|q: u64|
                    start_page <= q < page && q & 0xfff == 0 && flags & PAGE_ADDRESS_MASK == 0 ==> #[trigger] covered(
                        self.mem(),
                        root,
                        (hhdm + q) as u64,
                        q,
                    ),
                finished ==> page == end_page && (flags & PAGE_ADDRESS_MASK == 0 ==> covered(self.mem(), root, (hhdm + page) as u64, page)),
            decreases end_page - page + (if finished || done.is_some() { 0int } else { 1int }),
        {
            let va = match hhdm.checked_add(page) {
                Some(v) => v,
                None => {
                    done = Some(MapError::AddressOverflow);
                    0
                },
            };
            if done.is_none() {
                let ghost mb = self.mem();
                let res = self.ensure_page_mapping(pool, hhdm, cr3, va, page, flags);
                proof {
                    lemma_extends_trans(m0, mb, self.mem());
                    assert forall|q: u64|
                        start_page <= q < page && q & 0xfff == 0 && flags & PAGE_ADDRESS_MASK == 0 implies #[trigger] covered(
                            self.mem(),
                            root,
                            (hhdm + q) as u64,
                            q,
                        ) by {
                        assert(covered(mb, root, (hhdm + q) as u64, q));
                        lemma_extends_keeps_walk(mb, self.mem(), root, (hhdm + q) as u64, 3);
                    }
                    assert(self.lv()[root] == 3);
                }
                match res {
                    Err(e) => {
                        done = Some(e);
                    },
                    Ok(()) => {
                        if page == end_page {
                            finished = true;
                        } else {
                            proof {
                                assert(page + 4096 <= end_page) by (bit_vector)
                                    requires
                                        page & 0xfffu64 == 0,
                                        end_page & 0xfffu64 == 0,
                                        page < end_page,
                                ;
                            }
                            let ghost prev = page;
                            page = page + 4096;
                            proof {
                                assert((page & 0xfffu64) == 0) by (bit_vector)
                                    requires
                                        page == prev + 4096,
                                        prev & 0xfffu64 == 0,
                                ;
                                assert forall|q: u64|
                                    start_page <= q < page && q & 0xfff == 0 && flags & PAGE_ADDRESS_MASK == 0 implies #[trigger] covered(
                                        self.mem(),
                                        root,
                                        (hhdm + q) as u64,
                                        q,
                                    ) by {
                                    if q >= prev {
                                        lemma_aligned_between(prev, q);
                                    }
                                }
                            }
                        }
                    },
                }
            }
        }
        match done {
            Some(e) => Err(e),
            None => {
                proof {
                    assert forall|q: u64|
                        (phys & !0xfffu64) <= q <= ((last as u64) & !0xfffu64) && q & 0xfff == 0 && flags
                            & PAGE_ADDRESS_MASK == 0 implies #[trigger] covered(self.mem(), cr3_root(cr3), (hhdm + q) as u64, q) by {
                        if q == end_page {
                        } else {
                            assert(q < page);
                        }
                    }
                }
                Ok(virtual_address)
            },
        }
    }
}

impl PageTableMemory {
    /// Removes the mapping of the page holding `va`, if there is one; returns the physical
    /// page it had. Tables are never made; a large page on the way is left alone.
    pub fn unmap_virtual_page(&mut self, hhdm: u64, cr3: u64, va: u64) -> (r: Result<Option<u64>, MapError>)
        requires
            old(self).wf(),
            typed(old(self).mem(), old(self).lv()),
            old(self).mem().dom().contains(cr3_root(cr3)),
            old(self).lv()[cr3_root(cr3)] == 3,
        ensures
            final(self).wf(),
            typed(final(self).mem(), final(self).lv()),
            final(self).lv() == old(self).lv(),
            ({
                let w0 = walk(old(self).mem(), cr3_root(cr3), va, 3);
                &&& hhdm_fits(hhdm) ==> r != Err::<Option<u64>, MapError>(MapError::AddressOverflow)
                &&& r matches Ok(Some(p)) ==> w0 == Translation::Mapped(p) && walk(final(self).mem(), cr3_root(cr3), va, 3) is Absent
                &&& (w0 matches Translation::Mapped(p) && hhdm_fits(hhdm)) ==> r == Ok::<Option<u64>, MapError>(Some(w0->0))
                &&& !(w0 is Mapped) ==> final(self).mem() == old(self).mem() && (hhdm_fits(hhdm) ==> r == Ok::<Option<u64>, MapError>(None))
                &&& r is Err ==> final(self).mem() == old(self).mem()
            }),
    {
        let ghost m0 = self.mem();
        let root = cr3 & PAGE_ADDRESS_MASK;
        proof {
            lemma_address_bound(cr3);
            lemma_walk_page_offset(m0, root, va, 3);
        }
        let page_address = va & !0xfffu64;
        if hhdm.checked_add(root).is_none() {
            return Err(MapError::AddressOverflow);
        }
        let mut t = root;
        let mut level: u64 = 3;
        let mut done: Option<Result<Option<u64>, MapError>> = None;
        proof {
            assert(reaches(m0, root, 3, root, 3, page_address));
            lemma_typed_path_known(m0, self.lv(), root, page_address, 3);
        }
        while level > 0 && done.is_none()
            invariant
                self.wf(),
                self.mem() == m0,
                m0 == old(self).mem(),
                self.lv() == old(self).lv(),
                typed(m0, self.lv()),
                root == cr3_root(cr3),
                level <= 3,
                walk(m0, root, va, 3) == walk(m0, root, page_address, 3),
                done.is_none() ==> m0.dom().contains(t) && self.lv()[t] == level as nat && reaches(m0, root, 3, t, level as nat, page_address)
                    && t <= PAGE_ADDRESS_MASK,
                done matches Some(res) ==> match res {
                    Ok(o) => o is None && !(walk(m0, root, va, 3) is Mapped),
                    Err(e) => e == MapError::AddressOverflow && !hhdm_fits(hhdm),
                },
            decreases level + (if done.is_none() { 1int } else { 0int }),
        {
            let s = match self.find_table(t) {
                Some(s) => s,
                None => {
                    proof {
                        assert(false);
                    }
                    0
                },
            };
            let idx = page_table_index(page_address, 12 + 9 * level);
            proof {
                self.lemma_slot(s as int);
                lemma_table_index_bound(page_address, level as nat);
                lemma_reaches_walk(m0, root, 3, t, level as nat, page_address);
            }
            let e = self.entry(s, idx);
            if e & PAGE_PRESENT == 0 || e & PAGE_HUGE != 0 {
                done = Some(Ok(None));
            } else {
                proof {
                    lemma_address_bound(e);
                    lemma_reaches_step(m0, root, 3, t, level as nat, page_address);
                }
                let next = e & PAGE_ADDRESS_MASK;
                if hhdm.checked_add(next).is_none() {
                    done = Some(Err(MapError::AddressOverflow));
                } else {
                    t = next;
                    level = level - 1;
                }
            }
        }
        match done {
            Some(res) => {
                return res;
            },
            None => {},
        }
        let s = match self.find_table(t) {
            Some(s) => s,
            None => {
                proof {
                    assert(false);
                }
                0
            },
        };
        let idx = page_table_index(page_address, 12);
        proof {
            self.lemma_slot(s as int);
            lemma_table_index_bound(page_address, 0);
            lemma_reaches_walk(m0, root, 3, t, 0, page_address);
        }
        let e = self.entry(s, idx);
        if e & PAGE_PRESENT == 0 {
            return Ok(None);
        }
        self.set_entry(s, idx, 0);
        proof {
            let m1 = self.mem();
            assert((0u64 & 1u64) == 0) by (bit_vector);
            assert(typed(m1, self.lv())) by {
                let lv = self.lv();
                assert forall|x: u64| #[trigger] m1.dom().contains(x) implies lv.dom().contains(x) && known_table(m1, x) && lv[x] <= 3 by {
                    assert(m0.dom().contains(x));
                }
                assert forall|x: u64, i: int|
                    m1.dom().contains(x) && lv[x] > 0 && 0 <= i < TABLE_ENTRIES && present(#[trigger] m1[x][i]) && !huge(m1[x][i])
                    implies m1.dom().contains(entry_address(m1[x][i])) && lv[entry_address(m1[x][i])] == lv[x] - 1 by {
                    assert(x != t);
                    assert(m1[x][i] == m0[x][i]);
                }
            }
            lemma_unmap_walk(m0, m1, root, t, idx as int, page_address, self.lv());
            lemma_walk_page_offset(m1, root, va, 3);
        }
        Ok(Some(e & PAGE_ADDRESS_MASK))
    }
}

/// The walk to a table of the last level still reaches it once one of its entries is
/// cleared, and then finds that entry clear.
proof fn lemma_unmap_walk(m0: TableMap, m1: TableMap, root: u64, t: u64, i: int, va: u64, lv: Map<u64, nat>)
    requires
        typed(m0, lv),
        m0.dom().contains(t),
        lv[t] == 0,
        i == table_index(va, 0),
        0 <= i < TABLE_ENTRIES,
        m1 == m0.insert(t, m0[t].update(i, 0u64)),
        reaches(m0, root, 3, t, 0, va),
        m0.dom().contains(root),
        lv[root] == 3,
    ensures
        walk(m1, root, va, 3) is Absent,
{
    lemma_reaches_unmap(m0, m1, root, 3, t, va, lv);
    lemma_reaches_walk(m1, root, 3, t, 0, va);
    assert((0u64 & 1u64) == 0) by (bit_vector);
}

proof fn lemma_reaches_unmap(m0: TableMap, m1: TableMap, from: u64, lf: nat, t: u64, va: u64, lv: Map<u64, nat>)
    requires
        typed(m0, lv),
        m0.dom().contains(t),
        lv[t] == 0,
        m1 == m0.insert(t, m0[t].update(table_index(va, 0), 0u64)),
        reaches(m0, from, lf, t, 0, va),
        m0.dom().contains(from),
        lv[from] == lf,
    ensures
        reaches(m1, from, lf, t, 0, va),
    decreases lf,
{
    if lf > 0 {
        assert(from != t);
        lemma_table_index_bound(va, lf);
        let e = m0[from][table_index(va, lf)];
        assert(m1[from] == m0[from]);
        lemma_reaches_unmap(m0, m1, entry_address(e), (lf - 1) as nat, t, va, lv);
    }
}

/// Where process page tables see physical memory.
pub const VMM_DIRECT_MAP: u64 = 0xFFFF_8000_0000_0000;
/// Physical addresses below this fit the process direct map.
pub const VMM_PHYS_LIMIT: u64 = 0x0000_8000_0000_0000;

/// Along the walk for `va`, every present entry above the last level is a plain table
/// pointer: not a large page, no bits above the address, and a table the direct map
/// reaches.
pub open spec fn vmm_path_ok(m: TableMap, t: u64, va: u64, level: nat) -> bool
    decreases level,
{
    known_table(m, t) && t < VMM_PHYS_LIMIT && ({
        let e = m[t][table_index(va, level)];
        level > 0 && present(e) ==> !huge(e) && e & !0xfffu64 == entry_address(e) && vmm_path_ok(
            m,
            entry_address(e),
            va,
            (level - 1) as nat,
        )
    })
}

/// Frames below the process direct-map limit.
pub open spec fn low_frames(pool: Seq<u64>) -> bool {
    forall|k: int| 0 <= k < pool.len() ==> #[trigger] pool[k] < VMM_PHYS_LIMIT
}

proof fn lemma_vmm_zero_path(m: TableMap, t: u64, va: u64, level: nat)
    requires
        known_table(m, t),
        t < VMM_PHYS_LIMIT,
        m[t] == zero_table(),
    ensures
        vmm_path_ok(m, t, va, level),
{
    lemma_table_index_bound(va, level);
    assert(m[t][table_index(va, level)] == 0u64);
    assert((0u64 & 1u64) == 0) by (bit_vector);
}

impl PageTableMemory {
    /// Backs the page holding `vaddr` in a process's tables: missing tables are made
    /// user-accessible from `pool`, and a missing page gets the next frame of `pool`
    /// with `flags` as its entry bits. False when the frames ran out.
    pub fn map_page(&mut self, pool: &mut Vec<u64>, cr3: u64, vaddr: u64, flags: u64) -> (r: bool)
        requires
            old(self).wf(),
            fresh_frames(old(self).mem(), old(pool)@),
            low_frames(old(pool)@),
            typed(old(self).mem(), old(self).lv()),
            cr3 & !0xfffu64 == cr3_root(cr3),
            old(self).mem().dom().contains(cr3_root(cr3)),
            old(self).lv()[cr3_root(cr3)] == 3,
            vmm_path_ok(old(self).mem(), cr3_root(cr3), vaddr, 3),
        ensures
            final(self).wf(),
            typed(final(self).mem(), final(self).lv()),
            lv_extends(old(self).lv(), final(self).lv()),
            extends(old(self).mem(), final(self).mem()),
            final(pool)@.len() <= old(pool)@.len(),
            final(pool)@ == old(pool)@.subrange(0, final(pool)@.len() as int),
            ({
                let w0 = walk(old(self).mem(), cr3_root(cr3), vaddr, 3);
                let w1 = walk(final(self).mem(), cr3_root(cr3), vaddr, 3);
                &&& w0 is Mapped ==> r && final(self).mem() == old(self).mem() && final(pool)@ == old(pool)@
                &&& !r ==> final(pool)@.len() == 0
                &&& w0 is Absent && old(pool)@.len() >= 4 ==> r
                &&& r && w0 is Absent ==> final(pool)@.len() < old(pool)@.len() && w1 == (if present(
                    old(pool)@[final(pool)@.len() as int] | flags,
                ) {
                    Translation::Mapped(entry_address(old(pool)@[final(pool)@.len() as int] | flags))
                } else {
                    Translation::Absent
                })
            }),
    {
        let ghost m0 = self.mem();
        let ghost p0 = pool@;
        let root = cr3 & !0xfffu64;
        let mut t = root;
        let mut level: u64 = 3;
        let mut failed = false;
        let ghost mut absent_met = false;
        proof {
            assert(reaches(m0, root, 3, root, 3, vaddr));
            lemma_typed_path_known(m0, self.lv(), root, vaddr, 3);
        }
        while level > 0 && !failed
            invariant
                self.wf(),
                typed(self.mem(), self.lv()),
                lv_extends(old(self).lv(), self.lv()),
                extends(m0, self.mem()),
                m0 == old(self).mem(),
                p0 == old(pool)@,
                root == cr3_root(cr3),
                level <= 3,
                fresh_frames(self.mem(), pool@),
                low_frames(pool@),
                pool@.len() <= p0.len(),
                pool@ == p0.subrange(0, pool@.len() as int),
                p0.len() - pool@.len() <= 3 - level,
                !absent_met ==> self.mem() == m0 && pool@ == p0,
                absent_met ==> walk(m0, root, vaddr, 3) is Absent,
                !failed ==> self.mem().dom().contains(t) && self.lv()[t] == level as nat && known_table(self.mem(), t)
                    && reaches(self.mem(), root, 3, t, level as nat, vaddr) && vmm_path_ok(self.mem(), t, vaddr, level as nat),
                !failed && absent_met ==> self.mem()[t] == zero_table(),
                failed ==> pool@.len() == 0 && absent_met && p0.len() + level <= 3,
            decreases level + (if failed { 0int } else { 1int }),
        {
            let s = match self.find_table(t) {
                Some(s) => s,
                None => {
                    proof {
                        assert(false);
                    }
                    0
                },
            };
            let idx = page_table_index(vaddr, 12 + 9 * level);
            let ghost mb = self.mem();
            let ghost pb = pool@;
            let ghost eb = mb[t][idx as int];
            proof {
                self.lemma_slot(s as int);
                lemma_table_index_bound(vaddr, level as nat);
                if absent_met {
                    assert(eb == 0u64);
                    assert((0u64 & 1u64) == 0) by (bit_vector);
                }
                if present(eb) {
                    lemma_address_bound(eb);
                }
            }
            let step = self.next_table(pool, VMM_DIRECT_MAP, t, s, idx, level as u8, PAGE_PRESENT | PAGE_WRITABLE | PAGE_USER);
            proof {
                lemma_extends_trans(m0, mb, self.mem());
                assert(lv_extends(old(self).lv(), self.lv())) by {
                    assert forall|x: u64| #[trigger] old(self).lv().dom().contains(x) implies self.lv().dom().contains(x) && self.lv()[x] == old(self).lv()[x] by {
                    }
                }
                if !present(eb) && !absent_met {
                    lemma_reaches_walk(m0, root, 3, t, level as nat, vaddr);
                }
            }
            match step {
                Err(e) => {
                    proof {
                        if e == MapError::AddressOverflow {
                            if present(eb) {
                                assert(vmm_path_ok(mb, t, vaddr, level as nat));
                                assert(vmm_path_ok(mb, entry_address(eb), vaddr, (level - 1) as nat));
                                assert(entry_address(eb) < VMM_PHYS_LIMIT);
                            } else {
                                assert(pb[pb.len() - 1] < VMM_PHYS_LIMIT);
                            }
                            assert(false);
                        }
                        absent_met = true;
                    }
                    failed = true;
                },
                Ok(NextTable::HugePage) => {
                    proof {
                        assert(false);
                    }
                },
                Ok(NextTable::Table(n)) => {
                    proof {
                        let m1 = self.mem();
                        if present(eb) {
                            assert(m1 == mb);
                            lemma_reaches_step(mb, root, 3, t, level as nat, vaddr);
                        } else {
                            let f = pb.last();
                            assert(pb[pb.len() - 1] & !PAGE_ADDRESS_MASK == 0);
                            assert(pb[pb.len() - 1] < VMM_PHYS_LIMIT);
                            lemma_table_entry_bits(f, PAGE_PRESENT | PAGE_WRITABLE | PAGE_USER);
                            lemma_reaches_extends(mb, m1, root, 3, t, level as nat, vaddr);
                            lemma_reaches_step(m1, root, 3, t, level as nat, vaddr);
                            lemma_zero_table_path(m1, f, vaddr, (level - 1) as nat);
                            lemma_vmm_zero_path(m1, f, vaddr, (level - 1) as nat);
                            absent_met = true;
                            assert(pb.len() > 0);
                            assert(pool@ == pb.drop_last());
                            assert forall|k: int| 0 <= k < pool@.len() implies pool@[k] == p0[k] by {
                                assert(pool@[k] == pb[k]);
                            }
                            assert(pool@ =~= p0.subrange(0, pool@.len() as int));
                            assert forall|k: int| 0 <= k < pool@.len() implies #[trigger] pool@[k] < VMM_PHYS_LIMIT by {
                                assert(pool@[k] == pb[k]);
                            }
                        }
                    }
                    t = n;
                    level = level - 1;
                },
            }
        }
        if failed {
            return false;
        }
        let s = match self.find_table(t) {
            Some(s) => s,
            None => {
                proof {
                    assert(false);
                }
                0
            },
        };
        let idx = page_table_index(vaddr, 12);
        let ghost mb = self.mem();
        proof {
            self.lemma_slot(s as int);
            lemma_table_index_bound(vaddr, 0);
            lemma_reaches_walk(mb, root, 3, t, 0, vaddr);
            if absent_met {
                assert(mb[t][idx as int] == 0u64);
                assert((0u64 & 1u64) == 0) by (bit_vector);
            } else {
                lemma_reaches_walk(m0, root, 3, t, 0, vaddr);
            }
        }
        let e = self.entry(s, idx);
        if e & PAGE_PRESENT != 0 {
            return true;
        }
        let ghost pb = pool@;
        let frame = match pool.pop() {
            Some(f) => f,
            None => {
                return false;
            },
        };
        proof {
            assert(pool@ == pb.drop_last());
            assert forall|k: int| 0 <= k < pool@.len() implies pool@[k] == p0[k] by {
                assert(pool@[k] == pb[k]);
            }
            assert(pool@ =~= p0.subrange(0, pool@.len() as int));
            assert(frame == p0[pool@.len() as int]);
        }
        let v = frame | flags;
        self.set_entry(s, idx, v);
        proof {
            let m1 = self.mem();
            assert(extends(mb, m1)) by {
                assert forall|x: u64, i: int|
                    known_table(mb, x) && 0 <= i < TABLE_ENTRIES && present(#[trigger] mb[x][i]) implies m1[x][i] == mb[x][i] by {
                    if x == t && i == idx {
                        assert(mb[x][i] == e);
                    }
                }
            }
            assert(typed(m1, self.lv())) by {
                let lv = self.lv();
                assert forall|x: u64| #[trigger] m1.dom().contains(x) implies lv.dom().contains(x) && known_table(m1, x) && lv[x] <= 3 by {
                    assert(mb.dom().contains(x));
                }
                assert forall|x: u64, i: int|
                    m1.dom().contains(x) && lv[x] > 0 && 0 <= i < TABLE_ENTRIES && present(#[trigger] m1[x][i]) && !huge(m1[x][i])
                    implies m1.dom().contains(entry_address(m1[x][i])) && lv[entry_address(m1[x][i])] == lv[x] - 1 by {
                    assert(x != t);
                    assert(m1[x][i] == mb[x][i]);
                }
            }
            lemma_extends_trans(m0, mb, m1);
            lemma_reaches_extends(mb, m1, root, 3, t, 0, vaddr);
            lemma_reaches_walk(m1, root, 3, t, 0, vaddr);
            assert(m1[t][idx as int] == v);
            assert(fresh_frames(m1, pool@)) by {
                assert forall|k: int| 0 <= k < pool@.len() implies !m1.dom().contains(#[trigger] pool@[k]) by {
                    assert(pool@[k] == pb[k]);
                }
                assert forall|k: int| 0 <= k < pool@.len() implies #[trigger] pool@[k] & !PAGE_ADDRESS_MASK == 0 by {
                    assert(pool@[k] == pb[k]);
                }
            }
        }
        true
    }
}

} // verus!
