//! CPU identification: the vendor, brand and leaf limits, and the processor topology from
//! the extended topology leaves. The decoding works on register values; only the queries
//! touch the processor.
use vstd::prelude::*;
use crate::cpuid_query::{answer_regs, cpuid_leaf, cpuid_subleaf, CpuidAnswer};

verus! {

pub const CPUID_LEAF_EXTENDED_TOPOLOGY: u32 = 0x0b;
pub const CPUID_LEAF_EXTENDED_TOPOLOGY_V2: u32 = 0x1f;
pub const MAX_TOPOLOGY_LEVELS: usize = 4;

/// The four registers a CPUID query returns.
#[derive(Copy, Clone, Debug, PartialEq, Eq, Structural)]
pub struct CpuidRegs {
    pub eax: u32,
    pub ebx: u32,
    pub ecx: u32,
    pub edx: u32,
}

/// Asks CPUID for `leaf` (subleaf zero).
pub fn query(leaf: u32) -> (r: CpuidAnswer)
    ensures
        r.leaf() == leaf,
        r.subleaf() == 0,
{
    cpuid_leaf(leaf)
}

/// Asks CPUID for `leaf` and `subleaf`.
pub fn query_count(leaf: u32, subleaf: u32) -> (r: CpuidAnswer)
    ensures
        r.leaf() == leaf,
        r.subleaf() == subleaf,
{
    cpuid_subleaf(leaf, subleaf)
}

/// The highest basic leaf: EAX of leaf 0.
pub fn max_basic_leaf() -> (r: u32)
    ensures
        exists|a: CpuidAnswer| #![trigger a.regs()] a.leaf() == 0 && r == a.regs().eax,
{
    let a = query(0);
    a.registers().eax
}

/// The highest extended leaf: EAX of leaf 0x8000_0000.
pub fn max_extended_leaf() -> (r: u32)
    ensures
        exists|a: CpuidAnswer| #![trigger a.regs()] a.leaf() == 0x8000_0000 && r == a.regs().eax,
{
    let a = query(0x8000_0000);
    a.registers().eax
}

#[derive(Copy, Clone, Debug, PartialEq, Eq, Structural)]
pub enum CpuVendor {
    Intel,
    Amd,
    Unknown,
}

impl CpuVendor {
    pub fn as_str(self) -> (s: &'static str)
        ensures
            self == CpuVendor::Intel ==> s@ == "intel"@,
            self == CpuVendor::Amd ==> s@ == "amd"@,
            self == CpuVendor::Unknown ==> s@ == "unknown"@,
    {
        match self {
            CpuVendor::Intel => "intel",
            CpuVendor::Amd => "amd",
            CpuVendor::Unknown => "unknown",
        }
    }
}

/// The four bytes of `x`, least significant first.
pub open spec fn le_bytes(x: u32) -> Seq<u8> {
    seq![(x & 0xff) as u8, ((x >> 8u32) & 0xff) as u8, ((x >> 16u32) & 0xff) as u8, ((x >> 24u32) & 0xff) as u8]
}

/// The vendor named by the vendor string in `ebx`, `edx`, `ecx`: "GenuineIntel" or
/// "AuthenticAMD".
pub open spec fn vendor_of(ebx: u32, edx: u32, ecx: u32) -> CpuVendor {
    if ebx == 0x756e_6547 && edx == 0x4965_6e69 && ecx == 0x6c65_746e {
        CpuVendor::Intel
    } else if ebx == 0x6874_7541 && edx == 0x6974_6e65 && ecx == 0x444d_4163 {
        CpuVendor::Amd
    } else {
        CpuVendor::Unknown
    }
}

/// What the CPU says about itself.
#[derive(Copy, Clone, Debug)]
pub struct CpuIdentity {
    pub vendor: CpuVendor,
    pub vendor_id: [u8; 12],
    pub brand: [u8; 48],
    pub max_basic_leaf: u32,
    pub max_extended_leaf: u32,
    pub hypervisor_present: bool,
}

/// The brand string bytes from the three brand leaves.
pub open spec fn brand_bytes(b: Seq<CpuidRegs>) -> Seq<u8> {
    le_bytes(b[0].eax) + le_bytes(b[0].ebx) + le_bytes(b[0].ecx) + le_bytes(b[0].edx) + le_bytes(b[1].eax) + le_bytes(
        b[1].ebx,
    ) + le_bytes(b[1].ecx) + le_bytes(b[1].edx) + le_bytes(b[2].eax) + le_bytes(b[2].ebx) + le_bytes(b[2].ecx)
        + le_bytes(b[2].edx)
}

/// Whether `id` is what leaf 0, leaf 1, the extended limit and the brand leaves describe.
pub open spec fn identity_of(
    leaf0: CpuidRegs,
    max_ext: u32,
    leaf1: CpuidRegs,
    brand: Seq<CpuidRegs>,
    id: CpuIdentity,
) -> bool {
    &&& id.vendor == vendor_of(leaf0.ebx, leaf0.edx, leaf0.ecx)
    &&& id.vendor_id@ == le_bytes(leaf0.ebx) + le_bytes(leaf0.edx) + le_bytes(leaf0.ecx)
    &&& id.max_basic_leaf == leaf0.eax
    &&& id.max_extended_leaf == max_ext
    &&& id.hypervisor_present == (leaf1.ecx & 0x8000_0000u32 != 0)
    &&& id.brand@ == if max_ext >= 0x8000_0004 && brand.len() == 3 {
        brand_bytes(brand)
    } else {
        Seq::new(48, |i: int| 0u8)
    }
}

fn put_le(out: &mut [u8; 48], off: usize, x: u32)
    requires
        off + 4 <= 48,
    ensures
        final(out)@ == old(out)@.subrange(0, off as int) + le_bytes(x) + old(out)@.subrange(off + 4, 48),
{
    out[off] = (x & 0xff) as u8;
    out[off + 1] = ((x >> 8u32) & 0xff) as u8;
    out[off + 2] = ((x >> 16u32) & 0xff) as u8;
    out[off + 3] = ((x >> 24u32) & 0xff) as u8;
    assert(out@ =~= old(out)@.subrange(0, off as int) + le_bytes(x) + old(out)@.subrange(off + 4, 48));
}

/// Decodes the identity from leaf 0, the extended limit, leaf 1 and, when the limit reaches
/// them, the three brand leaves.
pub fn decode_identity(leaf0: CpuidRegs, max_ext: u32, leaf1: CpuidRegs, brand_leaves: &[CpuidRegs]) -> (id: CpuIdentity)
    ensures
        identity_of(leaf0, max_ext, leaf1, brand_leaves@, id),
{
    let vendor_id: [u8; 12] = [
        (leaf0.ebx & 0xff) as u8,
        ((leaf0.ebx >> 8u32) & 0xff) as u8,
        ((leaf0.ebx >> 16u32) & 0xff) as u8,
        ((leaf0.ebx >> 24u32) & 0xff) as u8,
        (leaf0.edx & 0xff) as u8,
        ((leaf0.edx >> 8u32) & 0xff) as u8,
        ((leaf0.edx >> 16u32) & 0xff) as u8,
        ((leaf0.edx >> 24u32) & 0xff) as u8,
        (leaf0.ecx & 0xff) as u8,
        ((leaf0.ecx >> 8u32) & 0xff) as u8,
        ((leaf0.ecx >> 16u32) & 0xff) as u8,
        ((leaf0.ecx >> 24u32) & 0xff) as u8,
    ];
    assert(vendor_id@ =~= le_bytes(leaf0.ebx) + le_bytes(leaf0.edx) + le_bytes(leaf0.ecx));
    let vendor = if leaf0.ebx == 0x756e_6547 && leaf0.edx == 0x4965_6e69 && leaf0.ecx == 0x6c65_746e {
        CpuVendor::Intel
    } else if leaf0.ebx == 0x6874_7541 && leaf0.edx == 0x6974_6e65 && leaf0.ecx == 0x444d_4163 {
        CpuVendor::Amd
    } else {
        CpuVendor::Unknown
    };
    let mut brand = [0u8; 48];
    assert(brand@ =~= Seq::new(48, |i: int| 0u8));
    if max_ext >= 0x8000_0004 && brand_leaves.len() == 3 {
        let mut i: usize = 0;
        while i < 3
            invariant
                i <= 3,
                brand_leaves@.len() == 3,
                brand@.subrange(0, 16 * i) == brand_bytes(brand_leaves@).subrange(0, 16 * i),
                brand@.len() == 48,
            decreases 3 - i,
        {
            let r = brand_leaves[i];
            let off = i * 16;
            let ghost before = brand@;
            put_le(&mut brand, off, r.eax);
            put_le(&mut brand, off + 4, r.ebx);
            put_le(&mut brand, off + 8, r.ecx);
            put_le(&mut brand, off + 12, r.edx);
            assert(brand@.subrange(0, off as int) =~= before.subrange(0, off as int));
            assert(brand@.subrange(off as int, off + 16) =~= le_bytes(r.eax) + le_bytes(r.ebx) + le_bytes(r.ecx)
                + le_bytes(r.edx));
            assert(brand_bytes(brand_leaves@).subrange(off as int, off + 16) =~= le_bytes(r.eax) + le_bytes(r.ebx)
                + le_bytes(r.ecx) + le_bytes(r.edx));
            assert(brand@.subrange(0, off + 16) =~= brand@.subrange(0, off as int) + brand@.subrange(
                off as int,
                off + 16,
            ));
            assert(brand_bytes(brand_leaves@).subrange(0, off + 16) =~= brand_bytes(brand_leaves@).subrange(
                0,
                off as int,
            ) + brand_bytes(brand_leaves@).subrange(off as int, off + 16));
            i = i + 1;
        }
        assert(brand@ =~= brand@.subrange(0, 48));
        assert(brand_bytes(brand_leaves@) =~= brand_bytes(brand_leaves@).subrange(0, 48));
    }
    CpuIdentity {
        vendor,
        vendor_id,
        brand,
        max_basic_leaf: leaf0.eax,
        max_extended_leaf: max_ext,
        hypervisor_present: (leaf1.ecx & 0x8000_0000u32) != 0,
    }
}

/// Whether `a0`, `ext`, `a1` and `brand` answer leaf 0, leaf 0x8000_0000, leaf 1 and, when
/// the extended limit reaches them, the brand leaves 0x8000_0002 to 0x8000_0004 in order.
pub open spec fn identity_answers(a0: CpuidAnswer, ext: CpuidAnswer, a1: CpuidAnswer, brand: Seq<CpuidAnswer>) -> bool {
    &&& a0.leaf() == 0
    &&& ext.leaf() == 0x8000_0000
    &&& a1.leaf() == 1
    &&& brand.len() == (if ext.regs().eax >= 0x8000_0004 { 3int } else { 0int })
    &&& forall|i: int| 0 <= i < brand.len() ==> #[trigger] brand[i].leaf() == 0x8000_0002 + i
}

/// Reads the CPU's identity: what leaf 0, leaf 1, the extended limit and, when that limit
/// reaches them, the three brand leaves say.
pub fn read_identity() -> (id: CpuIdentity)
    ensures
        exists|a0: CpuidAnswer, ext: CpuidAnswer, a1: CpuidAnswer, brand: Seq<CpuidAnswer>|
            #[trigger] identity_answers(a0, ext, a1, brand) && identity_of(
                a0.regs(),
                ext.regs().eax,
                a1.regs(),
                answer_regs(brand),
                id,
            ),
{
    let vendor_leaf = query(0);
    let ext = query(0x8000_0000);
    let max_ext = ext.registers().eax;
    let leaf_1 = query(1);
    let mut answers: Vec<CpuidAnswer> = Vec::new();
    let mut brand: Vec<CpuidRegs> = Vec::new();
    if max_ext >= 0x8000_0004 {
        let b0 = query(0x8000_0002);
        let b1 = query(0x8000_0003);
        let b2 = query(0x8000_0004);
        answers.push(b0);
        answers.push(b1);
        answers.push(b2);
        brand.push(b0.registers());
        brand.push(b1.registers());
        brand.push(b2.registers());
    }
    assert(brand@ =~= answer_regs(answers@));
    let id = decode_identity(vendor_leaf.registers(), max_ext, leaf_1.registers(), brand.as_slice());
    assert(identity_answers(vendor_leaf, ext, leaf_1, answers@));
    id
}

#[derive(Copy, Clone, Debug, PartialEq, Eq, Structural)]
pub enum TopologyLeafKind {
    Leaf0x0b,
    Leaf0x1f,
}

impl TopologyLeafKind {
    pub fn as_str(self) -> (s: &'static str)
        ensures
            self == TopologyLeafKind::Leaf0x0b ==> s@ == "0x0b"@,
            self == TopologyLeafKind::Leaf0x1f ==> s@ == "0x1f"@,
    {
        match self {
            TopologyLeafKind::Leaf0x0b => "0x0b",
            TopologyLeafKind::Leaf0x1f => "0x1f",
        }
    }
}

#[derive(Copy, Clone, Debug, PartialEq, Eq, Structural)]
pub enum TopologyLevelType {
    Invalid,
    Smt,
    Core,
    Unknown(u8),
}

impl TopologyLevelType {
    pub fn as_str(self) -> (s: &'static str)
        ensures
            self == TopologyLevelType::Invalid ==> s@ == "invalid"@,
            self == TopologyLevelType::Smt ==> s@ == "smt"@,
            self == TopologyLevelType::Core ==> s@ == "core"@,
            self is Unknown ==> s@ == "unknown"@,
    {
        match self {
            TopologyLevelType::Invalid => "invalid",
            TopologyLevelType::Smt => "smt",
            TopologyLevelType::Core => "core",
            TopologyLevelType::Unknown(_) => "unknown",
        }
    }
}

pub open spec fn level_type_of(raw: u8) -> TopologyLevelType {
    if raw == 0 {
        TopologyLevelType::Invalid
    } else if raw == 1 {
        TopologyLevelType::Smt
    } else if raw == 2 {
        TopologyLevelType::Core
    } else {
        TopologyLevelType::Unknown(raw)
    }
}

pub fn parse_topology_level_type(raw: u8) -> (t: TopologyLevelType)
    ensures
        t == level_type_of(raw),
{
    match raw {
        0 => TopologyLevelType::Invalid,
        1 => TopologyLevelType::Smt,
        2 => TopologyLevelType::Core,
        value => TopologyLevelType::Unknown(value),
    }
}

/// The low `width` bits set.
pub open spec fn mask_of(width: u8) -> u32 {
    if width >= 32 {
        u32::MAX
    } else if width == 0 {
        0
    } else {
        ((1u32 << width) - 1) as u32
    }
}

pub fn bitmask(width: u8) -> (m: u32)
    ensures
        m == mask_of(width),
{
    if width >= 32 {
        u32::MAX
    } else if width == 0 {
        0
    } else {
        assert(1u32 << width >= 1) by (bit_vector)
            requires
                width < 32,
        ;
        (1u32 << width) - 1
    }
}

#[derive(Copy, Clone, Debug, PartialEq, Eq, Structural)]
pub struct TopologyLevel {
    pub level_number: u8,
    pub level_type: TopologyLevelType,
    pub shift: u8,
    pub logical_processors: u16,
    pub x2apic_id: u32,
}

impl TopologyLevel {
    pub open spec fn empty_spec() -> TopologyLevel {
        TopologyLevel {
            level_number: 0,
            level_type: TopologyLevelType::Invalid,
            shift: 0,
            logical_processors: 0,
            x2apic_id: 0,
        }
    }

    pub fn empty() -> (l: Self)
        ensures
            l == TopologyLevel::empty_spec(),
    {
        TopologyLevel {
            level_number: 0,
            level_type: TopologyLevelType::Invalid,
            shift: 0,
            logical_processors: 0,
            x2apic_id: 0,
        }
    }
}

#[derive(Copy, Clone, Debug)]
pub struct CpuTopologyInfo {
    pub leaf_kind: TopologyLeafKind,
    pub level_count: usize,
    pub levels: [TopologyLevel; 4],
    pub x2apic_id: u32,
    pub smt_shift: u8,
    pub core_shift: u8,
    pub threads_per_core: u16,
    pub logical_processors_per_package: u16,
    pub smt_id: u32,
    pub core_id: u32,
    pub package_id: u32,
}

proof fn lemma_low5(x: u32)
    ensures
        ((x & 0x1f) as u8) < 32,
{
    assert(((x & 0x1f) as u8) < 32) by (bit_vector);
}

/// Whether a subleaf result ends the level list: no processors or an invalid level type.
pub open spec fn ends_levels(r: CpuidRegs) -> bool {
    (r.ebx & 0xffff) as u16 == 0 || ((r.ecx >> 8u32) & 0xff) as u8 == 0
}

/// The level a subleaf result describes.
pub open spec fn level_of(r: CpuidRegs) -> TopologyLevel {
    TopologyLevel {
        level_number: (r.ecx & 0xff) as u8,
        level_type: level_type_of(((r.ecx >> 8u32) & 0xff) as u8),
        shift: (r.eax & 0x1f) as u8,
        logical_processors: (r.ebx & 0xffff) as u16,
        x2apic_id: r.edx,
    }
}

/// The number of levels before the first ending result, among the first four.
pub open spec fn level_count_of(rs: Seq<CpuidRegs>, i: int) -> int
    decreases 4 - i,
{
    if i >= 4 || i >= rs.len() || ends_levels(rs[i]) { i } else { level_count_of(rs, i + 1) }
}

proof fn lemma_level_count_from(rs: Seq<CpuidRegs>, i: int)
    requires
        0 <= i,
    ensures
        level_count_of(rs, i) >= i,
    decreases 4 - i,
{
    if !(i >= 4 || i >= rs.len() || ends_levels(rs[i])) {
        lemma_level_count_from(rs, i + 1);
    }
}

pub open spec fn at_least_one(x: u16) -> u16 {
    if x == 0 { 1 } else { x }
}

/// The running summary over the first `n` levels: x2APIC id, SMT shift, core shift,
/// threads per core, logical processors per package.
pub open spec fn topo_fold(rs: Seq<CpuidRegs>, n: int) -> (u32, u8, u8, u16, u16)
    decreases n,
{
    if n <= 0 {
        (0, 0, 0, 1, 1)
    } else {
        let (x, s, c, t, p) = topo_fold(rs, n - 1);
        let l = level_of(rs[n - 1]);
        match l.level_type {
            TopologyLevelType::Smt => (l.x2apic_id, l.shift, c, at_least_one(l.logical_processors), p),
            TopologyLevelType::Core => (l.x2apic_id, s, l.shift, t, at_least_one(l.logical_processors)),
            _ => (l.x2apic_id, s, c, t, p),
        }
    }
}

/// Whether `t` is the topology the subleaf results `rs` describe.
pub open spec fn topology_of(kind: TopologyLeafKind, rs: Seq<CpuidRegs>, t: CpuTopologyInfo) -> bool {
    let n = level_count_of(rs, 0);
    let (x, s, c0, th, p0) = topo_fold(rs, n);
    let c = if c0 == 0 { level_of(rs[n - 1]).shift } else { c0 };
    let p = if c0 == 0 { at_least_one(level_of(rs[n - 1]).logical_processors) } else { p0 };
    let core_width: u8 = if c >= s { (c - s) as u8 } else { 0 };
    &&& t.leaf_kind == kind
    &&& t.level_count == n
    &&& forall|i: int| 0 <= i < n ==> #[trigger] t.levels@[i] == level_of(rs[i])
    &&& forall|i: int| n <= i < 4 ==> #[trigger] t.levels@[i] == TopologyLevel::empty_spec()
    &&& t.x2apic_id == x
    &&& t.smt_shift == s
    &&& t.core_shift == c
    &&& t.threads_per_core == th
    &&& t.logical_processors_per_package == p
    &&& t.smt_id == x & mask_of(s)
    &&& t.core_id == (x >> s) & mask_of(core_width)
    &&& t.package_id == x >> c
}

/// Decodes the topology from the subleaf results of an extended topology leaf; `None`
/// when the first result already ends the list.
pub fn decode_topology(leaf_kind: TopologyLeafKind, results: &[CpuidRegs]) -> (r: Option<CpuTopologyInfo>)
    ensures
        level_count_of(results@, 0) == 0 ==> r is None,
        level_count_of(results@, 0) > 0 ==> (r matches Some(t) && topology_of(leaf_kind, results@, t)),
{
    let mut levels = [TopologyLevel::empty(), TopologyLevel::empty(), TopologyLevel::empty(), TopologyLevel::empty()];
    let mut level_count: usize = 0;
    let mut x2apic_id: u32 = 0;
    let mut smt_shift: u8 = 0;
    let mut core_shift: u8 = 0;
    let mut threads_per_core: u16 = 1;
    let mut logical_processors_per_package: u16 = 1;
    let mut done = false;
    while level_count < MAX_TOPOLOGY_LEVELS && level_count < results.len() && !done
        invariant
            level_count <= 4,
            !done ==> level_count_of(results@, 0) == level_count_of(results@, level_count as int),
            done ==> level_count_of(results@, 0) == level_count,
            (x2apic_id, smt_shift, core_shift, threads_per_core, logical_processors_per_package) == topo_fold(
                results@,
                level_count as int,
            ),
            forall|i: int| 0 <= i < level_count ==> #[trigger] levels@[i] == level_of(results@[i]),
            forall|i: int| level_count <= i < 4 ==> #[trigger] levels@[i] == TopologyLevel::empty_spec(),
            smt_shift < 32,
            core_shift < 32,
        decreases 4 - level_count + (if done { 0int } else { 1 }),
    {
        let result = results[level_count];
        let logical_processors = (result.ebx & 0xffff) as u16;
        let level_type_raw = ((result.ecx >> 8u32) & 0xff) as u8;
        if logical_processors == 0 || level_type_raw == 0 {
            done = true;
        } else {
            let level_type = parse_topology_level_type(level_type_raw);
            let shift = (result.eax & 0x1f) as u8;
            proof {
                lemma_low5(result.eax);
            }
            let level_number = (result.ecx & 0xff) as u8;
            x2apic_id = result.edx;
            levels[level_count] = TopologyLevel { level_number, level_type, shift, logical_processors, x2apic_id };
            match level_type {
                TopologyLevelType::Smt => {
                    smt_shift = shift;
                    threads_per_core = if logical_processors == 0 { 1 } else { logical_processors };
                },
                TopologyLevelType::Core => {
                    core_shift = shift;
                    logical_processors_per_package = if logical_processors == 0 { 1 } else { logical_processors };
                },
                _ => {},
            }
            level_count = level_count + 1;
        }
    }
    if level_count == 0 {
        return None;
    }
    let ghost c0 = core_shift;
    if core_shift == 0 {
        proof {
            lemma_low5(results@[level_count - 1].eax);
        }
        core_shift = levels[level_count - 1].shift;
        let lp = levels[level_count - 1].logical_processors;
        logical_processors_per_package = if lp == 0 { 1 } else { lp };
    }
    let smt_mask = bitmask(smt_shift);
    let core_width: u8 = if core_shift >= smt_shift { core_shift - smt_shift } else { 0 };
    let core_mask = bitmask(core_width);
    let smt_id = x2apic_id & smt_mask;
    let core_id = (x2apic_id >> smt_shift) & core_mask;
    let package_id = x2apic_id >> core_shift;
    Some(
        CpuTopologyInfo {
            leaf_kind,
            level_count,
            levels,
            x2apic_id,
            smt_shift,
            core_shift,
            threads_per_core,
            logical_processors_per_package,
            smt_id,
            core_id,
            package_id,
        },
    )
}

/// Whether `answers` are subleaves 0, 1, ... of `leaf`, asked in turn until one ended the
/// level list or four were asked.
pub open spec fn topology_answers(leaf: u32, answers: Seq<CpuidAnswer>) -> bool {
    &&& 0 < answers.len() <= 4
    &&& forall|s: int| 0 <= s < answers.len() ==> #[trigger] answers[s].leaf() == leaf && answers[s].subleaf() == s
    &&& forall|s: int| 0 <= s < answers.len() - 1 ==> !ends_levels(#[trigger] answers[s].regs())
    &&& answers.len() == 4 || ends_levels(answers.last().regs())
}

/// Whether `r` is what the subleaf results `rs` of a `kind` leaf decode to.
pub open spec fn topology_result(kind: TopologyLeafKind, rs: Seq<CpuidRegs>, r: Option<CpuTopologyInfo>) -> bool {
    &&& level_count_of(rs, 0) == 0 ==> r is None
    &&& level_count_of(rs, 0) > 0 ==> (r matches Some(t) && topology_of(kind, rs, t))
}

/// The topology leaf a basic limit leads to: 0x1f when the limit reaches it, else 0x0b.
pub open spec fn topology_leaf_for(max_basic_leaf: u32) -> (u32, TopologyLeafKind) {
    if max_basic_leaf >= CPUID_LEAF_EXTENDED_TOPOLOGY_V2 {
        (CPUID_LEAF_EXTENDED_TOPOLOGY_V2, TopologyLeafKind::Leaf0x1f)
    } else {
        (CPUID_LEAF_EXTENDED_TOPOLOGY, TopologyLeafKind::Leaf0x0b)
    }
}

/// Reads the topology from the newest extended topology leaf the CPU has: leaf 0x1f when
/// the basic limit reaches it, else leaf 0x0b, else none.
pub fn read_topology(max_basic_leaf: u32) -> (r: Option<CpuTopologyInfo>)
    ensures
        max_basic_leaf < CPUID_LEAF_EXTENDED_TOPOLOGY ==> r is None,
        max_basic_leaf >= CPUID_LEAF_EXTENDED_TOPOLOGY ==> exists|answers: Seq<CpuidAnswer>|
            #[trigger] topology_answers(topology_leaf_for(max_basic_leaf).0, answers) && topology_result(
                topology_leaf_for(max_basic_leaf).1,
                answer_regs(answers),
                r,
            ),
{
    if max_basic_leaf < CPUID_LEAF_EXTENDED_TOPOLOGY {
        return None;
    }
    let (leaf, kind) = if max_basic_leaf >= CPUID_LEAF_EXTENDED_TOPOLOGY_V2 {
        (CPUID_LEAF_EXTENDED_TOPOLOGY_V2, TopologyLeafKind::Leaf0x1f)
    } else {
        (CPUID_LEAF_EXTENDED_TOPOLOGY, TopologyLeafKind::Leaf0x0b)
    };
    assert(topology_leaf_for(max_basic_leaf) == (leaf, kind));
    read_topology_leaf(leaf, kind)
}

/// Queries the subleaves of a topology leaf until one ends the list, and decodes them.
pub fn read_topology_leaf(leaf: u32, leaf_kind: TopologyLeafKind) -> (r: Option<CpuTopologyInfo>)
    ensures
        exists|answers: Seq<CpuidAnswer>|
            #[trigger] topology_answers(leaf, answers) && topology_result(leaf_kind, answer_regs(answers), r),
{
    let mut answers: Vec<CpuidAnswer> = Vec::new();
    let mut results: Vec<CpuidRegs> = Vec::new();
    let mut subleaf: u32 = 0;
    let mut done = false;
    while subleaf < 4 && !done
        invariant
            subleaf <= 4,
            answers@.len() == subleaf,
            results@ == answer_regs(answers@),
            forall|s: int| 0 <= s < subleaf ==> #[trigger] answers@[s].leaf() == leaf && answers@[s].subleaf() == s,
            forall|s: int| 0 <= s < subleaf - 1 ==> !ends_levels(#[trigger] answers@[s].regs()),
            !done && subleaf > 0 ==> !ends_levels(answers@[subleaf - 1].regs()),
            done ==> subleaf > 0 && ends_levels(answers@[subleaf - 1].regs()),
        decreases 4 - subleaf,
    {
        let a = query_count(leaf, subleaf);
        let r = a.registers();
        answers.push(a);
        results.push(r);
        assert(results@ =~= answer_regs(answers@));
        if (r.ebx & 0xffff) as u16 == 0 || ((r.ecx >> 8u32) & 0xff) as u8 == 0 {
            done = true;
        }
        subleaf = subleaf + 1;
    }
    let rs = results.as_slice();
    let r = decode_topology(leaf_kind, rs);
    assert(topology_answers(leaf, answers@));
    r
}

} // verus!
